//! The command prompt: it buffers typed characters and, on submit, parses
//! the line into editor actions. Parsing is case-insensitive: the line is
//! ASCII-lowercased first, then split at whitespace.

use vstd::prelude::*;
use crate::error::Error;
use crate::mode::Mode;
use crate::msg::Cmd;
use crate::text_buffer::TextBuffer;
use crate::text_buffer::chars_to_string;

verus! {

/// ASCII lowercasing, as applied to a submitted command line.
pub open spec fn lower(c: char) -> char {
    if 'A' <= c && c <= 'Z' {
        (((c as u32) + 32) as char)
    } else {
        c
    }
}

pub open spec fn lowered(s: Seq<char>) -> Seq<char> {
    s.map(|i: int, c: char| lower(c))
}

/// ASCII whitespace, the separators of a command line.
pub open spec fn cmd_ws(c: char) -> bool {
    c == ' ' || c == '\t' || c == '\n' || c == '\r'
}

/// The whitespace-separated words of the line, by one left-to-right scan
/// carrying the current word.
pub open spec fn words_acc(
    s: Seq<char>,
    i: int,
    cur: Seq<char>,
    acc: Seq<Seq<char>>,
) -> Seq<Seq<char>>
    decreases s.len() - i,
{
    if i < 0 || i >= s.len() {
        if cur.len() > 0 {
            acc.push(cur)
        } else {
            acc
        }
    } else if cmd_ws(s[i]) {
        words_acc(
            s,
            i + 1,
            Seq::empty(),
            if cur.len() > 0 {
                acc.push(cur)
            } else {
                acc
            },
        )
    } else {
        words_acc(s, i + 1, cur.push(s[i]), acc)
    }
}

pub open spec fn words_of(s: Seq<char>) -> Seq<Seq<char>> {
    words_acc(s, 0, Seq::empty(), Seq::empty())
}

/// The words from `i` on, joined without separators: how a save path is
/// assembled from everything after the command word.
pub open spec fn concat_from(ws: Seq<Seq<char>>, i: int) -> Seq<char>
    decreases ws.len() - i,
{
    if i < 0 || i >= ws.len() {
        Seq::empty()
    } else {
        ws[i] + concat_from(ws, i + 1)
    }
}

pub open spec fn words_view(v: Seq<Vec<char>>) -> Seq<Seq<char>> {
    v.map(|i: int, w: Vec<char>| w@)
}

/// What submitting a line must produce: always a switch back to normal
/// mode, then the one action the first word names — quit, write (with the
/// remaining words joined as the path), or load — or the error for a
/// missing argument or an unknown command.
pub open spec fn command_outcome(text: Seq<char>, res: Result<(), Error>, events: Seq<Cmd>) -> bool {
    let ws = words_of(lowered(text));
    &&& events.len() >= 1
    &&& events[0] == Cmd::ChangeMode(Mode::Normal)
    &&& (ws.len() == 0 ==> res is Ok && events.len() == 1)
    &&& (ws.len() > 0 && ws[0] == "q"@ ==> res is Ok && events.len() == 2 && events[1]
        == Cmd::Quit)
    &&& (ws.len() > 0 && ws[0] == "w"@ ==> res is Ok && events.len() == 2 && (events[1] matches
    Cmd::WriteBuffer(p) && (match p {
        Some(ps) => concat_from(ws, 1).len() > 0 && ps@ == concat_from(ws, 1),
        None => concat_from(ws, 1).len() == 0,
    })))
    &&& (ws.len() > 0 && ws[0] == "edit"@ ==> (if ws.len() >= 2 {
        res is Ok && events.len() == 2 && (events[1] matches Cmd::LoadFile(f) && f@ == ws[1])
    } else {
        res == Err::<(), Error>(Error::MissingArg) && events.len() == 1
    }))
    &&& (ws.len() > 0 && ws[0] != "q"@ && ws[0] != "w"@ && ws[0] != "edit"@ ==> events.len() == 1
        && (res matches Err(e) && (e matches Error::UnknownCommand(w) && w@ == ws[0])))
}

fn lower_char(c: char) -> (r: char)
    ensures
        r == lower(c),
{
    if 'A' <= c && c <= 'Z' {
        (((c as u8) + 32) as char)
    } else {
        c
    }
}

fn lower_all(v: &Vec<char>) -> (r: Vec<char>)
    ensures
        r@ == lowered(v@),
{
    let n: usize = v.len();
    let mut out: Vec<char> = Vec::new();
    let mut i: usize = 0;
    while i < n
        invariant
            n == v@.len(),
            i <= n,
            out@.len() == i,
            forall|k: int| 0 <= k < i ==> out@[k] == lower(v@[k]),
        decreases n - i,
    {
        out.push(lower_char(v[i]));
        i = i + 1;
    }
    assert(out@ =~= lowered(v@));
    out
}

fn split_words(s: &Vec<char>) -> (r: Vec<Vec<char>>)
    ensures
        words_view(r@) == words_of(s@),
{
    let n: usize = s.len();
    let mut acc: Vec<Vec<char>> = Vec::new();
    let mut cur: Vec<char> = Vec::new();
    let mut i: usize = 0;
    proof {
        assert(words_view(acc@) =~= Seq::<Seq<char>>::empty());
    }
    while i < n
        invariant
            n == s@.len(),
            i <= n,
            words_of(s@) == words_acc(s@, i as int, cur@, words_view(acc@)),
        decreases n - i,
    {
        let ghost gi = i as int;
        let ghost cur0 = cur@;
        let ghost wv0 = words_view(acc@);
        let c = s[i];
        proof {
            assert(c == s@[gi]);
        }
        if c == ' ' || c == '\t' || c == '\n' || c == '\r' {
            proof {
                assert(cmd_ws(s@[gi]));
            }
            if cur.len() > 0 {
                let ghost acc0 = words_view(acc@);
                let ghost dv = cur@;
                let done = cur;
                cur = Vec::new();
                acc.push(done);
                proof {
                    assert(words_view(acc@) =~= acc0.push(dv));
                    assert(cur@ =~= Seq::<char>::empty());
                }
            } else {
                proof {
                    assert(cur@ =~= Seq::<char>::empty());
                }
            }
        } else {
            proof {
                assert(!cmd_ws(s@[gi]));
            }
            cur.push(c);
            proof {
                assert(cur@ == cur0.push(s@[gi]));
            }
        }
        i = i + 1;
        proof {
            reveal_with_fuel(words_acc, 2);
            assert(words_acc(s@, gi, cur0, wv0) == words_acc(
                s@,
                gi + 1,
                cur@,
                words_view(acc@),
            ));
        }
    }
    if cur.len() > 0 {
        let ghost acc0 = words_view(acc@);
        let ghost curv = cur@;
        acc.push(cur);
        proof {
            assert(words_view(acc@) =~= acc0.push(curv));
        }
    }
    acc
}

/// Whether the word is exactly the given ASCII literal, checked char by
/// char.
fn word_is(w: &Vec<char>, a: char) -> (r: bool)
    ensures
        r == (w@ =~= seq![a]),
{
    if w.len() == 1 && w[0] == a {
        assert(w@ =~= seq![a]);
        true
    } else {
        assert(!(w@ =~= seq![a]));
        false
    }
}

/// The editor's command prompt.
#[derive(Debug, Clone)]
pub struct CommandBuffer {
    buffer: TextBuffer,
}

impl CommandBuffer {
    pub closed spec fn text(self) -> Seq<char> {
        self.buffer.text()
    }

    pub closed spec fn wf(self) -> bool {
        self.buffer.wf()
    }

    pub fn clear(&mut self)
        ensures
            final(self).wf(),
            final(self).text() == Seq::<char>::empty(),
    {
        self.buffer.clear();
    }

    /// Parses the buffered line, clears it, and returns the actions to
    /// send: see `command_outcome`.
    pub fn run_command(&mut self) -> (r: (Result<(), Error>, Vec<Cmd>))
        requires
            old(self).wf(),
        ensures
            final(self).wf(),
            final(self).text() == Seq::<char>::empty(),
            command_outcome(old(self).text(), r.0, r.1@),
    {
        let ghost text0 = self.text();
        let chars = self.buffer.chars();
        let low = lower_all(&chars);
        let words = split_words(&low);
        self.buffer.clear();
        let mut events: Vec<Cmd> = Vec::new();
        events.push(Cmd::ChangeMode(Mode::Normal));
        let ghost ws = words_of(lowered(text0));
        proof {
            assert(ws == words_view(words@));
        }
        if words.len() == 0 {
            return (Ok(()), events);
        }
        let w0 = &words[0];
        if word_is(w0, 'q') {
            proof {
                reveal_strlit("q");
                reveal_strlit("w");
                reveal_strlit("edit");
                assert(ws[0] =~= "q"@);
                assert(ws[0] != "w"@) by {
                    assert(ws[0][0] == 'q');
                    assert("w"@[0] == 'w');
                }
                assert(ws[0] != "edit"@) by {
                    assert(ws[0].len() == 1);
                    assert("edit"@.len() == 4);
                }
            }
            events.push(Cmd::Quit);
            return (Ok(()), events);
        }
        if word_is(w0, 'w') {
            proof {
                reveal_strlit("w");
                assert(ws[0] =~= "w"@);
                reveal_strlit("q");
                reveal_strlit("edit");
                assert(ws[0] != "q"@) by {
                    assert(ws[0][0] == 'w');
                    assert("q"@[0] == 'q');
                }
                assert(ws[0] != "edit"@) by {
                    assert(ws[0].len() == 1);
                    assert("edit"@.len() == 4);
                }
            }
            let mut path: Vec<char> = Vec::new();
            let nw: usize = words.len();
            let mut k: usize = 1;
            proof {
                assert(path@ + concat_from(ws, 1) =~= concat_from(ws, 1));
            }
            while k < nw
                invariant
                    nw == words@.len(),
                    1 <= k <= nw,
                    ws == words_view(words@),
                    path@ + concat_from(ws, k as int) =~= concat_from(ws, 1),
                decreases nw - k,
            {
                let ghost p0 = path@;
                let mut kk: usize = 0;
                let wk = &words[k];
                while kk < wk.len()
                    invariant
                        kk <= wk@.len(),
                        path@ == p0 + wk@.subrange(0, kk as int),
                    decreases wk@.len() - kk,
                {
                    let ghost prev = path@;
                    path.push(wk[kk]);
                    kk = kk + 1;
                    assert(path@ =~= p0 + wk@.subrange(0, kk as int)) by {
                        assert(path@ == prev + seq![wk@[kk - 1]]);
                        assert(wk@.subrange(0, kk - 1) + seq![wk@[kk - 1]] =~= wk@.subrange(
                            0,
                            kk as int,
                        ));
                    }
                }
                proof {
                    assert(wk@.subrange(0, wk@.len() as int) =~= wk@);
                    assert(ws[k as int] == wk@);
                    assert(path@ + concat_from(ws, k + 1) =~= concat_from(ws, 1)) by {
                        assert(concat_from(ws, k as int) == ws[k as int] + concat_from(
                            ws,
                            k + 1,
                        ));
                        assert(p0 + (ws[k as int] + concat_from(ws, k + 1)) =~= (p0
                            + ws[k as int]) + concat_from(ws, k + 1));
                    }
                }
                k = k + 1;
            }
            proof {
                assert(concat_from(ws, nw as int) =~= Seq::<char>::empty());
                assert(path@ =~= concat_from(ws, 1));
            }
            let maybe_path: Option<String> = if path.len() == 0 {
                None
            } else {
                Some(chars_to_string(&path))
            };
            events.push(Cmd::WriteBuffer(maybe_path));
            return (Ok(()), events);
        }
        let is_edit = w0.len() == 4 && {
            let a = w0[0] == 'e';
            let b = w0[1] == 'd';
            let c = w0[2] == 'i';
            let d = w0[3] == 't';
            a && b && c && d
        };
        if is_edit {
            proof {
                reveal_strlit("edit");
                assert(ws[0] =~= "edit"@);
                reveal_strlit("q");
                reveal_strlit("w");
                assert(ws[0] != "q"@) by {
                    assert(ws[0].len() == 4);
                    assert("q"@.len() == 1);
                }
                assert(ws[0] != "w"@) by {
                    assert(ws[0].len() == 4);
                    assert("w"@.len() == 1);
                }
            }
            if words.len() >= 2 {
                let f = chars_to_string(&words[1]);
                events.push(Cmd::LoadFile(f));
                return (Ok(()), events);
            } else {
                return (Err(Error::MissingArg), events);
            }
        }
        proof {
            reveal_strlit("q");
            reveal_strlit("w");
            reveal_strlit("edit");
            assert(ws[0] != "q"@) by {
                assert(!(w0@ =~= seq!['q']));
                assert("q"@ =~= seq!['q']);
            }
            assert(ws[0] != "w"@) by {
                assert(!(w0@ =~= seq!['w']));
                assert("w"@ =~= seq!['w']);
            }
            assert(ws[0] != "edit"@) by {
                assert("edit"@ =~= seq!['e', 'd', 'i', 't']);
                assert(!(w0@ =~= seq!['e', 'd', 'i', 't']));
            }
        }
        let w = chars_to_string(w0);
        (Err(Error::UnknownCommand(w)), events)
    }

    /// Submit runs the buffered command; everything else edits the
    /// buffered line.
    pub fn handle_command(&mut self, cmd: Cmd) -> (r: (Result<bool, Error>, Vec<Cmd>))
        requires
            old(self).wf(),
        ensures
            final(self).wf(),
            cmd == Cmd::Submit ==> command_outcome(
                old(self).text(),
                (match r.0 {
                    Ok(_) => Ok::<(), Error>(()),
                    Err(e) => Err::<(), Error>(e),
                }),
                r.1@,
            ) && (r.0 matches Ok(b) ==> b) && final(self).text() == Seq::<char>::empty(),
            cmd != Cmd::Submit ==> r.1@.len() == 0,
    {
        let is_submit = match &cmd {
            Cmd::Submit => true,
            _ => false,
        };
        if is_submit {
            let (res, events) = self.run_command();
            match res {
                Ok(_) => (Ok(true), events),
                Err(e) => (Err(e), events),
            }
        } else {
            let r = self.buffer.handle_command(cmd);
            (r, Vec::new())
        }
    }
}

impl Default for CommandBuffer {
    fn default() -> (r: CommandBuffer)
        ensures
            r.wf(),
            r.text() == Seq::<char>::empty(),
    {
        CommandBuffer { buffer: TextBuffer::default() }
    }
}

} // verus!
