//! A one-line text buffer with a cursor, used by the command prompt and
//! the fuzzy finder's query field.

use vstd::prelude::*;
use crate::msg::Cmd;
use crate::msg::DeleteDirection;
use crate::msg::Direction;
use crate::error::Error;

verus! {

/// Relies on `String::push`: appends exactly the one character.
#[verifier::external_body]
pub fn string_push_char(s: &mut String, c: char)
    ensures
        final(s)@ == old(s)@ + seq![c],
{
    s.push(c);
}

/// Builds an owned string holding exactly the given characters.
pub fn chars_to_string(v: &Vec<char>) -> (r: String)
    ensures
        r@ == v@,
{
    let mut out = String::new();
    let n: usize = v.len();
    let mut i: usize = 0;
    while i < n
        invariant
            n == v@.len(),
            i <= n,
            out@ == v@.subrange(0, i as int),
        decreases n - i,
    {
        let ghost prev = out@;
        string_push_char(&mut out, v[i]);
        i = i + 1;
        assert(out@ =~= v@.subrange(0, i as int)) by {
            assert(out@ == prev + seq![v@[i - 1]]);
            assert(v@.subrange(0, i - 1) + seq![v@[i - 1]] =~= v@.subrange(0, i as int));
        }
    }
    assert(v@.subrange(0, n as int) =~= v@);
    out
}

/// A line of text and a cursor position within it.
#[derive(Debug, Clone)]
pub struct TextBuffer {
    buffer: Vec<char>,
    position: usize,
}

impl TextBuffer {
    pub closed spec fn text(self) -> Seq<char> {
        self.buffer@
    }

    pub closed spec fn pos(self) -> int {
        self.position as int
    }

    /// The cursor never leaves the text.
    pub closed spec fn wf(self) -> bool {
        self.position <= self.buffer@.len()
    }

    pub fn clear(&mut self)
        ensures
            final(self).wf(),
            final(self).text() == Seq::<char>::empty(),
            final(self).pos() == 0,
    {
        self.buffer = Vec::new();
        self.position = 0;
    }

    /// The buffer's characters, copied out.
    pub fn chars(&self) -> (r: Vec<char>)
        ensures
            r@ == self.text(),
    {
        let n: usize = self.buffer.len();
        let mut out: Vec<char> = Vec::new();
        let mut i: usize = 0;
        while i < n
            invariant
                n == self.buffer@.len(),
                i <= n,
                out@ == self.buffer@.subrange(0, i as int),
            decreases n - i,
        {
            let ghost prev = out@;
            out.push(self.buffer[i]);
            i = i + 1;
            assert(out@ =~= self.buffer@.subrange(0, i as int)) by {
                assert(out@ == prev + seq![self.buffer@[i - 1]]);
                assert(self.buffer@.subrange(0, i - 1) + seq![self.buffer@[i - 1]]
                    =~= self.buffer@.subrange(0, i as int));
            }
        }
        assert(self.buffer@.subrange(0, n as int) =~= self.buffer@);
        out
    }

    /// The buffer's text as an owned string.
    pub fn as_str(&self) -> (r: String)
        ensures
            r@ == self.text(),
    {
        chars_to_string(&self.buffer)
    }

    /// Applies one command: insert at the cursor, move the cursor, or
    /// delete before it. The result says whether anything changed; no
    /// command fails.
    pub fn handle_command(&mut self, cmd: Cmd) -> (r: Result<bool, Error>)
        requires
            old(self).wf(),
        ensures
            final(self).wf(),
            match cmd {
                Cmd::InsertChar(c, should_step) => {
                    &&& final(self).text() == old(self).text().insert(old(self).pos(), c)
                    &&& final(self).pos() == if should_step {
                        old(self).pos() + 1
                    } else {
                        old(self).pos()
                    }
                    &&& r == Ok::<bool, Error>(true)
                },
                Cmd::MoveCursor(Direction::Left) => {
                    &&& final(self).text() == old(self).text()
                    &&& final(self).pos() == if old(self).pos() > 0 {
                        old(self).pos() - 1
                    } else {
                        0int
                    }
                    &&& r == Ok::<bool, Error>(true)
                },
                Cmd::MoveCursor(Direction::Right) => {
                    &&& final(self).text() == old(self).text()
                    &&& final(self).pos() == if old(self).pos() < old(self).text().len() {
                        old(self).pos() + 1
                    } else {
                        old(self).pos()
                    }
                    &&& r == Ok::<bool, Error>(true)
                },
                Cmd::DeleteChar(DeleteDirection::Before) => if old(self).pos() > 0 {
                    &&& final(self).text() == old(self).text().remove(old(self).pos() - 1)
                    &&& final(self).pos() == old(self).pos() - 1
                    &&& r == Ok::<bool, Error>(true)
                } else {
                    &&& *final(self) == *old(self)
                    &&& r == Ok::<bool, Error>(false)
                },
                _ => *final(self) == *old(self) && r == Ok::<bool, Error>(false),
            },
    {
        match cmd {
            Cmd::InsertChar(c, should_step) => {
                self.buffer.insert(self.position, c);
                if should_step {
                    let nl = self.buffer.len();
                    assert(self.position < nl);
                    self.position = self.position + 1;
                }
                Ok(true)
            },
            Cmd::MoveCursor(Direction::Left) => {
                if self.position > 0 {
                    self.position = self.position - 1;
                }
                Ok(true)
            },
            Cmd::MoveCursor(Direction::Right) => {
                if self.position < self.buffer.len() {
                    self.position = self.position + 1;
                }
                Ok(true)
            },
            Cmd::MoveCursor(_) => Ok(false),
            Cmd::DeleteChar(DeleteDirection::Before) => {
                if self.position > 0 {
                    self.buffer.remove(self.position - 1);
                    self.position = self.position - 1;
                    Ok(true)
                } else {
                    Ok(false)
                }
            },
            _ => Ok(false),
        }
    }
}

impl Default for TextBuffer {
    fn default() -> (r: TextBuffer)
        ensures
            r.wf(),
            r.text() == Seq::<char>::empty(),
            r.pos() == 0,
    {
        TextBuffer { buffer: Vec::new(), position: 0 }
    }
}

} // verus!
