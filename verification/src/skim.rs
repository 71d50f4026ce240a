//! The fuzzy file finder's state: a query buffer, the known files, and
//! the filtered entries the query currently matches, newest-listed first.

use vstd::prelude::*;
use crate::error::Error;
use crate::mode::Mode;
use crate::msg::Cmd;
use crate::msg::Direction;
use crate::text_buffer::TextBuffer;

verus! {

/// The fuzzy-match score of a candidate against a query: a function of
/// the two strings alone, `None` when the candidate does not match.
pub uninterp spec fn fuzzy_score(choice: Seq<char>, pattern: Seq<char>) -> Option<int>;

/// Relies on `fuzzy_matcher::skim::fuzzy_match`: a pure score of the two
/// strings, always present for an empty pattern.
#[allow(deprecated)]
#[verifier::external_body]
fn fuzzy_match_score(choice: &String, pattern: &String) -> (r: Option<i64>)
    ensures
        match r {
            Some(s) => fuzzy_score(choice@, pattern@) == Some(s as int),
            None => fuzzy_score(choice@, pattern@) is None,
        },
        pattern@.len() == 0 ==> r is Some,
{
    fuzzy_matcher::skim::fuzzy_match(choice.as_str(), pattern.as_str())
}

/// The files matching the query, scanning from `i`: index and name of
/// each file whose score exists, in file order.
pub open spec fn matches_from(files: Seq<String>, q: Seq<char>, i: int) -> Seq<(int, Seq<char>)>
    decreases files.len() - i,
{
    if i < 0 || i >= files.len() {
        Seq::empty()
    } else {
        (if fuzzy_score(files[i]@, q) is Some {
            seq![(i, files[i]@)]
        } else {
            Seq::empty()
        }) + matches_from(files, q, i + 1)
    }
}

pub open spec fn entries_view(v: Seq<(usize, String)>) -> Seq<(int, Seq<char>)> {
    v.map(|i: int, e: (usize, String)| (e.0 as int, e.1@))
}

/// The fuzzy finder.
pub struct SkimBuffer {
    buffer: TextBuffer,
    selected_option: usize,
    files: Option<Vec<String>>,
    sorted_files: Option<Vec<(usize, String)>>,
}

impl SkimBuffer {
    pub closed spec fn query(self) -> Seq<char> {
        self.buffer.text()
    }

    pub closed spec fn selected(self) -> int {
        self.selected_option as int
    }

    pub closed spec fn file_names(self) -> Option<Seq<String>> {
        match self.files {
            Some(f) => Some(f@),
            None => None,
        }
    }

    pub closed spec fn entries(self) -> Option<Seq<(int, Seq<char>)>> {
        match self.sorted_files {
            Some(e) => Some(entries_view(e@)),
            None => None,
        }
    }

    /// Every filtered entry indexes an existing file.
    pub closed spec fn wf(self) -> bool {
        &&& self.buffer.wf()
        &&& (match self.sorted_files {
            Some(e) => self.files is Some && forall|j: int|
                0 <= j < e@.len() ==> (#[trigger] e@[j]).0 < self.files->Some_0@.len(),
            None => true,
        })
    }

    /// Whether the finder still waits for the file list.
    pub fn needs_files(&self) -> (r: bool)
        ensures
            r == (self.file_names() is None),
    {
        self.files.is_none()
    }

    /// Hands the finder the file list to search, clearing old results.
    pub fn set_files(&mut self, files: Vec<String>)
        requires
            old(self).wf(),
        ensures
            final(self).wf(),
            final(self).file_names() == Some(files@),
            final(self).entries() is None,
            final(self).query() == old(self).query(),
    {
        self.files = Some(files);
        self.sorted_files = None;
    }

    /// Recomputes the filtered entries: the files the query matches, in
    /// reverse file order, selection reset to the top.
    pub fn update_filtered_entries(&mut self)
        requires
            old(self).wf(),
        ensures
            final(self).wf(),
            final(self).query() == old(self).query(),
            final(self).file_names() == old(self).file_names(),
            final(self).selected() == 0,
            match old(self).file_names() {
                Some(fs) => {
                    let m = matches_from(fs, old(self).query(), 0);
                    final(self).entries() matches Some(es) && es.len() == m.len() && (forall|
                        j: int,
                    |
                        0 <= j < es.len() ==> es[j] == m[m.len() - 1 - j])
                },
                None => final(self).entries() == old(self).entries(),
            },
    {
        let query = self.buffer.as_str();
        match &self.files {
            Some(files) => {
                let n: usize = files.len();
                let mut fwd: Vec<(usize, String)> = Vec::new();
                let mut i: usize = 0;
                proof {
                    assert(entries_view(fwd@) + matches_from(files@, query@, 0) =~= matches_from(
                        files@,
                        query@,
                        0,
                    ));
                }
                while i < n
                    invariant
                        n == files@.len(),
                        i <= n,
                        query@ == old(self).query(),
                        matches_from(files@, query@, 0) == entries_view(fwd@) + matches_from(
                            files@,
                            query@,
                            i as int,
                        ),
                        forall|j: int| 0 <= j < fwd@.len() ==> (#[trigger] fwd@[j]).0 < n,
                    decreases n - i,
                {
                    let ghost fwd0 = entries_view(fwd@);
                    match fuzzy_match_score(&files[i], &query) {
                        Some(_) => {
                            fwd.push((i, files[i].clone()));
                            proof {
                                assert(entries_view(fwd@) =~= fwd0 + seq![
                                    (i as int, files@[i as int]@),
                                ]);
                                assert(fwd0 + (seq![(i as int, files@[i as int]@)] + matches_from(
                                    files@,
                                    query@,
                                    i + 1,
                                )) =~= entries_view(fwd@) + matches_from(files@, query@, i + 1));
                            }
                        },
                        None => {
                            proof {
                                assert(fwd0 + (Seq::<(int, Seq<char>)>::empty() + matches_from(
                                    files@,
                                    query@,
                                    i + 1,
                                )) =~= fwd0 + matches_from(files@, query@, i + 1));
                            }
                        },
                    }
                    i = i + 1;
                }
                proof {
                    assert(matches_from(files@, query@, n as int) =~= Seq::<
                        (int, Seq<char>),
                    >::empty());
                    assert(entries_view(fwd@) + Seq::<(int, Seq<char>)>::empty() =~= entries_view(
                        fwd@,
                    ));
                }
                let m: usize = fwd.len();
                let mut rev: Vec<(usize, String)> = Vec::new();
                let mut k: usize = 0;
                while k < m
                    invariant
                        m == fwd@.len(),
                        k <= m,
                        rev@.len() == k,
                        forall|j: int| 0 <= j < fwd@.len() ==> (#[trigger] fwd@[j]).0 < n,
                        forall|j: int|
                            0 <= j < k ==> #[trigger] rev@[j] == fwd@[m - 1 - j],
                    decreases m - k,
                {
                    let e = &fwd[m - 1 - k];
                    rev.push((e.0, e.1.clone()));
                    k = k + 1;
                }
                proof {
                    assert forall|j: int| 0 <= j < rev@.len() implies entries_view(rev@)[j]
                        == entries_view(fwd@)[m - 1 - j] by {
                        assert(rev@[j] == fwd@[m - 1 - j]);
                    }
                }
                self.sorted_files = Some(rev);
                self.selected_option = 0;
            },
            None => {
                self.selected_option = 0;
            },
        }
    }

    /// One command to the finder: submit loads the selected entry's file
    /// and leaves skim mode, up and down move the selection (up wraps to
    /// the top), and anything else edits the query, refreshing the
    /// filtered entries when the query changed.
    pub fn handle_command(&mut self, cmd: Cmd) -> (r: (Result<bool, Error>, Vec<Cmd>))
        requires
            old(self).wf(),
        ensures
            final(self).wf(),
    {
        match cmd {
            Cmd::Submit => {
                let mut events: Vec<Cmd> = Vec::new();
                let has_files = match &self.files {
                    Some(_) => true,
                    None => false,
                };
                if has_files {
                    let real_index: Option<usize> = match &self.sorted_files {
                        Some(sorted) => {
                            if self.selected_option < sorted.len() {
                                Some(sorted[self.selected_option].0)
                            } else {
                                None
                            }
                        },
                        None => None,
                    };
                    match real_index {
                        Some(ri) => {
                            match &self.files {
                                Some(files) => {
                                    events.push(Cmd::LoadFile(files[ri].clone()));
                                },
                                None => {},
                            }
                        },
                        None => {},
                    }
                    events.push(Cmd::ChangeMode(Mode::Normal));
                    self.buffer.clear();
                    (Ok(true), events)
                } else {
                    (Ok(false), events)
                }
            },
            Cmd::MoveCursor(Direction::Up) => {
                let limit: usize = match &self.sorted_files {
                    Some(v) => v.len(),
                    None => 0,
                };
                if self.selected_option >= limit {
                    self.selected_option = 0;
                } else {
                    self.selected_option = self.selected_option + 1;
                }
                (Ok(true), Vec::new())
            },
            Cmd::MoveCursor(Direction::Down) => {
                if self.selected_option > 0 {
                    self.selected_option = self.selected_option - 1;
                }
                (Ok(false), Vec::new())
            },
            cmd => {
                let updated = self.buffer.handle_command(cmd);
                match updated {
                    Ok(true) => {
                        self.update_filtered_entries();
                        (Ok(true), Vec::new())
                    },
                    Ok(false) => (Ok(false), Vec::new()),
                    Err(e) => (Err(e), Vec::new()),
                }
            },
        }
    }
}

impl Default for SkimBuffer {
    fn default() -> (r: SkimBuffer)
        ensures
            r.wf(),
            r.query() == Seq::<char>::empty(),
            r.file_names() is None,
            r.entries() is None,
            r.selected() == 0,
    {
        SkimBuffer {
            buffer: TextBuffer::default(),
            selected_option: 0,
            files: None,
            sorted_files: None,
        }
    }
}

} // verus!
