//! A cursor position as a column and row pair.

use vstd::prelude::*;
use crate::msg::Direction;
use crate::msg::JumpType;

verus! {

/// A column (`x`) and row (`y`) in the buffer.
#[derive(Debug, PartialEq, Eq, Structural, Copy, Clone)]
pub struct Point {
    pub x: u16,
    pub y: u16,
}

impl Point {
    /// Whether the point sits at the very start of the buffer.
    pub fn is_start(&self) -> (r: bool)
        ensures
            r == (self.x == 0 && self.y == 0),
    {
        self.x == 0 && self.y == 0
    }
}

impl Default for Point {
    fn default() -> (r: Point)
        ensures
            r.x == 0 && r.y == 0,
    {
        Point { x: 0, y: 0 }
    }
}

} // verus!

verus! {

/// The newlines in `t` before position `i`.
pub open spec fn count_newlines(t: Seq<char>, i: int) -> int
    decreases i,
{
    if i <= 0 {
        0
    } else {
        count_newlines(t, i - 1) + if t[i - 1] == '\n' {
            1int
        } else {
            0int
        }
    }
}

/// The first newline at or after `from`, or the length.
pub open spec fn find_newline(t: Seq<char>, from: int) -> int
    decreases t.len() - from,
{
    if from < 0 || from >= t.len() {
        t.len() as int
    } else if t[from] == '\n' {
        from
    } else {
        find_newline(t, from + 1)
    }
}

/// Where the line after the one starting at `from` begins.
pub open spec fn next_line_start(t: Seq<char>, from: int) -> int {
    let j = find_newline(t, from);
    if j >= t.len() {
        t.len() as int
    } else {
        j + 1
    }
}

/// Where line `y` begins.
pub open spec fn line_start(t: Seq<char>, y: int) -> int
    decreases y,
{
    if y <= 0 {
        0
    } else {
        next_line_start(t, line_start(t, y - 1))
    }
}

/// How many lines the text has: one more than its newlines.
pub open spec fn len_lines(t: Seq<char>) -> int {
    count_newlines(t, t.len() as int) + 1
}

/// The line a character position lies on.
pub open spec fn char_to_line(t: Seq<char>, i: int) -> int {
    count_newlines(t, i)
}

/// The length of line `y` in characters, counting its newline — the last
/// line has none.
pub open spec fn line_len_chars(t: Seq<char>, y: int) -> int {
    next_line_start(t, line_start(t, y)) - line_start(t, y)
}

/// Texts the u16 coordinates of a `Point` can address.
pub open spec fn fits(t: Seq<char>) -> bool {
    t.len() <= u16::MAX as int
}

/// Counts the newlines before `i`.
fn count_newlines_upto(text: &Vec<char>, i: usize) -> (r: usize)
    requires
        i <= text@.len(),
    ensures
        r as int == count_newlines(text@, i as int),
        r <= i,
    decreases i,
{
    let mut k: usize = 0;
    let mut r: usize = 0;
    while k < i
        invariant
            i <= text@.len(),
            k <= i,
            r as int == count_newlines(text@, k as int),
            r <= k,
        decreases i - k,
    {
        if text[k] == '\n' {
            r = r + 1;
        }
        k = k + 1;
    }
    r
}

/// Finds where line `y` starts.
fn line_start_at(text: &Vec<char>, y: u16) -> (r: usize)
    requires
        fits(text@),
    ensures
        r as int == line_start(text@, y as int),
        r <= text@.len(),
{
    let n: usize = text.len();
    let mut row: u16 = 0;
    let mut start: usize = 0;
    while row < y
        invariant
            n == text@.len(),
            fits(text@),
            row <= y,
            start as int == line_start(text@, row as int),
            start <= n,
        decreases y - row,
    {
        let mut j: usize = start;
        while j < n && text[j] != '\n'
            invariant
                n == text@.len(),
                start <= j <= n,
                find_newline(text@, start as int) == find_newline(text@, j as int),
            decreases n - j,
        {
            proof {
                assert(find_newline(text@, j as int) == find_newline(text@, j + 1));
            }
            j = j + 1;
        }
        if j >= n {
            start = n;
        } else {
            start = j + 1;
        }
        row = row + 1;
    }
    start
}

impl Point {
    /// The character index of this point: where its line starts, plus its
    /// column. The column may point past the line's end, as a remembered
    /// column does.
    pub fn index(&self, text: &Vec<char>) -> (r: usize)
        requires
            fits(text@),
        ensures
            r as int == line_start(text@, self.y as int) + self.x as int,
    {
        let start = line_start_at(text, self.y);
        start + self.x as usize
    }

    /// The character at this point.
    pub fn get_char(&self, text: &Vec<char>) -> (r: char)
        requires
            fits(text@),
            line_start(text@, self.y as int) + self.x < text@.len(),
        ensures
            r == text@[line_start(text@, self.y as int) + self.x as int],
    {
        let i = self.index(text);
        text[i]
    }

    /// The point at a character index: its line, and the offset into it.
    pub fn from_index(index: usize, text: &Vec<char>) -> (r: Point)
        requires
            fits(text@),
            index <= text@.len(),
        ensures
            r.y as int == char_to_line(text@, index as int),
            r.x as int == index - line_start(text@, char_to_line(text@, index as int)),
    {
        let y16 = count_newlines_upto(text, index);
        proof {
            lemma_line_start_le_index(text@, index as int);
        }
        let y: u16 = y16 as u16;
        let start = line_start_at(text, y);
        let x: u16 = (index - start) as u16;
        Point { x, y }
    }

    /// Moves this point to the given character index.
    pub fn step_to_index(&mut self, index: usize, text: &Vec<char>)
        requires
            fits(text@),
            index <= text@.len(),
        ensures
            final(self).y as int == char_to_line(text@, index as int),
            final(self).x as int == index - line_start(
                text@,
                char_to_line(text@, index as int),
            ),
    {
        *self = Point::from_index(index, text);
    }

    /// Pulls a column that ran past the end of its line back onto it:
    /// onto the line's last character, or column zero of an empty line.
    pub fn prevent_runoff(&mut self, text: &Vec<char>)
        requires
            fits(text@),
        ensures
            final(self).y == old(self).y,
            ({
                let ll = line_len_chars(text@, old(self).y as int);
                if ll <= old(self).x as int {
                    if ll == 0 {
                        final(self).x == 0
                    } else {
                        final(self).x as int == ll - 1
                    }
                } else {
                    final(self).x == old(self).x
                }
            }),
    {
        let start = line_start_at(text, self.y);
        let next = next_start(text, start);
        let line_len: usize = next - start;
        if line_len <= self.x as usize {
            if line_len == 0 {
                self.x = 0;
            } else {
                self.x = (line_len - 1) as u16;
            }
        }
    }

    /// One step in a direction: left and right move through the whole
    /// text by index, up and down change the line within bounds.
    pub fn step(&mut self, direction: Direction, text: &Vec<char>)
        requires
            fits(text@),
            old(self).y as int + 1 <= u16::MAX as int,
            line_start(text@, old(self).y as int) + old(self).x as int <= text@.len(),
        ensures
            ({
                let idx = line_start(text@, old(self).y as int) + old(self).x as int;
                match direction {
                    Direction::Left => if idx > 0 {
                        &&& final(self).y as int == char_to_line(text@, idx - 1)
                        &&& final(self).x as int == idx - 1 - line_start(
                            text@,
                            char_to_line(text@, idx - 1),
                        )
                    } else {
                        *final(self) == *old(self)
                    },
                    Direction::Right => if idx < text@.len() {
                        &&& final(self).y as int == char_to_line(text@, idx + 1)
                        &&& final(self).x as int == idx + 1 - line_start(
                            text@,
                            char_to_line(text@, idx + 1),
                        )
                    } else {
                        *final(self) == *old(self)
                    },
                    Direction::Down => {
                        &&& final(self).x == old(self).x
                        &&& final(self).y as int == if old(self).y as int + 1 < len_lines(text@) {
                            old(self).y as int + 1
                        } else {
                            old(self).y as int
                        }
                    },
                    Direction::Up => {
                        &&& final(self).x == old(self).x
                        &&& final(self).y as int == if old(self).y > 0 {
                            old(self).y as int - 1
                        } else {
                            old(self).y as int
                        }
                    },
                }
            }),
    {
        match direction {
            Direction::Left => {
                let index = self.index(text);
                if index > 0 {
                    self.step_to_index(index - 1, text);
                }
            },
            Direction::Right => {
                let index = self.index(text);
                if index < text.len() {
                    self.step_to_index(index + 1, text);
                }
            },
            Direction::Down => {
                let lines = count_newlines_upto(text, text.len());
                if (self.y as usize) + 1 < lines + 1 {
                    self.y = self.y + 1;
                }
            },
            Direction::Up => {
                if self.y > 0 {
                    self.y = self.y - 1;
                }
            },
        }
    }

    /// Jumps within the text: to the end or the indented start of the
    /// current line, or to the first or last line.
    pub fn jump(&mut self, jump_type: JumpType, text: &Vec<char>)
        requires
            fits(text@),
        ensures
            ({
                let t = text@;
                let y0 = old(self).y as int;
                match jump_type {
                    JumpType::EndOfLine => final(self).y == old(self).y && final(self).x as int
                        == (if y0 + 1 < len_lines(t) && line_len_chars(t, y0) >= 1 {
                        line_len_chars(t, y0) - 1
                    } else {
                        line_len_chars(t, y0)
                    }),
                    JumpType::StartOfLine => final(self).y == old(self).y && final(self).x as int
                        == leading_blanks(t, line_start(t, y0), line_start(t, y0) + line_len_chars(
                        t,
                        y0,
                    )),
                    JumpType::StartOfFile => final(self).x == 0 && final(self).y == 0,
                    JumpType::EndOfFile => final(self).x == 0 && final(self).y as int == len_lines(
                        t,
                    ) - 1,
                }
            }),
    {
        match jump_type {
            JumpType::EndOfLine => {
                let start = line_start_at(text, self.y);
                let next = next_start(text, start);
                let line_len: usize = next - start;
                let lines = count_newlines_upto(text, text.len());
                if (self.y as usize) + 1 < lines + 1 && line_len >= 1 {
                    self.x = (line_len - 1) as u16;
                } else {
                    self.x = line_len as u16;
                }
            },
            JumpType::StartOfLine => {
                let start = line_start_at(text, self.y);
                let next = next_start(text, start);
                let mut k: usize = start;
                while k < next && (text[k] == ' ' || text[k] == '\t')
                    invariant
                        start <= k <= next <= text@.len(),
                        leading_blanks(text@, start as int, next as int) == leading_blanks(
                            text@,
                            k as int,
                            next as int,
                        ) + (k - start),
                    decreases next - k,
                {
                    proof {
                        assert(leading_blanks(text@, k as int, next as int) == leading_blanks(
                            text@,
                            k + 1,
                            next as int,
                        ) + 1);
                    }
                    k = k + 1;
                }
                proof {
                    assert(leading_blanks(text@, k as int, next as int) == 0);
                }
                self.x = (k - start) as u16;
            },
            JumpType::StartOfFile => {
                self.x = 0;
                self.y = 0;
            },
            JumpType::EndOfFile => {
                let lines = count_newlines_upto(text, text.len());
                self.y = lines as u16;
                self.x = 0;
            },
        }
    }
}

/// The run of spaces and tabs at the start of the range.
pub open spec fn leading_blanks(t: Seq<char>, from: int, to: int) -> int
    decreases to - from,
{
    if from < 0 || from >= to || from >= t.len() {
        0
    } else if t[from] == ' ' || t[from] == '\t' {
        1 + leading_blanks(t, from + 1, to)
    } else {
        0
    }
}

/// Finds where the next line starts, given this line's start.
fn next_start(text: &Vec<char>, start: usize) -> (r: usize)
    requires
        start <= text@.len(),
    ensures
        r as int == next_line_start(text@, start as int),
        start <= r <= text@.len(),
{
    let n: usize = text.len();
    let mut j: usize = start;
    while j < n && text[j] != '\n'
        invariant
            n == text@.len(),
            start <= j <= n,
            find_newline(text@, start as int) == find_newline(text@, j as int),
        decreases n - j,
    {
        proof {
            assert(find_newline(text@, j as int) == find_newline(text@, j + 1));
        }
        j = j + 1;
    }
    if j >= n {
        n
    } else {
        j + 1
    }
}

/// Line starts stay within the text.
proof fn lemma_line_start_bounds(t: Seq<char>, y: int)
    ensures
        0 <= line_start(t, y) <= t.len(),
    decreases (if y <= 0 {
        0int
    } else {
        y
    }),
{
    if y <= 0 {
    } else {
        lemma_line_start_bounds(t, y - 1);
        lemma_find_newline_bounds(t, line_start(t, y - 1));
    }
}

/// `find_newline` stays between its start and the length.
proof fn lemma_find_newline_bounds(t: Seq<char>, from: int)
    requires
        0 <= from <= t.len(),
    ensures
        from <= find_newline(t, from) <= t.len(),
        from <= next_line_start(t, from) <= t.len(),
    decreases t.len() - from,
{
    if from < t.len() && t[from] != '\n' {
        lemma_find_newline_bounds(t, from + 1);
    }
}

/// A newline at `j` bounds what `find_newline` can return.
proof fn lemma_find_newline_hits(t: Seq<char>, from: int, j: int)
    requires
        0 <= from <= j < t.len(),
        t[j] == '\n',
    ensures
        find_newline(t, from) <= j,
    decreases j - from,
{
    if from < j && t[from] != '\n' {
        lemma_find_newline_hits(t, from + 1, j);
    }
}

/// A position's line start never lies past the position.
proof fn lemma_line_start_le_index(t: Seq<char>, i: int)
    requires
        0 <= i <= t.len(),
    ensures
        line_start(t, count_newlines(t, i)) <= i,
        0 <= count_newlines(t, i) <= i,
    decreases i,
{
    if i == 0 {
    } else {
        lemma_line_start_le_index(t, i - 1);
        let y = count_newlines(t, i - 1);
        if t[i - 1] == '\n' {
            lemma_line_start_bounds(t, y);
            lemma_find_newline_hits(t, line_start(t, y), i - 1);
            assert(line_start(t, y + 1) == next_line_start(t, line_start(t, y)));
        }
    }
}

} // verus!
