//! The buffer cursor: a position plus the column it tries to keep when
//! moving between lines.

use vstd::prelude::*;
use crate::msg::Direction;
use crate::msg::JumpType;
use crate::point::Point;
use crate::point::char_to_line;
use crate::point::fits;
use crate::point::leading_blanks;
use crate::point::len_lines;
use crate::point::line_len_chars;
use crate::point::line_start;

verus! {

pub struct Cursor {
    position: Point,
    saved_x: u16,
}

impl Cursor {
    pub closed spec fn point(self) -> Point {
        self.position
    }

    pub closed spec fn saved_col(self) -> u16 {
        self.saved_x
    }

    pub fn new() -> (r: Cursor)
        ensures
            r.point() == (Point { x: 0, y: 0 }),
            r.saved_col() == 0,
    {
        Cursor { position: Point::default(), saved_x: 0 }
    }

    /// The row the cursor is on.
    pub fn row(&self) -> (r: usize)
        ensures
            r == self.point().y as int,
    {
        self.position.y as usize
    }

    /// The cursor's character index in the text.
    pub fn index(&self, text: &Vec<char>) -> (r: usize)
        requires
            fits(text@),
        ensures
            r as int == line_start(text@, self.point().y as int) + self.point().x as int,
    {
        self.position.index(text)
    }

    /// One cursor step. Horizontal moves remember the new column;
    /// vertical moves try to restore the remembered column, then clamp
    /// it onto the new line.
    pub fn step(&mut self, direction: Direction, text: &Vec<char>)
        requires
            fits(text@),
            old(self).point().y as int + 1 <= u16::MAX as int,
            line_start(text@, old(self).point().y as int) + old(self).point().x as int
                <= text@.len(),
        ensures
            ({
                let t = text@;
                let p0 = old(self).point();
                let idx = line_start(t, p0.y as int) + p0.x as int;
                match direction {
                    Direction::Left => {
                        &&& (idx > 0 ==> final(self).point().y as int == char_to_line(t, idx - 1)
                            && final(self).point().x as int == idx - 1 - line_start(
                            t,
                            char_to_line(t, idx - 1),
                        ))
                        &&& (idx == 0 ==> final(self).point() == p0)
                        &&& final(self).saved_col() == final(self).point().x
                    },
                    Direction::Right => {
                        &&& (idx < t.len() ==> final(self).point().y as int == char_to_line(
                            t,
                            idx + 1,
                        ) && final(self).point().x as int == idx + 1 - line_start(
                            t,
                            char_to_line(t, idx + 1),
                        ))
                        &&& (idx >= t.len() ==> final(self).point() == p0)
                        &&& final(self).saved_col() == final(self).point().x
                    },
                    _ => {
                        let y1 = if direction is Down {
                            if p0.y as int + 1 < len_lines(t) {
                                p0.y as int + 1
                            } else {
                                p0.y as int
                            }
                        } else {
                            if p0.y > 0 {
                                p0.y as int - 1
                            } else {
                                p0.y as int
                            }
                        };
                        let xm = if old(self).saved_col() > p0.x {
                            old(self).saved_col() as int
                        } else {
                            p0.x as int
                        };
                        let ll = line_len_chars(t, y1);
                        &&& final(self).point().y as int == y1
                        &&& final(self).point().x as int == (if ll <= xm {
                            if ll == 0 {
                                0int
                            } else {
                                ll - 1
                            }
                        } else {
                            xm
                        })
                        &&& final(self).saved_col() == old(self).saved_col()
                    },
                }
            }),
    {
        self.position.step(direction, text);
        match direction {
            Direction::Left | Direction::Right => {
                self.saved_x = self.position.x;
            },
            Direction::Up | Direction::Down => {
                if self.saved_x > self.position.x {
                    self.position.x = self.saved_x;
                }
                self.position.prevent_runoff(text);
            },
        }
    }

    /// A jump, which also resets the remembered column.
    pub fn jump(&mut self, jump_type: JumpType, text: &Vec<char>)
        requires
            fits(text@),
        ensures
            ({
                let t = text@;
                let y0 = old(self).point().y as int;
                match jump_type {
                    JumpType::EndOfLine => final(self).point().y as int == y0 && final(self).point().x as int == (if y0 + 1 < len_lines(t) && line_len_chars(t, y0) >= 1 {
                        line_len_chars(t, y0) - 1
                    } else {
                        line_len_chars(t, y0)
                    }),
                    JumpType::StartOfLine => final(self).point().y as int == y0 && final(self).point().x as int == leading_blanks(
                        t,
                        line_start(t, y0),
                        line_start(t, y0) + line_len_chars(t, y0),
                    ),
                    JumpType::StartOfFile => final(self).point().x == 0 && final(self).point().y
                        == 0,
                    JumpType::EndOfFile => final(self).point().x == 0 && final(self).point().y as int == len_lines(t) - 1,
                }
            }),
            final(self).saved_col() == final(self).point().x,
    {
        self.position.jump(jump_type, text);
        self.saved_x = self.position.x;
    }
}

} // verus!
