//! Modal input handling: turning one raw input event into the commands it
//! means under the current mode.

use vstd::prelude::*;
use crate::mode::Mode;
use crate::msg::Cmd;
use crate::msg::DeleteDirection;
use crate::msg::Direction;
use crate::msg::InputMsg;
use crate::msg::JumpType;
use crate::msg::Key;

verus! {

/// Whether the character counts as alphanumeric; a function of the
/// character alone.
pub uninterp spec fn char_alphanumeric(c: char) -> bool;

/// Relies on `char::is_alphanumeric`: a pure classification, on which the
/// ASCII letters and digits are alphanumeric.
#[verifier::external_body]
pub fn is_alphanumeric_char(c: char) -> (r: bool)
    ensures
        r == char_alphanumeric(c),
        ('a' <= c <= 'z' || 'A' <= c <= 'Z' || '0' <= c <= '9') ==> r,
{
    c.is_alphanumeric()
}

/// Whether the character counts as whitespace; a function of the
/// character alone.
pub uninterp spec fn char_whitespace(c: char) -> bool;

/// Relies on `char::is_whitespace`: a pure classification, on which
/// space, tab, newline and carriage return are whitespace.
#[verifier::external_body]
pub fn is_whitespace_char(c: char) -> (r: bool)
    ensures
        r == char_whitespace(c),
        (c == ' ' || c == '\t' || c == '\n' || c == '\r') ==> r,
{
    c.is_whitespace()
}

/// ASCII punctuation: `!`..`/`, `:`..`@`, `[`..`` ` ``, `{`..`~`.
pub open spec fn ascii_punctuation(c: char) -> bool {
    ('!' <= c <= '/') || (':' <= c <= '@') || ('[' <= c <= '`') || ('{' <= c <= '~')
}

pub fn is_ascii_punct(c: char) -> (r: bool)
    ensures
        r == ascii_punctuation(c),
{
    ('!' <= c && c <= '/') || (':' <= c && c <= '@') || ('[' <= c && c <= '`') || ('{' <= c && c
        <= '~')
}

/// A character the editor accepts as typed input.
pub open spec fn valid_key(c: char) -> bool {
    c != '\r' && (char_alphanumeric(c) || char_whitespace(c) || ascii_punctuation(c))
}

pub fn is_valid_key(c: char) -> (r: bool)
    ensures
        r == valid_key(c),
{
    c != '\r' && (is_alphanumeric_char(c) || is_whitespace_char(c) || is_ascii_punct(c))
}

/// The commands one input event produces under a mode — the whole modal
/// key map.
pub open spec fn process_spec(mode: Mode, msg: InputMsg) -> Seq<Cmd> {
    match msg {
        InputMsg::KeyPressed(Key::Left) => seq![Cmd::MoveCursor(Direction::Left)],
        InputMsg::KeyPressed(Key::Right) => seq![Cmd::MoveCursor(Direction::Right)],
        InputMsg::KeyPressed(Key::Down) => seq![Cmd::MoveCursor(Direction::Down)],
        InputMsg::KeyPressed(Key::Up) => seq![Cmd::MoveCursor(Direction::Up)],
        _ => match mode {
            Mode::Insert => process_insert(msg),
            Mode::Command => process_prompt(msg),
            Mode::Jump => process_jump(msg),
            Mode::Skim => process_skim(msg),
            Mode::Normal => process_normal(msg),
        },
    }
}

pub open spec fn process_insert(msg: InputMsg) -> Seq<Cmd> {
    match msg {
        InputMsg::CharPressed(c) => if valid_key(c) {
            seq![Cmd::InsertChar(c, true)]
        } else {
            Seq::empty()
        },
        InputMsg::KeyPressed(Key::Back) => seq![Cmd::DeleteChar(DeleteDirection::Before)],
        InputMsg::KeyPressed(Key::Return) => seq![Cmd::InsertChar('\n', true)],
        InputMsg::KeyPressed(Key::Escape) => seq![Cmd::ChangeMode(Mode::Normal)],
        _ => Seq::empty(),
    }
}

pub open spec fn process_prompt(msg: InputMsg) -> Seq<Cmd> {
    match msg {
        InputMsg::CharPressed(c) => if valid_key(c) {
            seq![Cmd::InsertChar(c, true)]
        } else {
            Seq::empty()
        },
        InputMsg::KeyPressed(Key::Back) => seq![Cmd::DeleteChar(DeleteDirection::Before)],
        InputMsg::KeyPressed(Key::Return) => seq![Cmd::Submit],
        InputMsg::KeyPressed(Key::Escape) => seq![Cmd::ChangeMode(Mode::Normal)],
        _ => Seq::empty(),
    }
}

pub open spec fn process_jump(msg: InputMsg) -> Seq<Cmd> {
    match msg {
        InputMsg::KeyPressed(k) => if k == Key::Escape {
            seq![Cmd::ChangeMode(Mode::Normal)]
        } else {
            Seq::empty()
        },
        InputMsg::CharPressed(c) => (if c == 'l' {
            seq![Cmd::Jump(JumpType::EndOfLine)]
        } else if c == 'h' {
            seq![Cmd::Jump(JumpType::StartOfLine)]
        } else if c == 'k' {
            seq![Cmd::Jump(JumpType::StartOfFile)]
        } else if c == 'j' {
            seq![Cmd::Jump(JumpType::EndOfFile)]
        } else {
            Seq::empty()
        }) + seq![Cmd::ChangeMode(Mode::Normal)],
    }
}

pub open spec fn process_skim(msg: InputMsg) -> Seq<Cmd> {
    match msg {
        InputMsg::CharPressed(c) => if c == '\n' {
            seq![Cmd::MoveCursor(Direction::Down)]
        } else if c == '\u{b}' {
            seq![Cmd::MoveCursor(Direction::Up)]
        } else if valid_key(c) {
            seq![Cmd::InsertChar(c, true)]
        } else {
            Seq::empty()
        },
        InputMsg::KeyPressed(Key::Back) => seq![Cmd::DeleteChar(DeleteDirection::Before)],
        InputMsg::KeyPressed(Key::Return) => seq![Cmd::Submit],
        InputMsg::KeyPressed(Key::Escape) => seq![Cmd::ChangeMode(Mode::Normal)],
        _ => Seq::empty(),
    }
}

pub open spec fn process_normal(msg: InputMsg) -> Seq<Cmd> {
    match msg {
        InputMsg::CharPressed(c) => if c == '\u{10}' {
            seq![Cmd::ChangeMode(Mode::Skim)]
        } else if c == 'h' {
            seq![Cmd::MoveCursor(Direction::Left)]
        } else if c == 'l' {
            seq![Cmd::MoveCursor(Direction::Right)]
        } else if c == 'k' {
            seq![Cmd::MoveCursor(Direction::Up)]
        } else if c == 'j' {
            seq![Cmd::MoveCursor(Direction::Down)]
        } else if c == 'i' {
            seq![Cmd::ChangeMode(Mode::Insert)]
        } else if c == 'I' {
            seq![Cmd::Jump(JumpType::StartOfLine), Cmd::ChangeMode(Mode::Insert)]
        } else if c == ':' {
            seq![Cmd::ChangeMode(Mode::Command)]
        } else if c == 'd' {
            seq![Cmd::DeleteChar(DeleteDirection::After)]
        } else if c == 'a' {
            seq![Cmd::MoveCursor(Direction::Right), Cmd::ChangeMode(Mode::Insert)]
        } else if c == 'A' {
            seq![Cmd::Jump(JumpType::EndOfLine), Cmd::ChangeMode(Mode::Insert)]
        } else if c == 'o' || c == 'O' {
            (if c == 'O' {
                seq![Cmd::MoveCursor(Direction::Up)]
            } else {
                Seq::empty()
            }) + seq![
                Cmd::Jump(JumpType::EndOfLine),
                Cmd::InsertChar('\n', false),
                Cmd::MoveCursor(Direction::Down),
                Cmd::MoveCursor(Direction::Left),
                Cmd::MoveCursor(Direction::Right),
                Cmd::ChangeMode(Mode::Insert),
            ]
        } else if c == 'g' {
            seq![Cmd::ChangeMode(Mode::Jump)]
        } else if c == '>' {
            seq![Cmd::Jump(JumpType::StartOfLine), Cmd::InsertChar('\t', true)]
        } else {
            Seq::empty()
        },
        _ => Seq::empty(),
    }
}

/// Translates one input event under the current mode into the commands it
/// stands for, in order.
pub fn process_input(input_msg: InputMsg, mode: Mode) -> (r: Vec<Cmd>)
    ensures
        r@ == process_spec(mode, input_msg),
{
    let mut out: Vec<Cmd> = Vec::new();
    match input_msg {
        InputMsg::KeyPressed(Key::Left) => {
            out.push(Cmd::MoveCursor(Direction::Left));
        },
        InputMsg::KeyPressed(Key::Right) => {
            out.push(Cmd::MoveCursor(Direction::Right));
        },
        InputMsg::KeyPressed(Key::Down) => {
            out.push(Cmd::MoveCursor(Direction::Down));
        },
        InputMsg::KeyPressed(Key::Up) => {
            out.push(Cmd::MoveCursor(Direction::Up));
        },
        _ => {
            match mode {
                Mode::Insert | Mode::Command => {
                    match input_msg {
                        InputMsg::CharPressed(c) => {
                            if is_valid_key(c) {
                                out.push(Cmd::InsertChar(c, true));
                            }
                        },
                        InputMsg::KeyPressed(Key::Back) => {
                            out.push(Cmd::DeleteChar(DeleteDirection::Before));
                        },
                        InputMsg::KeyPressed(Key::Return) => {
                            if mode == Mode::Insert {
                                out.push(Cmd::InsertChar('\n', true));
                            } else {
                                out.push(Cmd::Submit);
                            }
                        },
                        InputMsg::KeyPressed(Key::Escape) => {
                            out.push(Cmd::ChangeMode(Mode::Normal));
                        },
                        _ => {},
                    }
                },
                Mode::Jump => {
                    match input_msg {
                        InputMsg::KeyPressed(k) => {
                            if k == Key::Escape {
                                out.push(Cmd::ChangeMode(Mode::Normal));
                            }
                        },
                        InputMsg::CharPressed(c) => {
                            if c == 'l' {
                                out.push(Cmd::Jump(JumpType::EndOfLine));
                            } else if c == 'h' {
                                out.push(Cmd::Jump(JumpType::StartOfLine));
                            } else if c == 'k' {
                                out.push(Cmd::Jump(JumpType::StartOfFile));
                            } else if c == 'j' {
                                out.push(Cmd::Jump(JumpType::EndOfFile));
                            }
                            out.push(Cmd::ChangeMode(Mode::Normal));
                        },
                    }
                },
                Mode::Skim => {
                    match input_msg {
                        InputMsg::CharPressed(c) => {
                            if c == '\n' {
                                out.push(Cmd::MoveCursor(Direction::Down));
                            } else if c == '\u{b}' {
                                out.push(Cmd::MoveCursor(Direction::Up));
                            } else if is_valid_key(c) {
                                out.push(Cmd::InsertChar(c, true));
                            }
                        },
                        InputMsg::KeyPressed(Key::Back) => {
                            out.push(Cmd::DeleteChar(DeleteDirection::Before));
                        },
                        InputMsg::KeyPressed(Key::Return) => {
                            out.push(Cmd::Submit);
                        },
                        InputMsg::KeyPressed(Key::Escape) => {
                            out.push(Cmd::ChangeMode(Mode::Normal));
                        },
                        _ => {},
                    }
                },
                Mode::Normal => {
                    match input_msg {
                        InputMsg::CharPressed(c) => {
                            if c == '\u{10}' {
                                out.push(Cmd::ChangeMode(Mode::Skim));
                            } else if c == 'h' {
                                out.push(Cmd::MoveCursor(Direction::Left));
                            } else if c == 'l' {
                                out.push(Cmd::MoveCursor(Direction::Right));
                            } else if c == 'k' {
                                out.push(Cmd::MoveCursor(Direction::Up));
                            } else if c == 'j' {
                                out.push(Cmd::MoveCursor(Direction::Down));
                            } else if c == 'i' {
                                out.push(Cmd::ChangeMode(Mode::Insert));
                            } else if c == 'I' {
                                out.push(Cmd::Jump(JumpType::StartOfLine));
                                out.push(Cmd::ChangeMode(Mode::Insert));
                            } else if c == ':' {
                                out.push(Cmd::ChangeMode(Mode::Command));
                            } else if c == 'd' {
                                out.push(Cmd::DeleteChar(DeleteDirection::After));
                            } else if c == 'a' {
                                out.push(Cmd::MoveCursor(Direction::Right));
                                out.push(Cmd::ChangeMode(Mode::Insert));
                            } else if c == 'A' {
                                out.push(Cmd::Jump(JumpType::EndOfLine));
                                out.push(Cmd::ChangeMode(Mode::Insert));
                            } else if c == 'o' || c == 'O' {
                                if c == 'O' {
                                    out.push(Cmd::MoveCursor(Direction::Up));
                                }
                                out.push(Cmd::Jump(JumpType::EndOfLine));
                                out.push(Cmd::InsertChar('\n', false));
                                out.push(Cmd::MoveCursor(Direction::Down));
                                out.push(Cmd::MoveCursor(Direction::Left));
                                out.push(Cmd::MoveCursor(Direction::Right));
                                out.push(Cmd::ChangeMode(Mode::Insert));
                            } else if c == 'g' {
                                out.push(Cmd::ChangeMode(Mode::Jump));
                            } else if c == '>' {
                                out.push(Cmd::Jump(JumpType::StartOfLine));
                                out.push(Cmd::InsertChar('\t', true));
                            }
                        },
                        _ => {},
                    }
                },
            }
        },
    }
    proof {
        assert(out@ =~= process_spec(mode, input_msg));
    }
    out
}

} // verus!
