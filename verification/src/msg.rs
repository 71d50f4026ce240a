//! The messages the editor's parts exchange: raw input events and the
//! commands they are translated into.

use vstd::prelude::*;
use crate::mode::Mode;

verus! {

/// The non-character keys the editor reacts to.
#[derive(Debug, PartialEq, Eq, Structural, Copy, Clone)]
pub enum Key {
    Left,
    Right,
    Up,
    Down,
    Back,
    Return,
    Escape,
    Other,
}

/// One raw input event.
#[derive(Debug, PartialEq, Eq, Structural, Copy, Clone)]
pub enum InputMsg {
    CharPressed(char),
    KeyPressed(Key),
}

#[derive(Debug, PartialEq, Eq, Structural, Copy, Clone)]
pub enum Direction {
    Left,
    Right,
    Up,
    Down,
}

#[derive(Debug, PartialEq, Eq, Structural, Copy, Clone)]
pub enum DeleteDirection {
    Before,
    After,
}

#[derive(Debug, PartialEq, Eq, Structural, Copy, Clone)]
pub enum JumpType {
    EndOfLine,
    StartOfLine,
    StartOfFile,
    EndOfFile,
}

/// One editor command. File paths travel as plain strings.
#[derive(Debug)]
pub enum Cmd {
    MoveCursor(Direction),
    Quit,
    ChangeMode(Mode),
    InsertChar(char, bool),
    SetStatusText(String),
    Submit,
    DeleteChar(DeleteDirection),
    Jump(JumpType),
    WriteBuffer(Option<String>),
    LoadFile(String),
}

impl PartialEq for Cmd {
    fn eq(&self, other: &Cmd) -> (r: bool) {
        match (self, other) {
            (Cmd::MoveCursor(a), Cmd::MoveCursor(b)) => *a == *b,
            (Cmd::Quit, Cmd::Quit) => true,
            (Cmd::ChangeMode(a), Cmd::ChangeMode(b)) => *a == *b,
            (Cmd::InsertChar(a, s1), Cmd::InsertChar(b, s2)) => *a == *b && *s1 == *s2,
            (Cmd::SetStatusText(a), Cmd::SetStatusText(b)) => *a == *b,
            (Cmd::Submit, Cmd::Submit) => true,
            (Cmd::DeleteChar(a), Cmd::DeleteChar(b)) => *a == *b,
            (Cmd::Jump(a), Cmd::Jump(b)) => *a == *b,
            (Cmd::WriteBuffer(a), Cmd::WriteBuffer(b)) => match (a, b) {
                (Some(x), Some(y)) => *x == *y,
                (None, None) => true,
                _ => false,
            },
            (Cmd::LoadFile(a), Cmd::LoadFile(b)) => *a == *b,
            _ => false,
        }
    }
}

impl vstd::std_specs::cmp::PartialEqSpecImpl for Cmd {
    open spec fn obeys_eq_spec() -> bool {
        true
    }

    open spec fn eq_spec(&self, other: &Cmd) -> bool {
        match (self, other) {
            (Cmd::MoveCursor(a), Cmd::MoveCursor(b)) => a == b,
            (Cmd::Quit, Cmd::Quit) => true,
            (Cmd::ChangeMode(a), Cmd::ChangeMode(b)) => a == b,
            (Cmd::InsertChar(a, s1), Cmd::InsertChar(b, s2)) => a == b && s1 == s2,
            (Cmd::SetStatusText(a), Cmd::SetStatusText(b)) => a@ == b@,
            (Cmd::Submit, Cmd::Submit) => true,
            (Cmd::DeleteChar(a), Cmd::DeleteChar(b)) => a == b,
            (Cmd::Jump(a), Cmd::Jump(b)) => a == b,
            (Cmd::WriteBuffer(a), Cmd::WriteBuffer(b)) => match (a, b) {
                (Some(x), Some(y)) => x@ == y@,
                (None, None) => true,
                _ => false,
            },
            (Cmd::LoadFile(a), Cmd::LoadFile(b)) => a@ == b@,
            _ => false,
        }
    }
}

/// One message: raw input, or an already-translated command.
#[derive(Debug)]
pub enum Msg {
    Input(InputMsg),
    Cmd(Cmd),
}

} // verus!
