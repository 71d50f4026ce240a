//! The editor's modal states.

use vstd::prelude::*;

verus! {

/// Which mode the editor is in.
#[derive(Debug, PartialEq, Eq, Structural, Copy, Clone)]
pub enum Mode {
    Normal,
    Insert,
    Command,
    Jump,
    Skim,
}

impl Mode {
    /// The mode's display name.
    pub fn as_str(self) -> (r: &'static str)
        ensures
            match self {
                Mode::Normal => r@ == "Normal"@,
                Mode::Insert => r@ == "Insert"@,
                Mode::Command => r@ == "Command"@,
                Mode::Jump => r@ == "Jump"@,
                Mode::Skim => r@ == "Skim"@,
            },
    {
        match self {
            Mode::Normal => "Normal",
            Mode::Insert => "Insert",
            Mode::Command => "Command",
            Mode::Jump => "Jump",
            Mode::Skim => "Skim",
        }
    }
}

} // verus!
