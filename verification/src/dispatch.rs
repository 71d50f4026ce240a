//! Command dispatch: deciding, from the current mode and a command, which
//! part of the editor handles it. The surrounding application performs
//! the chosen route (it owns the buffers and the event loop); the
//! decision itself is total and pure.

use vstd::prelude::*;
use crate::mode::Mode;
use crate::msg::Cmd;

verus! {

/// Where a command goes.
#[derive(Debug)]
pub enum Route {
    /// Status text is set by the application shell directly.
    SetStatus,
    /// Switch modes; entering skim refreshes its file list, entering the
    /// prompt clears it.
    SetMode(Mode),
    /// Stop the application.
    Quit,
    /// Load this file into a new buffer.
    LoadFile(String),
    /// Write the current buffer, to the given path if any.
    WriteBuffer(Option<String>),
    /// The fuzzy finder handles it.
    ToSkim(Cmd),
    /// The command prompt handles it.
    ToPrompt(Cmd),
    /// The current text buffer handles it.
    ToBuffer(Cmd),
    /// Nothing cares (a submit outside prompt and finder).
    Ignore,
}

/// Routes one command under the current mode: mode changes, loads, writes
/// and quit are global; in skim and command mode everything else goes to
/// the finder or the prompt; remaining movement and editing commands go
/// to the buffer.
pub fn route_command(mode: Mode, cmd: Cmd) -> (r: Route)
    ensures
        match cmd {
            Cmd::SetStatusText(_) => r is SetStatus,
            Cmd::ChangeMode(m) => r == Route::SetMode(m),
            Cmd::Quit => r is Quit,
            Cmd::LoadFile(f) => r matches Route::LoadFile(g) && g@ == f@,
            Cmd::WriteBuffer(p) => r matches Route::WriteBuffer(q) && (match (p, q) {
                (Some(a), Some(b)) => a@ == b@,
                (None, None) => true,
                _ => false,
            }),
            _ => match mode {
                Mode::Skim => r matches Route::ToSkim(c) && c == cmd,
                Mode::Command => r matches Route::ToPrompt(c) && c == cmd,
                _ => match cmd {
                    Cmd::Submit => r is Ignore,
                    _ => r matches Route::ToBuffer(c) && c == cmd,
                },
            },
        },
{
    match cmd {
        Cmd::SetStatusText(_) => Route::SetStatus,
        Cmd::ChangeMode(m) => Route::SetMode(m),
        Cmd::Quit => Route::Quit,
        Cmd::LoadFile(f) => Route::LoadFile(f),
        Cmd::WriteBuffer(p) => Route::WriteBuffer(p),
        cmd => {
            match mode {
                Mode::Skim => Route::ToSkim(cmd),
                Mode::Command => Route::ToPrompt(cmd),
                _ => {
                    match cmd {
                        Cmd::Submit => Route::Ignore,
                        cmd => Route::ToBuffer(cmd),
                    }
                },
            }
        },
    }
}

} // verus!
