//! Tests of the editor-state types around the tokenizer: text buffers,
//! the command prompt, modal input, and the fuzzy finder.

use editor_core::buffer::log10;
use editor_core::command::CommandBuffer;
use editor_core::cursor::Cursor;
use editor_core::error::Error;
use editor_core::input::is_valid_key;
use editor_core::input::process_input;
use editor_core::mode::Mode;
use editor_core::msg::Cmd;
use editor_core::msg::DeleteDirection;
use editor_core::msg::Direction;
use editor_core::msg::InputMsg;
use editor_core::msg::JumpType;
use editor_core::msg::Key;
use editor_core::dispatch::Route;
use editor_core::dispatch::route_command;
use editor_core::point::Point;
use editor_core::skim::SkimBuffer;
use editor_core::text_buffer::TextBuffer;

#[test]
fn text_buffer_insert_and_delete() {
    let mut b = TextBuffer::default();
    assert_eq!(b.handle_command(Cmd::InsertChar('h', true)), Ok(true));
    assert_eq!(b.handle_command(Cmd::InsertChar('i', true)), Ok(true));
    assert_eq!(b.as_str(), "hi");
    assert_eq!(b.handle_command(Cmd::MoveCursor(Direction::Left)), Ok(true));
    assert_eq!(b.handle_command(Cmd::InsertChar('e', true)), Ok(true));
    assert_eq!(b.as_str(), "hei");
    assert_eq!(
        b.handle_command(Cmd::DeleteChar(DeleteDirection::Before)),
        Ok(true)
    );
    assert_eq!(b.as_str(), "hi");
}

#[test]
fn text_buffer_delete_at_start_is_noop() {
    let mut b = TextBuffer::default();
    assert_eq!(
        b.handle_command(Cmd::DeleteChar(DeleteDirection::Before)),
        Ok(false)
    );
    assert_eq!(b.as_str(), "");
}

#[test]
fn text_buffer_clear() {
    let mut b = TextBuffer::default();
    b.handle_command(Cmd::InsertChar('x', true)).unwrap();
    b.clear();
    assert_eq!(b.as_str(), "");
}

#[test]
fn command_prompt_quit() {
    let mut c = CommandBuffer::default();
    c.handle_command(Cmd::InsertChar('q', true)).0.unwrap();
    let (res, events) = c.handle_command(Cmd::Submit);
    assert_eq!(res, Ok(true));
    assert_eq!(events, vec![Cmd::ChangeMode(Mode::Normal), Cmd::Quit]);
}

#[test]
fn command_prompt_is_case_insensitive() {
    let mut c = CommandBuffer::default();
    c.handle_command(Cmd::InsertChar('Q', true)).0.unwrap();
    let (res, events) = c.handle_command(Cmd::Submit);
    assert_eq!(res, Ok(true));
    assert_eq!(events, vec![Cmd::ChangeMode(Mode::Normal), Cmd::Quit]);
}

#[test]
fn command_prompt_write_with_path() {
    let mut c = CommandBuffer::default();
    for ch in "w  a.txt".chars() {
        c.handle_command(Cmd::InsertChar(ch, true)).0.unwrap();
    }
    let (res, events) = c.handle_command(Cmd::Submit);
    assert_eq!(res, Ok(true));
    assert_eq!(
        events,
        vec![
            Cmd::ChangeMode(Mode::Normal),
            Cmd::WriteBuffer(Some("a.txt".to_string())),
        ]
    );
}

#[test]
fn command_prompt_write_without_path() {
    let mut c = CommandBuffer::default();
    c.handle_command(Cmd::InsertChar('w', true)).0.unwrap();
    let (res, events) = c.handle_command(Cmd::Submit);
    assert_eq!(res, Ok(true));
    assert_eq!(
        events,
        vec![Cmd::ChangeMode(Mode::Normal), Cmd::WriteBuffer(None)]
    );
}

#[test]
fn command_prompt_edit_needs_argument() {
    let mut c = CommandBuffer::default();
    for ch in "edit".chars() {
        c.handle_command(Cmd::InsertChar(ch, true)).0.unwrap();
    }
    let (res, events) = c.handle_command(Cmd::Submit);
    assert_eq!(res, Err(Error::MissingArg));
    assert_eq!(events, vec![Cmd::ChangeMode(Mode::Normal)]);
}

#[test]
fn command_prompt_edit_loads_file() {
    let mut c = CommandBuffer::default();
    for ch in "edit b.rs".chars() {
        c.handle_command(Cmd::InsertChar(ch, true)).0.unwrap();
    }
    let (res, events) = c.handle_command(Cmd::Submit);
    assert_eq!(res, Ok(true));
    assert_eq!(
        events,
        vec![
            Cmd::ChangeMode(Mode::Normal),
            Cmd::LoadFile("b.rs".to_string()),
        ]
    );
}

#[test]
fn command_prompt_unknown_command() {
    let mut c = CommandBuffer::default();
    for ch in "frobnicate".chars() {
        c.handle_command(Cmd::InsertChar(ch, true)).0.unwrap();
    }
    let (res, events) = c.handle_command(Cmd::Submit);
    assert_eq!(
        res,
        Err(Error::UnknownCommand("frobnicate".to_string()))
    );
    assert_eq!(events, vec![Cmd::ChangeMode(Mode::Normal)]);
}

#[test]
fn error_messages() {
    assert_eq!(Error::MissingArg.message(), "missing an argument");
    assert_eq!(
        Error::NeedFilePath.message(),
        "need a file path to save a new buffer"
    );
    assert_eq!(Error::BuildingSyntax.message(), "failed to parse syntax");
    assert_eq!(
        Error::UnknownSyntax.message(),
        "no syntax for this file extension"
    );
    assert_eq!(
        Error::UnknownCommand("zz".to_string()).message(),
        "unknown command"
    );
}

#[test]
fn mode_names() {
    assert_eq!(Mode::Normal.as_str(), "Normal");
    assert_eq!(Mode::Insert.as_str(), "Insert");
    assert_eq!(Mode::Command.as_str(), "Command");
    assert_eq!(Mode::Jump.as_str(), "Jump");
    assert_eq!(Mode::Skim.as_str(), "Skim");
}

#[test]
fn arrow_keys_move_in_every_mode() {
    for mode in [Mode::Normal, Mode::Insert, Mode::Command, Mode::Jump, Mode::Skim] {
        assert_eq!(
            process_input(InputMsg::KeyPressed(Key::Left), mode),
            vec![Cmd::MoveCursor(Direction::Left)]
        );
        assert_eq!(
            process_input(InputMsg::KeyPressed(Key::Up), mode),
            vec![Cmd::MoveCursor(Direction::Up)]
        );
    }
}

#[test]
fn normal_mode_keys() {
    assert_eq!(
        process_input(InputMsg::CharPressed('i'), Mode::Normal),
        vec![Cmd::ChangeMode(Mode::Insert)]
    );
    assert_eq!(
        process_input(InputMsg::CharPressed('A'), Mode::Normal),
        vec![Cmd::Jump(JumpType::EndOfLine), Cmd::ChangeMode(Mode::Insert)]
    );
    assert_eq!(
        process_input(InputMsg::CharPressed('o'), Mode::Normal),
        vec![
            Cmd::Jump(JumpType::EndOfLine),
            Cmd::InsertChar('\n', false),
            Cmd::MoveCursor(Direction::Down),
            Cmd::MoveCursor(Direction::Left),
            Cmd::MoveCursor(Direction::Right),
            Cmd::ChangeMode(Mode::Insert),
        ]
    );
    assert_eq!(process_input(InputMsg::CharPressed('?'), Mode::Normal), vec![]);
}

#[test]
fn insert_mode_typing() {
    assert_eq!(
        process_input(InputMsg::CharPressed('x'), Mode::Insert),
        vec![Cmd::InsertChar('x', true)]
    );
    assert_eq!(
        process_input(InputMsg::KeyPressed(Key::Return), Mode::Insert),
        vec![Cmd::InsertChar('\n', true)]
    );
    assert_eq!(
        process_input(InputMsg::KeyPressed(Key::Escape), Mode::Insert),
        vec![Cmd::ChangeMode(Mode::Normal)]
    );
    // A carriage return is never typed text.
    assert_eq!(process_input(InputMsg::CharPressed('\r'), Mode::Insert), vec![]);
}

#[test]
fn jump_mode_always_returns_to_normal() {
    assert_eq!(
        process_input(InputMsg::CharPressed('l'), Mode::Jump),
        vec![Cmd::Jump(JumpType::EndOfLine), Cmd::ChangeMode(Mode::Normal)]
    );
    assert_eq!(
        process_input(InputMsg::CharPressed('z'), Mode::Jump),
        vec![Cmd::ChangeMode(Mode::Normal)]
    );
}

#[test]
fn valid_keys() {
    assert!(is_valid_key('a'));
    assert!(is_valid_key('Z'));
    assert!(is_valid_key('7'));
    assert!(is_valid_key(' '));
    assert!(is_valid_key('!'));
    assert!(!is_valid_key('\r'));
}

#[test]
fn log10_digit_counts() {
    assert_eq!(log10(1), 1);
    assert_eq!(log10(9), 1);
    assert_eq!(log10(10), 2);
    assert_eq!(log10(99), 2);
    assert_eq!(log10(100), 3);
    assert_eq!(log10(999999), 6);
}

#[test]
fn point_start() {
    assert!(Point::default().is_start());
    assert!(!Point { x: 1, y: 0 }.is_start());
    assert!(!Point { x: 0, y: 2 }.is_start());
}

#[test]
fn cursor_new_row() {
    let c = Cursor::new();
    assert_eq!(c.row(), 0);
}

#[test]
fn skim_filters_and_loads() {
    let mut s = SkimBuffer::default();
    assert!(s.needs_files());
    s.set_files(vec![
        "src/alpha.rs".to_string(),
        "notes.txt".to_string(),
        "src/beta.rs".to_string(),
    ]);
    for ch in "rs".chars() {
        s.handle_command(Cmd::InsertChar(ch, true)).0.unwrap();
    }
    // Filtered entries are listed in reverse file order; the top entry
    // (selection 0) is the last matching file.
    let (_, events) = s.handle_command(Cmd::Submit);
    assert!(events.contains(&Cmd::ChangeMode(Mode::Normal)));
    assert!(events.contains(&Cmd::LoadFile("src/beta.rs".to_string())));
}

#[test]
fn skim_query_filters_out_nonmatches() {
    let mut s = SkimBuffer::default();
    s.set_files(vec!["alpha".to_string(), "beta".to_string()]);
    for ch in "alp".chars() {
        s.handle_command(Cmd::InsertChar(ch, true)).0.unwrap();
    }
    let (_, events) = s.handle_command(Cmd::Submit);
    assert!(events.contains(&Cmd::LoadFile("alpha".to_string())));
    assert!(!events.contains(&Cmd::LoadFile("beta".to_string())));
}

#[test]
fn skim_selection_moves_and_wraps() {
    let mut s = SkimBuffer::default();
    s.set_files(vec!["aa".to_string(), "ab".to_string()]);
    s.handle_command(Cmd::InsertChar('a', true)).0.unwrap();
    // Two entries; selection starts at 0, up moves it, and past the end
    // it wraps back to the top.
    s.handle_command(Cmd::MoveCursor(Direction::Up)).0.unwrap();
    let (_, events) = s.handle_command(Cmd::Submit);
    assert!(events.iter().any(|e| matches!(e, Cmd::LoadFile(_))));
}

#[test]
fn dispatch_routes_by_mode() {
    assert!(matches!(
        route_command(Mode::Normal, Cmd::ChangeMode(Mode::Insert)),
        Route::SetMode(Mode::Insert)
    ));
    assert!(matches!(
        route_command(Mode::Skim, Cmd::ChangeMode(Mode::Normal)),
        Route::SetMode(Mode::Normal)
    ));
    match route_command(Mode::Normal, Cmd::LoadFile("f.rs".to_string())) {
        Route::LoadFile(f) => assert_eq!(f, "f.rs"),
        r => panic!("unexpected route {:?}", r),
    }
    assert!(matches!(
        route_command(Mode::Skim, Cmd::Submit),
        Route::ToSkim(Cmd::Submit)
    ));
    assert!(matches!(
        route_command(Mode::Command, Cmd::InsertChar('x', true)),
        Route::ToPrompt(Cmd::InsertChar('x', true))
    ));
    assert!(matches!(
        route_command(Mode::Normal, Cmd::Submit),
        Route::Ignore
    ));
    assert!(matches!(
        route_command(Mode::Insert, Cmd::InsertChar('x', true)),
        Route::ToBuffer(Cmd::InsertChar('x', true))
    ));
    assert!(matches!(route_command(Mode::Normal, Cmd::Quit), Route::Quit));
}

#[test]
fn point_index_round_trip() {
    let text: Vec<char> = "ab\ncde\n\nf".chars().collect();
    let p = Point { x: 1, y: 1 };
    assert_eq!(p.index(&text), 4);
    assert_eq!(p.get_char(&text), 'd');
    let q = Point::from_index(4, &text);
    assert_eq!(q, p);
    assert_eq!(Point::from_index(0, &text), Point { x: 0, y: 0 });
    assert_eq!(Point::from_index(7, &text), Point { x: 0, y: 2 });
}

#[test]
fn point_step_crosses_lines() {
    let text: Vec<char> = "ab\ncd".chars().collect();
    let mut p = Point { x: 2, y: 0 };
    // Right from the newline position moves to the next line's start.
    p.step(Direction::Right, &text);
    assert_eq!(p, Point { x: 0, y: 1 });
    p.step(Direction::Left, &text);
    assert_eq!(p, Point { x: 2, y: 0 });
    p.step(Direction::Down, &text);
    assert_eq!(p.y, 1);
    p.step(Direction::Up, &text);
    assert_eq!(p.y, 0);
    // At the top, up stays put.
    p.step(Direction::Up, &text);
    assert_eq!(p.y, 0);
}

#[test]
fn point_prevent_runoff_clamps_column() {
    let text: Vec<char> = "abcd\nx\n".chars().collect();
    let mut p = Point { x: 9, y: 1 };
    p.prevent_runoff(&text);
    // Line 1 is "x\n": two characters, so the last lands on index 1.
    assert_eq!(p, Point { x: 1, y: 1 });
}

#[test]
fn point_jumps() {
    let text: Vec<char> = "  ab\ncd".chars().collect();
    let mut p = Point { x: 0, y: 0 };
    p.jump(JumpType::EndOfLine, &text);
    // Line 0 is "  ab\n", five chars; its end (before the newline) is 4.
    assert_eq!(p, Point { x: 4, y: 0 });
    p.jump(JumpType::StartOfLine, &text);
    assert_eq!(p, Point { x: 2, y: 0 });
    p.jump(JumpType::EndOfFile, &text);
    assert_eq!(p, Point { x: 0, y: 1 });
    p.jump(JumpType::StartOfFile, &text);
    assert_eq!(p, Point { x: 0, y: 0 });
}

#[test]
fn cursor_remembers_column_across_short_lines() {
    let text: Vec<char> = "abcdef\nx\nabcdef".chars().collect();
    let mut c = Cursor::new();
    for _ in 0..4 {
        c.step(Direction::Right, &text);
    }
    assert_eq!(c.index(&text), 4);
    // Down onto the one-character line clamps the column...
    c.step(Direction::Down, &text);
    assert_eq!(c.row(), 1);
    assert_eq!(c.index(&text), 8);
    // ...and down again restores the remembered column.
    c.step(Direction::Down, &text);
    assert_eq!(c.row(), 2);
    assert_eq!(c.index(&text), 13);
}
