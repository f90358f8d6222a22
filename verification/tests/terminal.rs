use be_core::input::{Action, Direction, Edit, Mode, Move};
use be_core::terminal::grid::Grid;
use be_core::terminal::style::{BuiltinColor, Charset, Position, Size, Style, StyleFlags, TerminalColor};
use be_core::terminal::TerminalState;

fn term(rows: usize, cols: usize) -> TerminalState {
    TerminalState::new(Size { rows, cols })
}

fn print(t: &mut TerminalState, s: &str) {
    for c in s.chars() {
        assert!(t.can_print());
        t.print(c);
    }
}

fn exec(t: &mut TerminalState, b: u8) {
    assert!(t.can_execute(b));
    t.execute(b);
}

fn csi(t: &mut TerminalState, params: &[&[u16]], inter: &[u8], action: u8) {
    let params: Vec<Vec<u16>> = params.iter().map(|p| p.to_vec()).collect();
    assert!(t.can_csi(&params, inter, action));
    t.csi_dispatch(&params, inter, false, action);
}

fn esc(t: &mut TerminalState, inter: &[u8], byte: u8) {
    assert!(t.can_esc(inter, byte));
    t.esc_dispatch(inter, false, byte);
}

fn line(t: &TerminalState, row: usize) -> String {
    t.line(row).unwrap().to_string()
}

#[test]
fn prints_at_the_cursor() {
    let mut t = term(3, 5);
    print(&mut t, "hi");
    assert_eq!(line(&t, 0), "hi   ");
    assert_eq!(t.cursor.pos, Position { row: 0, col: 2 });
    exec(&mut t, b'\r');
    exec(&mut t, b'\n');
    print(&mut t, "yo");
    assert_eq!(line(&t, 1), "yo   ");
    exec(&mut t, 0x08);
    assert_eq!(t.cursor.pos, Position { row: 1, col: 1 });
}

#[test]
fn cursor_position_is_one_based_and_clamped() {
    let mut t = term(3, 5);
    csi(&mut t, &[&[2], &[3]], b"", b'H');
    assert_eq!(t.cursor.pos, Position { row: 1, col: 2 });
    csi(&mut t, &[&[9], &[9]], b"", b'H');
    assert_eq!(t.cursor.pos, Position { row: 2, col: 4 });
    csi(&mut t, &[], b"", b'H');
    assert_eq!(t.cursor.pos, Position { row: 0, col: 0 });
    csi(&mut t, &[&[3]], b"", b'B');
    assert_eq!(t.cursor.pos.row, 2);
    csi(&mut t, &[&[0]], b"", b'A');
    assert_eq!(t.cursor.pos.row, 1);
    csi(&mut t, &[&[4]], b"", b'G');
    assert_eq!(t.cursor.pos.col, 3);
    csi(&mut t, &[&[7]], b"", b'D');
    assert_eq!(t.cursor.pos.col, 0);
}

#[test]
fn device_status_reports() {
    let mut t = term(4, 10);
    csi(&mut t, &[&[2], &[7]], b"", b'H');
    csi(&mut t, &[&[6]], b"", b'n');
    assert!(t.has_pending_writes());
    assert_eq!(t.take_pending_writes(), b"\x1b[2;7R".to_vec());
    assert!(!t.has_pending_writes());
    csi(&mut t, &[&[5]], b"", b'n');
    assert_eq!(t.take_pending_writes(), b"\x1b[0n".to_vec());
    csi(&mut t, &[], b"", b'c');
    esc(&mut t, b"", b'Z');
    assert_eq!(t.take_pending_writes(), b"\x1b[?6c\x1b[?6c".to_vec());
    csi(&mut t, &[], b">", b'c');
    assert_eq!(t.take_pending_writes(), b"\x1b[>0;1;1c".to_vec());
}

#[test]
fn erase_in_line_and_display() {
    let mut t = term(2, 4);
    print(&mut t, "abcd");
    csi(&mut t, &[&[1], &[3]], b"", b'H');
    csi(&mut t, &[], b"", b'K');
    assert_eq!(line(&t, 0), "ab  ");
    print(&mut t, "xy");
    csi(&mut t, &[&[1], &[2]], b"", b'H');
    csi(&mut t, &[&[1]], b"", b'K');
    assert_eq!(line(&t, 0), "  xy");
    csi(&mut t, &[&[2]], b"", b'J');
    assert_eq!(line(&t, 0), "    ");
}

#[test]
fn graphics_modes_style_the_cells() {
    let mut t = term(1, 4);
    csi(&mut t, &[&[1], &[31]], b"", b'm');
    assert!(t.cursor.style.flags.contains(StyleFlags::bold()));
    assert_eq!(
        t.cursor.style.foreground,
        Some(TerminalColor::Builtin { color: BuiltinColor::Red, bright: false })
    );
    print(&mut t, "x");
    csi(&mut t, &[&[0]], b"", b'm');
    assert_eq!(t.cursor.style, Style::default());
    print(&mut t, "y");
    let styles = t.line(0).unwrap().styles();
    assert_eq!(styles.len(), 2);
    assert_eq!(styles[0], (Style::default(), 0));
    assert_eq!(styles[1].1, 1);
}

#[test]
fn line_feed_scrolls_at_the_bottom() {
    let mut t = term(2, 3);
    print(&mut t, "one");
    exec(&mut t, b'\r');
    exec(&mut t, b'\n');
    print(&mut t, "two");
    exec(&mut t, b'\r');
    exec(&mut t, b'\n');
    assert_eq!(line(&t, 0), "two");
    assert_eq!(line(&t, 1), "   ");
    assert_eq!(t.cursor.pos.row, 1);
}

#[test]
fn alternate_screen_round_trip() {
    let mut t = term(2, 3);
    print(&mut t, "ab");
    csi(&mut t, &[&[1049]], b"?", b'h');
    assert_eq!(line(&t, 0), "   ");
    print(&mut t, "zz");
    csi(&mut t, &[&[1049]], b"?", b'l');
    assert_eq!(line(&t, 0), "ab ");
    assert_eq!(t.cursor.pos, Position { row: 0, col: 2 });
}

#[test]
fn window_title() {
    let mut t = term(1, 1);
    t.osc_dispatch(&[b"2", b" my", b"title "], true);
    assert_eq!(t.title, "my;title");
    t.osc_dispatch(&[b"0", b"plain"], false);
    assert_eq!(t.title, "plain");
    t.osc_dispatch(&[b"4", b"ignored"], false);
    assert_eq!(t.title, "plain");
}

#[test]
fn line_drawing_charset() {
    let mut t = term(1, 3);
    esc(&mut t, b"(", b'0');
    print(&mut t, "qx");
    assert_eq!(line(&t, 0), "─│ ");
    esc(&mut t, b"(", b'B');
    assert_eq!(Charset::LineDrawing.map('q'), '─');
    assert_eq!(Charset::Ascii.map('q'), 'q');
}

#[test]
fn keys_and_mouse_reports() {
    let mut t = term(5, 5);
    assert_eq!(t.arrow_input(Direction::Up), b"\x1b[A".to_vec());
    csi(&mut t, &[&[1]], b"?", b'h');
    assert_eq!(t.arrow_input(Direction::Left), b"\x1bOD".to_vec());
    assert_eq!(t.mouse_button_input(0, 0, 0, true), Vec::<u8>::new());
    csi(&mut t, &[&[1000]], b"?", b'h');
    assert_eq!(t.mouse_button_input(2, 3, 0, true), vec![0x1b, b'[', b'M', 32, 35, 36]);
    assert_eq!(t.mouse_button_input(2, 3, 0, false), vec![0x1b, b'[', b'M', 35, 35, 36]);
    assert_eq!(t.mouse_scroll_input(0, 0, true), vec![0x1b, b'[', b'M', 96, 33, 33]);
    assert_eq!(t.mouse_button_input(300, 0, 0, true), Vec::<u8>::new());
}

#[test]
fn pasting() {
    let mut t = term(1, 1);
    assert_eq!(t.paste_input("a\r\nb\nc"), "a\rb\rc");
    csi(&mut t, &[&[2004]], b"?", b'h');
    assert_eq!(t.paste_input("x\x1by\x03"), "\x1b[200~xy\x1b[201~");
}

#[test]
fn resizing_keeps_content_and_cursor() {
    let mut t = term(2, 2);
    print(&mut t, "ab");
    t.resize(Size { rows: 3, cols: 4 });
    assert_eq!(t.size(), Size { rows: 3, cols: 4 });
    assert_eq!(line(&t, 0), "ab  ");
    assert_eq!(line(&t, 2), "    ");
    t.resize(Size { rows: 1, cols: 1 });
    assert_eq!(line(&t, 0), "a");
    assert!(t.cursor.pos.col < 1);
}

#[test]
fn grid_scrolls_its_region() {
    let mut g = Grid::new(Size { rows: 3, cols: 2 });
    g.put(Position { row: 0, col: 0 }, 'a', Style::default());
    g.put(Position { row: 1, col: 0 }, 'b', Style::default());
    g.put(Position { row: 2, col: 0 }, 'c', Style::default());
    g.scroll_up(0..3);
    assert_eq!(g.line(0).unwrap().to_string(), "b ");
    assert_eq!(g.line(2).unwrap().to_string(), "  ");
    g.scroll_down(0..3);
    assert_eq!(g.line(0).unwrap().to_string(), "  ");
    assert_eq!(g.line(1).unwrap().to_string(), "b ");
    assert!(g.line(3).is_none());
}

#[test]
fn actions_type_into_the_terminal() {
    let mut t = term(2, 2);
    assert_eq!(t.action_input(Action::Edit { count: None, e: Edit::Insert('é') }), "é".as_bytes().to_vec());
    assert_eq!(t.action_input(Action::Edit { count: None, e: Edit::Backspace }), vec![0x08]);
    assert_eq!(
        t.action_input(Action::Edit { count: None, e: Edit::Delete(Move::Single(Direction::Left)) }),
        vec![0x7f]
    );
    assert_eq!(t.action_input(Action::Control { char: 'c' }), vec![0x03]);
    assert_eq!(t.action_input(Action::Control { char: 'C' }), Vec::<u8>::new());
    assert_eq!(t.action_input(Action::SetMode { mode: Mode::Normal, delta: -1 }), vec![0x1b]);
    assert_eq!(t.action_input(Action::Move { count: None, m: Move::Single(Direction::Right) }), b"\x1b[C".to_vec());
    csi(&mut t, &[&[1]], b"?", b'h');
    assert_eq!(t.action_input(Action::Move { count: None, m: Move::Single(Direction::Right) }), b"\x1bOC".to_vec());
    assert_eq!(t.action_input(Action::Autocomplete), Vec::<u8>::new());
}

#[test]
fn motion_focus_and_utf8_mouse_modes() {
    let mut t = term(5, 5);
    assert_eq!(t.focus_input(true), Vec::<u8>::new());
    csi(&mut t, &[&[1004]], b"?", b'h');
    assert_eq!(t.focus_input(true), b"\x1b[I".to_vec());
    assert_eq!(t.focus_input(false), b"\x1b[O".to_vec());
    csi(&mut t, &[&[1004]], b"?", b'l');
    assert_eq!(t.focus_input(true), Vec::<u8>::new());

    assert_eq!(t.mouse_move_input(1, 2, Some(0)), Vec::<u8>::new());
    csi(&mut t, &[&[1002]], b"?", b'h');
    assert_eq!(t.mouse_move_input(1, 2, Some(0)), vec![0x1b, b'[', b'M', 64, 34, 35]);
    assert_eq!(t.mouse_move_input(1, 2, None), Vec::<u8>::new());
    csi(&mut t, &[&[1003]], b"?", b'h');
    assert_eq!(t.mouse_move_input(1, 2, None), vec![0x1b, b'[', b'M', 67, 34, 35]);

    csi(&mut t, &[&[1000]], b"?", b'h');
    csi(&mut t, &[&[1005]], b"?", b'h');
    assert_eq!(t.mouse_button_input(300, 0, 0, true), vec![0x1b, b'[', b'M', 32, 0xc5, 0x8d, 33]);
}

#[test]
fn specific_styles_report_value_changes() {
    let mut g = Grid::new(Size { rows: 1, cols: 3 });
    let bold = Style { flags: StyleFlags::bold(), ..Style::default() };
    g.put(Position { row: 0, col: 1 }, 'x', bold);
    let line = g.line(0).unwrap();
    assert_eq!(line.specific_styles(|s: Style| s.flags), vec![(StyleFlags::empty(), 1), (StyleFlags::bold(), 2)]);
    assert_eq!(line.specific_styles(|s: Style| s.background), Vec::<(Option<TerminalColor>, usize)>::new());
}
