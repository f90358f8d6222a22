use be_core::input::{Action, ActionError, ChangeDirection, Direction, Edit, Key, KeyStroke, Move, Navigation};
use be_core::input::Mode;
use be_core::input::Clipboard;

fn key(c: char) -> KeyStroke {
    KeyStroke { key: Key::Char(c), control: false, alt: false }
}

fn ctrl(c: char) -> KeyStroke {
    KeyStroke { key: Key::Char(c), control: true, alt: false }
}

fn special(k: Key) -> KeyStroke {
    KeyStroke { key: k, control: false, alt: false }
}

#[test]
fn plain_motion_has_no_count() {
    assert_eq!(
        Action::from_input(Mode::Normal, &[key('j')]),
        Ok(Action::Move { count: None, m: Move::Single(Direction::Down) })
    );
}

#[test]
fn count_digits_add_up() {
    // Digits typed before a command are summed, each one added to the count.
    assert_eq!(
        Action::from_input(Mode::Normal, &[key('2'), key('3'), key('j')]),
        Ok(Action::Move { count: Some(5), m: Move::Single(Direction::Down) })
    );
    assert_eq!(
        Action::from_input(Mode::Normal, &[key('3'), key('x')]),
        Ok(Action::Edit { count: Some(3), e: Edit::Delete(Move::Single(Direction::Right)) })
    );
}

#[test]
fn digits_alone_are_incomplete() {
    assert_eq!(Action::from_input(Mode::Normal, &[key('4')]), Err(ActionError::Incomplete));
    assert_eq!(Action::from_input(Mode::Normal, &[]), Err(ActionError::Incomplete));
}

#[test]
fn two_key_commands() {
    assert_eq!(Action::from_input(Mode::Normal, &[key('g')]), Err(ActionError::Incomplete));
    assert_eq!(
        Action::from_input(Mode::Normal, &[key('g'), key('g')]),
        Ok(Action::Move { count: None, m: Move::FileStart })
    );
    assert_eq!(Action::from_input(Mode::Normal, &[key('g'), key('x')]), Err(ActionError::Unrecognized));
    assert_eq!(
        Action::from_input(Mode::Normal, &[key('d'), key('d')]),
        Ok(Action::Edit { count: None, e: Edit::DeleteLine })
    );
    assert_eq!(
        Action::from_input(Mode::Normal, &[key('d'), key('w')]),
        Ok(Action::Edit { count: None, e: Edit::Delete(Move::NextWord) })
    );
    assert_eq!(
        Action::from_input(Mode::Normal, &[key('f'), key('x')]),
        Ok(Action::Move { count: None, m: Move::Char('x', ChangeDirection::Next) })
    );
    assert_eq!(
        Action::from_input(Mode::Normal, &[key(']'), key('c')]),
        Ok(Action::Move { count: None, m: Move::Change(ChangeDirection::Next) })
    );
    assert_eq!(
        Action::from_input(Mode::Normal, &[key('r'), key('z')]),
        Ok(Action::Edit { count: None, e: Edit::Replace('z') })
    );
}

#[test]
fn window_navigation() {
    assert_eq!(
        Action::from_input(Mode::Insert, &[ctrl('w'), key('l')]),
        Ok(Action::Navigate { nav: Navigation::Direction(Direction::Right) })
    );
    assert_eq!(
        Action::from_input(Mode::Normal, &[ctrl('w'), key('3')]),
        Ok(Action::Navigate { nav: Navigation::Tab(3) })
    );
    assert_eq!(Action::from_input(Mode::Normal, &[ctrl('w')]), Err(ActionError::Incomplete));
    assert_eq!(
        Action::from_input(Mode::Normal, &[key(' '), key('s')]),
        Ok(Action::Navigate { nav: Navigation::OpenSearch })
    );
}

#[test]
fn insert_mode_keys() {
    assert_eq!(
        Action::from_input(Mode::Insert, &[key('q')]),
        Ok(Action::Edit { count: None, e: Edit::Insert('q') })
    );
    assert_eq!(
        Action::from_input(Mode::Insert, &[special(Key::Escape)]),
        Ok(Action::SetMode { mode: Mode::Normal, delta: -1 })
    );
    assert_eq!(Action::from_input(Mode::Insert, &[ctrl(' ')]), Ok(Action::Autocomplete));
    assert_eq!(Action::from_input(Mode::Insert, &[ctrl('a')]), Ok(Action::Control { char: 'a' }));
    assert_eq!(
        Action::from_input(Mode::Command, &[special(Key::Backspace)]),
        Ok(Action::Edit { count: None, e: Edit::Backspace })
    );
    assert_eq!(
        Action::from_input(Mode::Command, &[special(Key::ArrowLeft)]),
        Ok(Action::Move { count: None, m: Move::Single(Direction::Left) })
    );
}

#[test]
fn mode_changes() {
    assert_eq!(
        Action::from_input(Mode::Normal, &[key('a')]),
        Ok(Action::SetMode { mode: Mode::Insert, delta: 1 })
    );
    assert_eq!(Action::from_input(Mode::Normal, &[key('o')]), Ok(Action::Append { after: true }));
    assert_eq!(
        Action::from_input(Mode::Visual, &[special(Key::Escape)]),
        Ok(Action::SetMode { mode: Mode::Normal, delta: 0 })
    );
    assert_eq!(Action::from_input(Mode::Replace, &[key('x')]), Err(ActionError::Unrecognized));
}

#[test]
fn dummy_clipboard_pastes_nothing() {
    let clipboard = Clipboard::dummy();
    clipboard.copy("kept nowhere");
    assert_eq!(clipboard.paste(), "");
}
