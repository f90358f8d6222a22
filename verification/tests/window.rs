use be_core::gui::ViewId;
use be_core::gui::pane::{Axis, Pane, Split};
use be_core::gui::hover::hover_change;
use be_core::gui::keys::KeyBuffer;
use be_core::gui::search::{Search, SearchEffect};
use be_core::gui::selection::{inverted_at, selection_between};
use be_core::gui::WidgetId;
use be_core::input::Mode;
use be_core::input::{Action, ActionError, Direction, Edit, Key, KeyStroke, Move};
use be_core::terminal::style::Position;

fn key(c: char) -> KeyStroke {
    KeyStroke { key: Key::Char(c), control: false, alt: false }
}

#[test]
fn keystrokes_wait_for_a_whole_command() {
    let mut keys = KeyBuffer::new();
    let out = keys.on_key(Mode::Normal, key('d'));
    assert_eq!(out.action, None);
    assert!(out.temporary_underline);
    assert_eq!(keys.len(), 1);
    let out = keys.on_key(Mode::Normal, key('d'));
    assert_eq!(out.action, Some(Action::Edit { count: None, e: Edit::DeleteLine }));
    assert!(!out.temporary_underline);
    assert_eq!(keys.len(), 0);
    let out = keys.on_key(Mode::Normal, key('2'));
    assert_eq!(out.action, None);
    assert!(!out.temporary_underline);
    let out = keys.on_key(Mode::Normal, key('j'));
    assert_eq!(out.action, Some(Action::Move { count: Some(2), m: Move::Single(Direction::Down) }));
    // Keys that name nothing are dropped.
    assert_eq!(Action::from_input(Mode::Normal, &[key('g'), key('z')]), Err(ActionError::Unrecognized));
    keys.on_key(Mode::Normal, key('g'));
    assert_eq!(keys.len(), 1);
    assert_eq!(keys.on_key(Mode::Normal, key('z')).action, None);
    assert_eq!(keys.len(), 0);
}

fn pos(row: usize, col: usize) -> Position {
    Position { row, col }
}

#[test]
fn selections_read_in_order() {
    assert_eq!(selection_between(pos(1, 1), pos(1, 1)), None);
    assert_eq!(selection_between(pos(2, 7), pos(2, 3)), Some((pos(2, 3), pos(2, 7))));
    assert_eq!(selection_between(pos(4, 0), pos(1, 5)), Some((pos(1, 5), pos(4, 0))));
    let s = selection_between(pos(1, 5), pos(3, 2));
    assert!(!inverted_at(s, 1, 4));
    assert!(inverted_at(s, 1, 5));
    assert!(inverted_at(s, 2, 0));
    assert!(inverted_at(s, 3, 1));
    assert!(!inverted_at(s, 3, 2));
    assert!(!inverted_at(None, 2, 2));
    let one_row = selection_between(pos(0, 4), pos(0, 2));
    assert!(inverted_at(one_row, 0, 2));
    assert!(inverted_at(one_row, 0, 3));
    assert!(!inverted_at(one_row, 0, 4));
}

fn ids(v: &[u64]) -> Vec<WidgetId> {
    v.iter().map(|&i| WidgetId(i)).collect()
}

#[test]
fn hovering_leaves_and_enters_innermost_first() {
    assert!(hover_change(&ids(&[1, 2, 3]), &ids(&[1, 2, 3])).is_none());
    let c = hover_change(&ids(&[1, 2, 3]), &ids(&[1, 4, 5])).unwrap();
    assert_eq!(c.leave, ids(&[3, 2]));
    assert_eq!(c.enter, ids(&[5, 4]));
    let c = hover_change(&ids(&[1]), &ids(&[1, 2])).unwrap();
    assert!(c.leave.is_empty());
    assert_eq!(c.enter, ids(&[2]));
    let c = hover_change(&ids(&[1, 2]), &ids(&[])).unwrap();
    assert_eq!(c.leave, ids(&[2, 1]));
    assert!(c.enter.is_empty());
}

#[test]
fn search_box_reparses_on_each_change() {
    let mut s = Search::new();
    let ins = |c: char| Action::Edit { count: None, e: Edit::Insert(c) };
    assert_eq!(s.perform_action(ins('a')), SearchEffect::Reparse { append: true });
    assert_eq!(s.perform_action(ins('c')), SearchEffect::Reparse { append: true });
    assert_eq!(
        s.perform_action(Action::Move { count: None, m: Move::Single(Direction::Left) }),
        SearchEffect::Nothing
    );
    assert_eq!(s.perform_action(ins('b')), SearchEffect::Reparse { append: false });
    assert_eq!(s.search(), "abc");
    assert_eq!(s.cursor_byte(), 2);
    assert_eq!(
        s.perform_action(Action::Edit { count: None, e: Edit::Delete(Move::Single(Direction::Right)) }),
        SearchEffect::Reparse { append: false }
    );
    assert_eq!(s.search(), "ab");
    assert_eq!(s.perform_action(ins('\n')), SearchEffect::OpenFirstMatch);
    s.perform_action(Action::Move { count: None, m: Move::Single(Direction::Left) });
    s.perform_action(Action::Move { count: None, m: Move::Single(Direction::Left) });
    assert_eq!(s.perform_action(Action::Edit { count: None, e: Edit::Backspace }), SearchEffect::Nothing);
}

#[test]
fn views_iter() {
    let pane = Pane::Split(Split {
        axis: Axis::Vertical,
        active: 1,
        items: vec![Pane::View(ViewId(0)), Pane::View(ViewId(1))],
    });

    assert_eq!(pane.views(), vec![ViewId(0), ViewId(1)]);

    let pane = Pane::Split(Split {
        axis: Axis::Vertical,
        active: 1,
        items: vec![
            Pane::Split(Split {
                axis: Axis::Horizontal,
                active: 1,
                items: vec![Pane::View(ViewId(0)), Pane::View(ViewId(1))],
            }),
            Pane::View(ViewId(2)),
        ],
    });

    assert_eq!(pane.views(), vec![ViewId(0), ViewId(1), ViewId(2)]);
}

#[test]
fn active_view_follows_active_items() {
    let pane = Pane::Split(Split {
        axis: Axis::Vertical,
        active: 0,
        items: vec![
            Pane::Split(Split {
                axis: Axis::Horizontal,
                active: 1,
                items: vec![Pane::View(ViewId(0)), Pane::View(ViewId(1))],
            }),
            Pane::View(ViewId(2)),
        ],
    });
    assert_eq!(pane.active(), ViewId(1));
    assert_eq!(Pane::View(ViewId(7)).active(), ViewId(7));
}

#[test]
fn focus_moves_to_the_neighbour_of_the_innermost_split() {
    let mut pane = Pane::Split(Split {
        axis: Axis::Vertical,
        active: 0,
        items: vec![
            Pane::Split(Split {
                axis: Axis::Horizontal,
                active: 0,
                items: vec![Pane::View(ViewId(0)), Pane::View(ViewId(1))],
            }),
            Pane::Split(Split {
                axis: Axis::Horizontal,
                active: 1,
                items: vec![Pane::View(ViewId(2)), Pane::View(ViewId(3))],
            }),
        ],
    });
    assert_eq!(pane.focus(Direction::Down), Some(ViewId(1)));
    assert_eq!(pane.active(), ViewId(1));
    assert_eq!(pane.focus(Direction::Down), None);
    assert_eq!(pane.focus(Direction::Right), Some(ViewId(3)));
    assert_eq!(pane.active(), ViewId(3));
    assert_eq!(pane.focus(Direction::Right), None);
    assert_eq!(pane.focus(Direction::Left), Some(ViewId(1)));
    assert_eq!(Pane::View(ViewId(5)).focus(Direction::Up), None);
}
