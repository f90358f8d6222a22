use std::path::PathBuf;

use be_core::gui::command::CommandView;
use be_core::gui::file_tree::{Directory, File, FileStatus, FileTree, Item, OpenStep};
use be_core::gui::ViewId;
use be_core::input::{Action, ChangeDirection, Direction, Edit, Move};
use be_core::input::Mode;

fn insert(c: char) -> Action {
    Action::Edit { count: None, e: Edit::Insert(c) }
}

fn mv(d: Direction) -> Action {
    Action::Move { count: None, m: Move::Single(d) }
}

#[test]
fn command_line_types_and_runs() {
    let mut view = CommandView::new();
    for c in "wq".chars() {
        assert_eq!(view.perform_action(insert(c)), None);
    }
    assert_eq!(view.command(), "wq");
    assert_eq!(view.cursor(), 2);
    assert_eq!(view.perform_action(insert('\n')), Some("wq".to_string()));
    // Running leaves the line as it was.
    assert_eq!(view.command(), "wq");
}

#[test]
fn command_line_moves_over_clusters() {
    let mut view = CommandView::new();
    for c in "ae\u{301}x".chars() {
        view.perform_action(insert(c));
    }
    assert_eq!(view.cursor(), 4);
    view.perform_action(mv(Direction::Left));
    assert_eq!(view.cursor(), 3);
    // `e` and its combining accent are one cluster.
    view.perform_action(mv(Direction::Left));
    assert_eq!(view.cursor(), 1);
    assert_eq!(view.cursor_byte(), 1);
    view.perform_action(mv(Direction::Right));
    assert_eq!(view.cursor(), 3);
    assert_eq!(view.cursor_byte(), 4);
    view.perform_action(mv(Direction::Right));
    view.perform_action(mv(Direction::Right));
    assert_eq!(view.cursor(), 4);
}

#[test]
fn command_line_deletes_clusters() {
    let mut view = CommandView::new();
    for c in "ae\u{301}x".chars() {
        view.perform_action(insert(c));
    }
    view.perform_action(Action::Edit { count: None, e: Edit::Backspace });
    assert_eq!(view.command(), "ae\u{301}");
    view.perform_action(Action::Edit { count: None, e: Edit::Backspace });
    assert_eq!(view.command(), "a");
    assert_eq!(view.cursor(), 1);
    view.perform_action(mv(Direction::Left));
    view.perform_action(Action::Edit { count: None, e: Edit::Delete(Move::Single(Direction::Right)) });
    assert_eq!(view.command(), "");
    // Backspace at the start does nothing.
    view.perform_action(Action::Edit { count: None, e: Edit::Backspace });
    assert_eq!(view.command(), "");
    assert_eq!(view.cursor(), 0);
}

#[test]
fn command_line_inserts_at_the_cursor() {
    let mut view = CommandView::new();
    view.perform_action(insert('a'));
    view.perform_action(insert('c'));
    view.perform_action(mv(Direction::Left));
    view.perform_action(insert('b'));
    assert_eq!(view.command(), "abc");
    assert_eq!(view.cursor(), 2);
    view.layout();
    assert_eq!(view.command(), "abc");
}

#[test]
fn status_combining() {
    let (u, c, m, d, i) = (
        FileStatus::Unchanged,
        FileStatus::Created,
        FileStatus::Modified,
        FileStatus::Deleted,
        FileStatus::Ignored,
    );
    assert_eq!(u.bitor(u), u);
    assert_eq!(c.bitor(m), m);
    assert_eq!(u.bitor(i), u);
    assert_eq!(i.bitor(u), u);
    assert_eq!(c.bitor(i), i);
    assert_eq!(d.bitor(c), m);
    assert_eq!(u.bitor(c), m);
    let mut s = c;
    s.bitor_assign(d);
    assert_eq!(s, m);
    // Not associative: the order of folding matters.
    assert_eq!(c.bitor(i).bitor(u), u);
    assert_eq!(c.bitor(i.bitor(u)), m);
}

#[test]
fn status_from_repository() {
    assert_eq!(FileStatus::from_repo(true, true, true), FileStatus::Ignored);
    assert_eq!(FileStatus::from_repo(false, true, true), FileStatus::Created);
    assert_eq!(FileStatus::from_repo(false, false, true), FileStatus::Modified);
    assert_eq!(FileStatus::from_repo(false, false, false), FileStatus::Unchanged);
    assert_eq!(FileStatus::default(), FileStatus::Unchanged);
}

fn file(name: &str, status: Option<FileStatus>) -> Item {
    Item::File(File { name: name.to_string(), path: PathBuf::from(format!("/w/{name}")), status })
}

fn dir(name: &str) -> Item {
    Item::Directory(Directory::new(name.to_string(), PathBuf::from(format!("/w/{name}"))))
}

fn names(tree: &FileTree) -> Vec<String> {
    let mut out = vec![];
    let mut i = 1;
    while let Some(it) = tree.line(i) {
        out.push(it.name().clone());
        i += 1;
    }
    out
}

fn tree() -> FileTree {
    let mut t = FileTree::new("w".to_string(), PathBuf::from("/w"));
    assert_eq!(t.first_unpopulated(), Some(0));
    t.populate(0, vec![
        file("zeta.rs", None),
        dir("src"),
        file("Cargo.toml", Some(FileStatus::Modified)),
        dir("docs"),
        file("alpha.md", None),
    ]);
    t
}

#[test]
fn tree_lists_directories_then_files_by_name() {
    let t = tree();
    assert_eq!(names(&t), vec!["docs", "src", "Cargo.toml", "alpha.md", "zeta.rs"]);
    assert_eq!(t.root().len_visible(), 6);
    assert_eq!(t.first_unpopulated(), None);
    assert!(t.line(0).is_none());
    assert!(t.line(6).is_none());
}

#[test]
fn tree_moves_and_opens() {
    let mut t = tree();
    t.on_focus(true);
    assert!(t.focused());
    assert_eq!(t.perform_action(mv(Direction::Up)), None);
    assert_eq!(t.active(), 0);
    t.perform_action(mv(Direction::Down));
    t.perform_action(mv(Direction::Down));
    assert_eq!(t.active(), 2);
    t.perform_action(Action::Move { count: None, m: Move::FileEnd });
    assert_eq!(t.active(), 5);
    t.perform_action(mv(Direction::Down));
    assert_eq!(t.active(), 5);
    assert_eq!(t.perform_action(Action::Append { after: true }), Some(PathBuf::from("/w/zeta.rs")));
    t.perform_action(Action::Move { count: None, m: Move::FileStart });
    assert_eq!(t.active(), 0);
    // The root's line holds no entry: nothing to open.
    assert_eq!(t.perform_action(Action::SetMode { mode: Mode::Insert, delta: 0 }), None);
}

#[test]
fn tree_opens_and_closes_directories() {
    let mut t = tree();
    t.perform_action(mv(Direction::Down));
    t.perform_action(mv(Direction::Down));
    // Line 2 is `src`: open it, read it, and its entries show below it.
    assert_eq!(t.perform_action(Action::SetMode { mode: Mode::Insert, delta: 0 }), None);
    assert_eq!(t.first_unpopulated(), Some(2));
    t.populate(2, vec![file("main.rs", Some(FileStatus::Created)), file("lib.rs", None)]);
    assert_eq!(names(&t), vec!["docs", "src", "lib.rs", "main.rs", "Cargo.toml", "alpha.md", "zeta.rs"]);
    assert_eq!(t.root().len_visible(), 8);
    // Close it again: its entries are hidden but kept.
    t.perform_action(Action::Append { after: false });
    assert_eq!(names(&t), vec!["docs", "src", "Cargo.toml", "alpha.md", "zeta.rs"]);
    t.perform_action(Action::Append { after: false });
    assert_eq!(t.root().len_visible(), 8);
    assert_eq!(t.first_unpopulated(), None);
}

#[test]
fn tree_jumps_between_changes() {
    let mut t = tree();
    t.perform_action(mv(Direction::Down));
    t.perform_action(mv(Direction::Down));
    t.perform_action(Action::Append { after: true });
    t.populate(2, vec![file("main.rs", Some(FileStatus::Created)), file("lib.rs", None)]);
    // Lines: docs, src, lib.rs, main.rs (created), Cargo.toml (modified), alpha.md, zeta.rs.
    let next = Action::Move { count: None, m: Move::Change(ChangeDirection::Next) };
    let prev = Action::Move { count: None, m: Move::Change(ChangeDirection::Prev) };
    t.perform_action(Action::Move { count: None, m: Move::FileStart });
    t.perform_action(next);
    assert_eq!(t.active(), 4);
    t.perform_action(next);
    assert_eq!(t.active(), 5);
    // No change further down: the last line.
    t.perform_action(next);
    assert_eq!(t.active(), 7);
    t.perform_action(prev);
    assert_eq!(t.active(), 5);
    t.perform_action(prev);
    t.perform_action(prev);
    assert_eq!(t.active(), 0);
}

#[test]
fn tab_bar_view_id() {
    assert_eq!(ViewId::tabs(), ViewId(u64::MAX));
}

#[test]
fn tree_opens_a_path() {
    let mut t = tree();
    let mut walk = t.open_start();
    assert!(matches!(t.open_step(&mut walk, Some("src"), false), OpenStep::Entered));
    assert_eq!(t.open_dir(&walk).unwrap().name, "src");
    t.open_fill(&walk, vec![file("main.rs", None), file("lib.rs", None)]);
    assert!(matches!(t.open_step(&mut walk, Some("main.rs"), true), OpenStep::ReachedFile));
    t.open_finish(walk);
    assert_eq!(t.active(), 4);
    assert_eq!(t.line(4).unwrap().name(), "main.rs");

    let mut walk = t.open_start();
    assert!(matches!(t.open_step(&mut walk, Some("nowhere"), true), OpenStep::Stopped));
    let mut walk = t.open_start();
    assert!(matches!(t.open_step(&mut walk, Some("zeta.rs"), false), OpenStep::Stopped));
    let mut walk = t.open_start();
    assert!(matches!(t.open_step(&mut walk, None, true), OpenStep::Stopped));
}
