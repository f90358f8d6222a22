//! The file tree: directories that open and close, a highlighted line that
//! moves over what is shown, and the version-control status of each entry.
use vstd::prelude::*;

use crate::input::action::{Action, ChangeDirection, Direction, Move};
use crate::input::Mode;

verus! {

// ---------------------------------------------------------------------------
// Status
// ---------------------------------------------------------------------------

/// The version-control status of an entry.
#[derive(Debug, Clone, Copy, PartialEq, Eq, Structural)]
pub enum FileStatus {
    Unchanged,
    Created,
    Modified,
    Deleted,
    Ignored,
}

impl Default for FileStatus {
    fn default() -> (r: Self)
        ensures
            r == FileStatus::Unchanged,
    {
        FileStatus::Unchanged
    }
}

/// The status of a directory holding entries of statuses `l` and `r`: the
/// same when they agree, modified when either is, an ignored entry does not
/// count against an unchanged one, and an ignored one is ignored beside any
/// other; two different changes make a modification.
pub open spec fn status_or(l: FileStatus, r: FileStatus) -> FileStatus {
    if l == r {
        l
    } else if r == FileStatus::Modified || l == FileStatus::Modified {
        FileStatus::Modified
    } else if (l == FileStatus::Unchanged && r == FileStatus::Ignored) || (l == FileStatus::Ignored
        && r == FileStatus::Unchanged) {
        FileStatus::Unchanged
    } else if r == FileStatus::Ignored || l == FileStatus::Ignored {
        FileStatus::Ignored
    } else {
        FileStatus::Modified
    }
}

/// The status the repository gives a path: ignored, else added, else
/// modified, else unchanged.
pub open spec fn status_from(ignored: bool, added: bool, modified: bool) -> FileStatus {
    if ignored {
        FileStatus::Ignored
    } else if added {
        FileStatus::Created
    } else if modified {
        FileStatus::Modified
    } else {
        FileStatus::Unchanged
    }
}

impl FileStatus {
    /// Combines the statuses of two entries (see `status_or`).
    pub fn bitor(self, rhs: FileStatus) -> (r: FileStatus)
        ensures
            r == status_or(self, rhs),
    {
        match (self, rhs) {
            (l, r) if l == r => l,
            (_, FileStatus::Modified) => FileStatus::Modified,
            (FileStatus::Modified, _) => FileStatus::Modified,
            (FileStatus::Unchanged, FileStatus::Ignored) => FileStatus::Unchanged,
            (FileStatus::Ignored, FileStatus::Unchanged) => FileStatus::Unchanged,
            (_, FileStatus::Ignored) => FileStatus::Ignored,
            (FileStatus::Ignored, _) => FileStatus::Ignored,
            _ => FileStatus::Modified,
        }
    }

    /// Combines `rhs` into `self`.
    pub fn bitor_assign(&mut self, rhs: FileStatus)
        ensures
            *final(self) == status_or(*old(self), rhs),
    {
        *self = self.bitor(rhs);
    }

    /// The status of a path from what the repository says of it (see
    /// `status_from`).
    pub fn from_repo(ignored: bool, added: bool, modified: bool) -> (r: FileStatus)
        ensures
            r == status_from(ignored, added, modified),
    {
        if ignored {
            FileStatus::Ignored
        } else if added {
            FileStatus::Created
        } else if modified {
            FileStatus::Modified
        } else {
            FileStatus::Unchanged
        }
    }

    /// Whether the entry differs from the repository: created, modified or
    /// deleted.
    pub fn is_change(self) -> (r: bool)
        ensures
            r == is_change(self),
    {
        match self {
            FileStatus::Created | FileStatus::Modified | FileStatus::Deleted => true,
            _ => false,
        }
    }
}

/// Whether `s` marks a change: created, modified or deleted.
pub open spec fn is_change(s: FileStatus) -> bool {
    s == FileStatus::Created || s == FileStatus::Modified || s == FileStatus::Deleted
}

/// Combining statuses does not depend on their order.
pub proof fn lemma_status_or_commutative(l: FileStatus, r: FileStatus)
    ensures
        status_or(l, r) == status_or(r, l),
{
}

/// Combining a status with itself gives it back.
pub proof fn lemma_status_or_idempotent(s: FileStatus)
    ensures
        status_or(s, s) == s,
{
}

/// A modification anywhere makes the whole a modification.
pub proof fn lemma_status_or_modified(s: FileStatus)
    ensures
        status_or(s, FileStatus::Modified) == FileStatus::Modified,
        status_or(FileStatus::Modified, s) == FileStatus::Modified,
{
}

// ---------------------------------------------------------------------------
// The tree and what it shows
// ---------------------------------------------------------------------------

/// A file in the tree.
pub struct File {
    pub name: String,
    pub path: std::path::PathBuf,
    pub status: Option<FileStatus>,
}

/// A directory in the tree; `items` is `None` until it has been read.
pub struct Directory {
    pub name: String,
    pub path: std::path::PathBuf,
    pub items: Option<Vec<Item>>,
    pub expanded: bool,
    pub status: Option<FileStatus>,
}

/// An entry of a directory.
pub enum Item {
    Directory(Directory),
    File(File),
}

/// What an entry of the tree is, as plain values.
pub enum Node {
    Dir {
        name: Seq<char>,
        path: std::path::PathBuf,
        expanded: bool,
        items: Option<Seq<Node>>,
        status: Option<FileStatus>,
    },
    File { name: Seq<char>, path: std::path::PathBuf, status: Option<FileStatus> },
}

/// The node of directory `d`.
pub open spec fn dir_node(d: Directory) -> Node
    decreases d, 1nat,
{
    Node::Dir {
        name: d.name@,
        path: d.path,
        expanded: d.expanded,
        items: match d.items {
            Some(v) => Some(items_nodes(v@)),
            None => None,
        },
        status: d.status,
    }
}

/// The nodes of the entries `s`.
pub open spec fn items_nodes(s: Seq<Item>) -> Seq<Node>
    decreases s, 0nat,
{
    if s.len() == 0 {
        Seq::empty()
    } else {
        items_nodes(s.drop_last()).push(item_node(s.last()))
    }
}

/// The node of entry `it`.
pub open spec fn item_node(it: Item) -> Node
    decreases it, 2nat,
{
    match it {
        Item::Directory(d) => dir_node(d),
        Item::File(f) => Node::File { name: f.name@, path: f.path, status: f.status },
    }
}

/// The lines the tree under `n` shows, `n` first: a directory's entries
/// follow it while it is open and has been read.
pub open spec fn node_visible(n: Node) -> Seq<Node>
    decreases n, 1nat,
{
    match n {
        Node::Dir { expanded, items, .. } => if expanded {
            match items {
                Some(s) => seq![n] + nodes_visible(s),
                None => seq![n],
            }
        } else {
            seq![n]
        },
        Node::File { .. } => seq![n],
    }
}

/// The lines the entries `s` show, one after the other.
pub open spec fn nodes_visible(s: Seq<Node>) -> Seq<Node>
    decreases s, 0nat,
{
    if s.len() == 0 {
        Seq::empty()
    } else {
        nodes_visible(s.drop_last()) + node_visible(s.last())
    }
}

/// The status an entry shows: unchanged until one is known.
pub open spec fn node_status(n: Node) -> FileStatus {
    match n {
        Node::Dir { status, .. } => match status {
            Some(s) => s,
            None => FileStatus::Unchanged,
        },
        Node::File { status, .. } => match status {
            Some(s) => s,
            None => FileStatus::Unchanged,
        },
    }
}

/// The entry of `s` that holds line `k` of what `s` shows.
pub open spec fn locate(s: Seq<Node>, k: nat) -> int
    decreases s.len(),
{
    if s.len() == 0 {
        0
    } else if k < nodes_visible(s.drop_last()).len() {
        locate(s.drop_last(), k)
    } else {
        s.len() - 1
    }
}

/// A change to one directory of the tree.
pub enum NodeEdit {
    /// Open it when closed, close it when open.
    Toggle,
    /// Open it.
    Expand,
    /// Give it these entries, as read from disk.
    Fill(Seq<Node>),
}

/// Directory `n` after `e`; a file is left alone.
pub open spec fn apply_edit(n: Node, e: NodeEdit) -> Node {
    match n {
        Node::Dir { name, path, expanded, items, status } => match e {
            NodeEdit::Toggle => Node::Dir { name, path, expanded: !expanded, items, status },
            NodeEdit::Expand => Node::Dir { name, path, expanded: true, items, status },
            NodeEdit::Fill(s) => Node::Dir { name, path, expanded, items: Some(s), status },
        },
        Node::File { .. } => n,
    }
}

/// `n` with `e` done to the entry at line `k` of what `n` shows (past the
/// end, `n` unchanged).
pub open spec fn edited(n: Node, k: nat, e: NodeEdit) -> Node
    decreases n,
{
    match n {
        Node::Dir { name, path, expanded, items, status } => if k == 0 {
            apply_edit(n, e)
        } else if expanded && items is Some && k < node_visible(n).len() {
            let s = items->0;
            let j = locate(s, (k - 1) as nat);
            if 0 <= j < s.len() {
                let rel = (k - 1 - nodes_visible(s.take(j)).len()) as nat;
                Node::Dir { name, path, expanded, items: Some(s.update(j, edited(s[j], rel, e))), status }
            } else {
                n
            }
        } else {
            n
        },
        Node::File { .. } => n,
    }
}

proof fn lemma_nodes_visible_concat(a: Seq<Node>, b: Seq<Node>)
    ensures
        nodes_visible(a + b) == nodes_visible(a) + nodes_visible(b),
    decreases b.len(),
{
    if b.len() == 0 {
        assert(a + b =~= a);
        assert(nodes_visible(a) + nodes_visible(b) =~= nodes_visible(a));
    } else {
        lemma_nodes_visible_concat(a, b.drop_last());
        assert((a + b).drop_last() =~= a + b.drop_last());
        assert((a + b).last() == b.last());
        assert(nodes_visible(a) + (nodes_visible(b.drop_last()) + node_visible(b.last())) =~= (
        nodes_visible(a) + nodes_visible(b.drop_last())) + node_visible(b.last()));
    }
}

/// What `s` shows is what its first `j` entries show, then what entry `j`
/// shows, then the rest.
proof fn lemma_nodes_visible_split(s: Seq<Node>, j: int)
    requires
        0 <= j < s.len(),
    ensures
        nodes_visible(s) == nodes_visible(s.take(j)) + node_visible(s[j]) + nodes_visible(
            s.skip(j + 1),
        ),
        nodes_visible(s.take(j + 1)) == nodes_visible(s.take(j)) + node_visible(s[j]),
{
    lemma_nodes_visible_concat(s.take(j + 1), s.skip(j + 1));
    assert(s.take(j + 1) + s.skip(j + 1) =~= s);
    assert(s.take(j + 1).drop_last() =~= s.take(j));
    assert(s.take(j + 1).last() == s[j]);
}

proof fn lemma_items_nodes(s: Seq<Item>)
    ensures
        items_nodes(s).len() == s.len(),
        forall|i: int| 0 <= i < s.len() ==> #[trigger] items_nodes(s)[i] == item_node(s[i]),
    decreases s.len(),
{
    if s.len() > 0 {
        lemma_items_nodes(s.drop_last());
    }
}

/// Looking up the entry at line `k`, counting the line of `d` as 0: the
/// entry when there is one (never `d` itself), else how many lines the tree
/// under `d` shows.
fn find_in(d: &Directory, k: usize) -> (r: Result<&Item, usize>)
    requires
        k >= 1,
    ensures
        match r {
            Ok(it) => k < node_visible(dir_node(*d)).len() && item_node(*it) == node_visible(
                dir_node(*d),
            )[k as int],
            Err(n) => k >= node_visible(dir_node(*d)).len() && n == node_visible(dir_node(*d)).len(),
        },
    decreases *d,
{
    if !d.expanded {
        return Err(1);
    }
    match &d.items {
        None => Err(1),
        Some(items) => {
            let ghost s = items_nodes(items@);
            proof {
                lemma_items_nodes(items@);
                assert(node_visible(dir_node(*d)) == seq![dir_node(*d)] + nodes_visible(s));
            }
            let target = k - 1;
            let mut offset: usize = 0;
            let mut j: usize = 0;
            assert(s.take(0) =~= Seq::<Node>::empty());
            while j < items.len()
                invariant
                    s == items_nodes(items@),
                    s.len() == items@.len(),
                    forall|i: int| 0 <= i < s.len() ==> #[trigger] s[i] == item_node(items@[i]),
                    node_visible(dir_node(*d)) == seq![dir_node(*d)] + nodes_visible(s),
                    0 <= j <= items@.len(),
                    offset == nodes_visible(s.take(j as int)).len(),
                    offset <= target,
                    d.items == Some(*items),
                    target == k - 1,
                decreases items@.len() - j,
            {
                proof {
                    lemma_nodes_visible_split(s, j as int);
                }
                let it = &items[j];
                match it {
                    Item::File(_) => {
                        if offset == target {
                            return Ok(it);
                        }
                        offset = offset + 1;
                    },
                    Item::Directory(sub) => {
                        assert(decreases_to!(*d => *sub)) by {
                            assert(decreases_to!(*d => d.items));
                            assert(decreases_to!(*items => items@));
                            assert(decreases_to!(items@ => items@[j as int]));
                        }
                        let rel = target - offset;
                        if rel == 0 {
                            return Ok(it);
                        }
                        match find_in(sub, rel) {
                            Ok(found) => {
                                return Ok(found);
                            },
                            Err(n) => {
                                offset = offset + n;
                            },
                        }
                    },
                }
                j += 1;
            }
            proof {
                assert(s.take(s.len() as int) =~= s);
            }
            Err(offset + 1)
        },
    }
}

proof fn lemma_items_nodes_update(s: Seq<Item>, j: int, x: Item)
    requires
        0 <= j < s.len(),
    ensures
        items_nodes(s.update(j, x)) == items_nodes(s).update(j, item_node(x)),
{
    lemma_items_nodes(s);
    lemma_items_nodes(s.update(j, x));
    assert(items_nodes(s.update(j, x)) =~= items_nodes(s).update(j, item_node(x)));
}

/// `locate` finds the entry that holds a line.
proof fn lemma_locate(s: Seq<Node>, j: int, k: nat)
    requires
        0 <= j < s.len(),
        nodes_visible(s.take(j)).len() <= k < nodes_visible(s.take(j)).len() + node_visible(
            s[j],
        ).len(),
    ensures
        locate(s, k) == j,
    decreases s.len(),
{
    lemma_nodes_visible_split(s, j);
    if j < s.len() - 1 {
        let t = s.drop_last();
        assert(t.take(j) =~= s.take(j));
        assert(t[j] == s[j]);
        lemma_nodes_visible_split(t, j);
        assert(k < nodes_visible(t).len());
        lemma_locate(t, j, k);
    } else {
        assert(s.take(j) =~= s.drop_last());
    }
}

/// A line of what `s` shows lies in the entry `locate` picks.
proof fn lemma_locate_bounds(s: Seq<Node>, k: nat)
    requires
        k < nodes_visible(s).len(),
    ensures
        0 <= locate(s, k) < s.len(),
        nodes_visible(s.take(locate(s, k))).len() <= k < nodes_visible(s.take(locate(s, k))).len()
            + node_visible(s[locate(s, k)]).len(),
    decreases s.len(),
{
    let t = s.drop_last();
    if k < nodes_visible(t).len() {
        lemma_locate_bounds(t, k);
        let j = locate(t, k);
        assert(s.take(j) =~= t.take(j));
        assert(t[j] == s[j]);
    } else {
        assert(s.take(s.len() - 1) =~= t);
    }
}

/// Line `k` is still there after the entry at line `k` is opened or closed.
proof fn lemma_toggle_keeps_line(n: Node, k: nat)
    requires
        k < node_visible(n).len(),
    ensures
        k < node_visible(edited(n, k, NodeEdit::Toggle)).len(),
    decreases n,
{
    if k > 0 {
        match n {
            Node::Dir { name, path, expanded, items, status } => {
                let s = items->0;
                lemma_locate_bounds(s, (k - 1) as nat);
                let j = locate(s, (k - 1) as nat);
                let rel = (k - 1 - nodes_visible(s.take(j)).len()) as nat;
                lemma_toggle_keeps_line(s[j], rel);
                let s1 = s.update(j, edited(s[j], rel, NodeEdit::Toggle));
                lemma_nodes_visible_split(s1, j);
                assert(s1.take(j) =~= s.take(j));
            },
            Node::File { .. } => {},
        }
    }
}

/// Activating a line (`o`, `O`, `i` or `a`): on a file it opens that file's
/// path and changes nothing in the tree; on a directory it opens no file and
/// the highlight and focus stay where they are; on the root's line (or past
/// the last line) it does nothing at all. Any other action opens nothing.
pub proof fn lemma_activation(t: TreeState, action: Action)
    ensures
        is_activation(action) ==> match entry_at(t.root, t.active) {
            Some(Node::File { path, .. }) => opened_by(t, action) == Some(path) && tree_after(t, action) == t,
            Some(Node::Dir { .. }) => opened_by(t, action) is None && tree_after(t, action).active == t.active
                && tree_after(t, action).focused == t.focused,
            None => opened_by(t, action) is None && tree_after(t, action) == t,
        },
        t.active == 0 ==> opened_by(t, action) is None,
        !is_activation(action) ==> opened_by(t, action) is None,
{
}

/// The tree always shows at least its root's line.
pub proof fn lemma_root_line(root: Node)
    ensures
        line_count(root) >= 1,
        node_visible(root)[0] == root,
{
    match root {
        Node::Dir { expanded, items, .. } => {
            if expanded {
                match items {
                    Some(s) => assert((seq![root] + nodes_visible(s))[0] == root),
                    None => {},
                }
            }
        },
        Node::File { .. } => {},
    }
}

/// Moving the highlight: up goes one line up (staying on the first line),
/// down one line down (staying on the last), to the start goes to the first
/// line and to the end to the last; whatever the count, the tree itself and
/// its focus stay as they are.
pub proof fn lemma_highlight_moves(t: TreeState, count: Option<u32>)
    ensures
        ({
            let n = line_count(t.root);
            let up = tree_after(t, Action::Move { count, m: Move::Single(Direction::Up) });
            let down = tree_after(t, Action::Move { count, m: Move::Single(Direction::Down) });
            let start = tree_after(t, Action::Move { count, m: Move::FileStart });
            let end = tree_after(t, Action::Move { count, m: Move::FileEnd });
            &&& t.active > 0 ==> up.active == t.active - 1
            &&& t.active == 0 ==> up.active == 0
            &&& t.active + 1 <= n - 1 ==> down.active == t.active + 1
            &&& t.active + 1 > n - 1 ==> down.active == n - 1
            &&& start.active == 0
            &&& end.active == n - 1
            &&& up.root == t.root && down.root == t.root && start.root == t.root && end.root == t.root
            &&& up.focused == t.focused && down.focused == t.focused
        }),
{
    lemma_root_line(t.root);
}

/// Opening or closing the entry at a line twice gives the tree back.
pub proof fn lemma_toggle_twice(n: Node, k: nat)
    ensures
        edited(edited(n, k, NodeEdit::Toggle), k, NodeEdit::Toggle) == n,
    decreases n,
{
    match n {
        Node::Dir { name, path, expanded, items, status } => {
            if k == 0 {
            } else if expanded && items is Some && k < node_visible(n).len() {
                let s = items->0;
                lemma_locate_bounds(s, (k - 1) as nat);
                let j = locate(s, (k - 1) as nat);
                let rel = (k - 1 - nodes_visible(s.take(j)).len()) as nat;
                let c1 = edited(s[j], rel, NodeEdit::Toggle);
                let s1 = s.update(j, c1);
                lemma_toggle_keeps_line(s[j], rel);
                lemma_nodes_visible_split(s1, j);
                assert(s1.take(j) =~= s.take(j));
                assert(s1[j] == c1);
                lemma_locate(s1, j, (k - 1) as nat);
                lemma_toggle_twice(s[j], rel);
                assert(s1.update(j, s[j]) =~= s);
            }
        },
        Node::File { .. } => {},
    }
}

/// Which entry of `d` holds line `k` of the tree under `d` (line 0 being
/// `d`), and the line inside that entry; past the end, how many lines the
/// tree under `d` shows.
fn locate_child(d: &Directory, k: usize) -> (r: Result<(usize, usize), usize>)
    requires
        k >= 1,
    ensures
        match r {
            Ok((j, rel)) => {
                &&& d.expanded
                &&& d.items is Some
                &&& j < d.items->0@.len()
                &&& k < node_visible(dir_node(*d)).len()
                &&& locate(items_nodes(d.items->0@), (k - 1) as nat) == j
                &&& nodes_visible(items_nodes(d.items->0@).take(j as int)).len() + rel == k - 1
                &&& rel < node_visible(item_node(d.items->0@[j as int])).len()
            },
            Err(n) => k >= node_visible(dir_node(*d)).len() && n == node_visible(dir_node(*d)).len(),
        },
{
    if !d.expanded {
        return Err(1);
    }
    match &d.items {
        None => Err(1),
        Some(items) => {
            let ghost s = items_nodes(items@);
            proof {
                lemma_items_nodes(items@);
                assert(node_visible(dir_node(*d)) == seq![dir_node(*d)] + nodes_visible(s));
            }
            let target = k - 1;
            let mut offset: usize = 0;
            let mut j: usize = 0;
            assert(s.take(0) =~= Seq::<Node>::empty());
            while j < items.len()
                invariant
                    s == items_nodes(items@),
                    s.len() == items@.len(),
                    forall|i: int| 0 <= i < s.len() ==> #[trigger] s[i] == item_node(items@[i]),
                    node_visible(dir_node(*d)) == seq![dir_node(*d)] + nodes_visible(s),
                    0 <= j <= items@.len(),
                    offset == nodes_visible(s.take(j as int)).len(),
                    offset <= target,
                    d.items == Some(*items),
                    d.expanded,
                    target == k - 1,
                decreases items@.len() - j,
            {
                proof {
                    lemma_nodes_visible_split(s, j as int);
                }
                let rel = target - offset;
                match &items[j] {
                    Item::File(_) => {
                        if rel == 0 {
                            proof {
                                lemma_locate(s, j as int, target as nat);
                            }
                            return Ok((j, 0));
                        }
                        offset = offset + 1;
                    },
                    Item::Directory(sub) => {
                        if rel == 0 {
                            proof {
                                lemma_locate(s, j as int, target as nat);
                            }
                            return Ok((j, 0));
                        }
                        match find_in(sub, rel) {
                            Ok(_) => {
                                proof {
                                    lemma_locate(s, j as int, target as nat);
                                }
                                return Ok((j, rel));
                            },
                            Err(n) => {
                                offset = offset + n;
                            },
                        }
                    },
                }
                j += 1;
            }
            proof {
                assert(s.take(s.len() as int) =~= s);
            }
            Err(offset + 1)
        },
    }
}

/// A change to one directory of the tree (see `NodeEdit`).
pub enum DirEdit {
    Toggle,
    Expand,
    Fill(Vec<Item>),
}

impl DirEdit {
    pub open spec fn node_edit(self) -> NodeEdit {
        match self {
            DirEdit::Toggle => NodeEdit::Toggle,
            DirEdit::Expand => NodeEdit::Expand,
            DirEdit::Fill(v) => NodeEdit::Fill(items_nodes(v@)),
        }
    }
}

/// Does `e` to the entry at line `k` of the tree under `d`, line 0 being `d`
/// (a file there is left alone); past the end, leaves the tree alone and
/// gives how many lines it shows.
fn edit_in(d: &mut Directory, k: usize, e: DirEdit) -> (r: Result<(), usize>)
    ensures
        match r {
            Ok(_) => k < node_visible(dir_node(*old(d))).len() && dir_node(*final(d)) == edited(
                dir_node(*old(d)),
                k as nat,
                e.node_edit(),
            ),
            Err(n) => k >= node_visible(dir_node(*old(d))).len() && n == node_visible(
                dir_node(*old(d)),
            ).len() && *final(d) == *old(d),
        },
    decreases *old(d),
{
    proof {
        assert(node_visible(dir_node(*d))[0] == dir_node(*d));
    }
    if k == 0 {
        match e {
            DirEdit::Toggle => {
                d.expanded = !d.expanded;
            },
            DirEdit::Expand => {
                d.expanded = true;
            },
            DirEdit::Fill(items) => {
                d.items = Some(items);
            },
        }
        return Ok(());
    }
    let (j, rel) = match locate_child(d, k) {
        Ok(found) => found,
        Err(n) => {
            return Err(n);
        },
    };
    let ghost d0 = *d;
    let ghost v0 = d0.items->0@;
    let ghost s = items_nodes(v0);
    proof {
        lemma_items_nodes(v0);
        assert(s[j as int] == item_node(v0[j as int]));
    }
    let is_file = match &d.items {
        Some(items) => match &items[j] {
            Item::File(_) => true,
            Item::Directory(_) => false,
        },
        None => true,
    };
    if is_file {
        proof {
            assert(v0[j as int] is File);
            assert(s[j as int] is File);
            assert(edited(s[j as int], rel as nat, e.node_edit()) == s[j as int]);
            assert(s.update(j as int, s[j as int]) =~= s);
            let n = dir_node(d0);
            assert(n is Dir);
            assert(n->Dir_items == Some(s));
            assert(edited(n, k as nat, e.node_edit()) == n);
        }
        return Ok(());
    }
    match &mut d.items {
        Some(items) => {
            let ghost vec0 = *items;
            assert(vec0@ == v0);
            match &mut items[j] {
                Item::Directory(sub) => {
                    assert(decreases_to!(d0 => *sub)) by {
                        assert(decreases_to!(d0 => d0.items));
                        assert(decreases_to!(d0.items => d0.items->0));
                        assert(decreases_to!(vec0 => vec0@));
                        assert(decreases_to!(vec0@ => vec0@[j as int]));
                        assert(decreases_to!(vec0@[j as int] => vec0@[j as int]->Directory_0));
                    }
                    let res = edit_in(sub, rel, e);
                    proof {
                        assert(res is Ok);
                    }
                },
                Item::File(_) => {},
            }
            proof {
                lemma_items_nodes_update(v0, j as int, items@[j as int]);
            }
        },
        None => {},
    }
    Ok(())
}

/// `n` is an open directory that has not been read yet.
pub open spec fn unfilled(n: Node) -> bool {
    match n {
        Node::Dir { expanded, items, .. } => expanded && items is None,
        Node::File { .. } => false,
    }
}

/// The first line of the tree under `d` (line 0 being `d`) that shows an
/// open directory not read yet; when there is none, how many lines the tree
/// shows.
fn first_unfilled_in(d: &Directory) -> (r: Result<usize, usize>)
    requires
        node_visible(dir_node(*d)).len() <= usize::MAX,
    ensures
        match r {
            Ok(i) => i < node_visible(dir_node(*d)).len() && unfilled(node_visible(dir_node(*d))[i as int])
                && forall|m: int| 0 <= m < i ==> !unfilled(#[trigger] node_visible(dir_node(*d))[m]),
            Err(n) => n == node_visible(dir_node(*d)).len() && forall|m: int|
                0 <= m < n ==> !unfilled(#[trigger] node_visible(dir_node(*d))[m]),
        },
    decreases *d,
{
    proof {
        assert(node_visible(dir_node(*d))[0] == dir_node(*d));
    }
    if !d.expanded {
        return Err(1);
    }
    match &d.items {
        None => Ok(0),
        Some(items) => {
            let ghost s = items_nodes(items@);
            let ghost vis = node_visible(dir_node(*d));
            proof {
                lemma_items_nodes(items@);
                assert(vis == seq![dir_node(*d)] + nodes_visible(s));
                assert(s.take(0) =~= Seq::<Node>::empty());
            }
            let mut offset: usize = 1;
            let mut j: usize = 0;
            while j < items.len()
                invariant
                    s == items_nodes(items@),
                    s.len() == items@.len(),
                    forall|i: int| 0 <= i < s.len() ==> #[trigger] s[i] == item_node(items@[i]),
                    vis == node_visible(dir_node(*d)),
                    vis == seq![dir_node(*d)] + nodes_visible(s),
                    vis.len() <= usize::MAX,
                    d.items == Some(*items),
                    0 <= j <= items@.len(),
                    offset == 1 + nodes_visible(s.take(j as int)).len(),
                    forall|m: int| 0 <= m < offset ==> !unfilled(#[trigger] vis[m]),
                decreases items@.len() - j,
            {
                proof {
                    lemma_nodes_visible_split(s, j as int);
                }
                match &items[j] {
                    Item::File(_) => {
                        proof {
                            assert(vis[offset as int] == node_visible(s[j as int])[0]);
                        }
                        offset = offset + 1;
                    },
                    Item::Directory(sub) => {
                        assert(decreases_to!(*d => *sub)) by {
                            assert(decreases_to!(*d => d.items));
                            assert(decreases_to!(d.items => d.items->0));
                            assert(decreases_to!(*items => items@));
                            assert(decreases_to!(items@ => items@[j as int]));
                        }
                        match first_unfilled_in(sub) {
                            Ok(i) => {
                                proof {
                                    assert(vis[offset + i] == node_visible(s[j as int])[i as int]);
                                    assert forall|m: int| 0 <= m < offset + i implies !unfilled(
                                        #[trigger] vis[m],
                                    ) by {
                                        if m >= offset {
                                            assert(vis[m] == node_visible(s[j as int])[m - offset]);
                                        }
                                    }
                                }
                                return Ok(offset + i);
                            },
                            Err(n) => {
                                proof {
                                    assert forall|m: int| 0 <= m < offset + n implies !unfilled(
                                        #[trigger] vis[m],
                                    ) by {
                                        if m >= offset {
                                            assert(vis[m] == node_visible(s[j as int])[m - offset]);
                                        }
                                    }
                                }
                                offset = offset + n;
                            },
                        }
                    },
                }
                j += 1;
            }
            proof {
                assert(s.take(s.len() as int) =~= s);
            }
            Err(offset)
        },
    }
}

// ---------------------------------------------------------------------------
// Entries reached by their indices
// ---------------------------------------------------------------------------

/// The node reached from `n` by entering, in turn, the entries numbered
/// `path` (each in the directory reached so far).
pub open spec fn node_at(n: Node, path: Seq<usize>) -> Option<Node>
    decreases path.len(),
{
    if path.len() == 0 {
        Some(n)
    } else {
        match n {
            Node::Dir { items, .. } => match items {
                Some(s) => if path[0] < s.len() {
                    node_at(s[path[0] as int], path.drop_first())
                } else {
                    None
                },
                None => None,
            },
            Node::File { .. } => None,
        }
    }
}

/// `n` with `e` done to the node at `path` (unchanged when there is none).
pub open spec fn edit_at(n: Node, path: Seq<usize>, e: NodeEdit) -> Node
    decreases path.len(),
{
    if path.len() == 0 {
        apply_edit(n, e)
    } else {
        match n {
            Node::Dir { name, path: p, expanded, items, status } => match items {
                Some(s) => if path[0] < s.len() {
                    Node::Dir {
                        name,
                        path: p,
                        expanded,
                        items: Some(s.update(path[0] as int, edit_at(s[path[0] as int], path.drop_first(), e))),
                        status,
                    }
                } else {
                    n
                },
                None => n,
            },
            Node::File { .. } => n,
        }
    }
}

/// The directory reached from `d` by the entries `path[from..]`.
fn dir_at<'a>(d: &'a Directory, path: &Vec<usize>, from: usize) -> (r: Option<&'a Directory>)
    requires
        from <= path@.len(),
    ensures
        match r {
            Some(x) => node_at(dir_node(*d), path@.skip(from as int)) == Some(dir_node(*x)),
            None => match node_at(dir_node(*d), path@.skip(from as int)) {
                Some(n) => n is File,
                None => true,
            },
        },
    decreases path@.len() - from,
{
    if from == path.len() {
        return Some(d);
    }
    proof {
        assert(path@.skip(from as int).drop_first() =~= path@.skip(from + 1));
        assert(path@.skip(from as int)[0] == path@[from as int]);
    }
    match &d.items {
        None => None,
        Some(items) => {
            let i = path[from];
            proof {
                lemma_items_nodes(items@);
            }
            if i >= items.len() {
                return None;
            }
            match &items[i] {
                Item::Directory(sub) => dir_at(sub, path, from + 1),
                Item::File(_) => {
                    proof {
                        if from + 1 < path@.len() {
                            assert(node_at(item_node(items@[i as int]), path@.skip(from + 1)) is None);
                        }
                    }
                    None
                },
            }
        },
    }
}

/// Does `e` to the directory reached from `d` by the entries `path[from..]`
/// (nothing when there is no directory there).
fn edit_path(d: &mut Directory, path: &Vec<usize>, from: usize, e: DirEdit)
    requires
        from <= path@.len(),
    ensures
        dir_node(*final(d)) == edit_at(dir_node(*old(d)), path@.skip(from as int), e.node_edit()),
    decreases path@.len() - from,
{
    if from == path.len() {
        match e {
            DirEdit::Toggle => {
                d.expanded = !d.expanded;
            },
            DirEdit::Expand => {
                d.expanded = true;
            },
            DirEdit::Fill(items) => {
                d.items = Some(items);
            },
        }
        return;
    }
    proof {
        assert(path@.skip(from as int).drop_first() =~= path@.skip(from + 1));
        assert(path@.skip(from as int)[0] == path@[from as int]);
    }
    let ghost d0 = *d;
    let i = path[from];
    match &mut d.items {
        None => {},
        Some(items) => {
            let ghost v0 = items@;
            proof {
                lemma_items_nodes(v0);
            }
            if i < items.len() {
                match &mut items[i] {
                    Item::Directory(sub) => {
                        edit_path(sub, path, from + 1, e);
                    },
                    Item::File(_) => {},
                }
                proof {
                    lemma_items_nodes_update(v0, i as int, items@[i as int]);
                    if v0[i as int] is File {
                        assert(edit_at(item_node(v0[i as int]), path@.skip(from + 1), e.node_edit())
                            == item_node(v0[i as int])) by {
                            if path@.skip(from + 1).len() == 0 {
                            }
                        }
                    }
                }
            }
        },
    }
}

// ---------------------------------------------------------------------------
// Entries
// ---------------------------------------------------------------------------

impl Directory {
    /// A directory not read yet, closed, of unknown status.
    pub fn new(name: String, path: std::path::PathBuf) -> (r: Directory)
        ensures
            r.name == name,
            r.path == path,
            r.items is None,
            !r.expanded,
            r.status is None,
    {
        Directory { name, path, items: None, expanded: false, status: None }
    }

    /// How many lines the tree under the directory shows, its own first.
    pub fn len_visible(&self) -> (r: usize)
        requires
            node_visible(dir_node(*self)).len() <= usize::MAX,
        ensures
            r == node_visible(dir_node(*self)).len(),
        decreases *self,
    {
        if !self.expanded {
            return 1;
        }
        match &self.items {
            None => 1,
            Some(items) => {
                let ghost s = items_nodes(items@);
                proof {
                    lemma_items_nodes(items@);
                    assert(node_visible(dir_node(*self)) == seq![dir_node(*self)] + nodes_visible(s));
                    assert(s.take(0) =~= Seq::<Node>::empty());
                }
                let mut sum: usize = 0;
                let mut j: usize = 0;
                while j < items.len()
                    invariant
                        s == items_nodes(items@),
                        s.len() == items@.len(),
                        forall|i: int| 0 <= i < s.len() ==> #[trigger] s[i] == item_node(items@[i]),
                        node_visible(dir_node(*self)) == seq![dir_node(*self)] + nodes_visible(s),
                        node_visible(dir_node(*self)).len() <= usize::MAX,
                        self.items == Some(*items),
                        0 <= j <= items@.len(),
                        sum == nodes_visible(s.take(j as int)).len(),
                    decreases items@.len() - j,
                {
                    proof {
                        lemma_nodes_visible_split(s, j as int);
                    }
                    assert(decreases_to!(*self => items@[j as int])) by {
                        assert(decreases_to!(*self => self.items));
                        assert(decreases_to!(self.items => self.items->0));
                        assert(decreases_to!(*items => items@));
                    }
                    sum = sum + items[j].visible_len();
                    j += 1;
                }
                proof {
                    assert(s.take(s.len() as int) =~= s);
                }
                sum + 1
            },
        }
    }
}

impl Item {
    /// The entry's name.
    pub fn name(&self) -> (r: &String)
        ensures
            r == match *self {
                Item::Directory(d) => d.name,
                Item::File(f) => f.name,
            },
    {
        match self {
            Item::Directory(d) => &d.name,
            Item::File(f) => &f.name,
        }
    }

    /// How many lines the entry shows.
    pub fn visible_len(&self) -> (r: usize)
        requires
            node_visible(item_node(*self)).len() <= usize::MAX,
        ensures
            r == node_visible(item_node(*self)).len(),
        decreases *self,
    {
        match self {
            Item::Directory(d) => {
                assert(decreases_to!(*self => *d));
                d.len_visible()
            },
            Item::File(_) => 1,
        }
    }

    /// The entry's status, unchanged until one is known.
    pub fn status(&self) -> (r: FileStatus)
        ensures
            r == node_status(item_node(*self)),
    {
        match self {
            Item::Directory(d) => match d.status {
                Some(s) => s,
                None => FileStatus::Unchanged,
            },
            Item::File(f) => match f.status {
                Some(s) => s,
                None => FileStatus::Unchanged,
            },
        }
    }
}

// ---------------------------------------------------------------------------
// The tree view
// ---------------------------------------------------------------------------

/// What the file tree looks like: the tree from its root directory, whether
/// it has the focus, and the highlighted line (the root's being 0).
pub struct TreeState {
    pub root: Node,
    pub focused: bool,
    pub active: nat,
}

/// The number of lines the tree shows.
pub open spec fn line_count(root: Node) -> nat {
    node_visible(root).len()
}

/// The entry at line `i`, when there is one; the root's line holds none.
pub open spec fn entry_at(root: Node, i: nat) -> Option<Node> {
    if 1 <= i < line_count(root) {
        Some(node_visible(root)[i as int])
    } else {
        None
    }
}

/// Whether line `i` holds an entry that changed.
pub open spec fn changed_at(root: Node, i: nat) -> bool {
    match entry_at(root, i) {
        Some(n) => is_change(node_status(n)),
        None => false,
    }
}

/// The line reached from `i` going down to the next changed entry, or to
/// the last line when there is none.
pub open spec fn next_change(root: Node, i: nat) -> nat
    decreases line_count(root) - i,
{
    if i + 1 >= line_count(root) {
        i
    } else if changed_at(root, i + 1) {
        i + 1
    } else {
        next_change(root, i + 1)
    }
}

/// The line reached from `i` going up to the previous changed entry, or to
/// the first line when there is none.
pub open spec fn prev_change(root: Node, i: nat) -> nat
    decreases i,
{
    if i == 0 {
        0
    } else if changed_at(root, (i - 1) as nat) {
        (i - 1) as nat
    } else {
        prev_change(root, (i - 1) as nat)
    }
}

/// Whether `action` acts on the highlighted entry: opens a file or opens or
/// closes a directory.
pub open spec fn is_activation(action: Action) -> bool {
    match action {
        Action::Append { .. } => true,
        Action::SetMode { mode: Mode::Insert, .. } => true,
        _ => false,
    }
}

/// The tree after `action`.
pub open spec fn tree_after(t: TreeState, action: Action) -> TreeState {
    let n = line_count(t.root);
    match action {
        Action::Move { m, .. } => match m {
            Move::Single(Direction::Up) => TreeState {
                active: if t.active > 0 { (t.active - 1) as nat } else { 0 },
                ..t
            },
            Move::Single(Direction::Down) => TreeState {
                active: if t.active + 1 < n - 1 { t.active + 1 } else { (n - 1) as nat },
                ..t
            },
            Move::FileStart => TreeState { active: 0, ..t },
            Move::FileEnd => TreeState { active: (n - 1) as nat, ..t },
            Move::Change(ChangeDirection::Next) => TreeState {
                active: next_change(t.root, t.active),
                ..t
            },
            Move::Change(ChangeDirection::Prev) => TreeState {
                active: prev_change(t.root, t.active),
                ..t
            },
            _ => t,
        },
        _ => if is_activation(action) {
            match entry_at(t.root, t.active) {
                Some(Node::Dir { .. }) => TreeState {
                    root: edited(t.root, t.active, NodeEdit::Toggle),
                    ..t
                },
                _ => t,
            }
        } else {
            t
        },
    }
}

/// The file `action` opens: the highlighted entry's path when it is a file.
pub open spec fn opened_by(t: TreeState, action: Action) -> Option<std::path::PathBuf> {
    if is_activation(action) {
        match entry_at(t.root, t.active) {
            Some(Node::File { path, .. }) => Some(path),
            _ => None,
        }
    } else {
        None
    }
}

/// The name of an entry.
pub open spec fn node_name(n: Node) -> Seq<char> {
    match n {
        Node::Dir { name, .. } => name,
        Node::File { name, .. } => name,
    }
}

/// The first entry of `s` from `from` on named `name`.
pub open spec fn find_name(s: Seq<Node>, name: Seq<char>, from: int) -> Option<int>
    decreases s.len() - from,
{
    if from < 0 || from >= s.len() {
        None
    } else if node_name(s[from]) == name {
        Some(from)
    } else {
        find_name(s, name, from + 1)
    }
}

/// How opening a path has got on: the entries entered from the root, and
/// the line to highlight when it ends.
pub struct Walk {
    pub dirs: Seq<usize>,
    pub line: nat,
}

/// What taking one more component of a path does.
pub enum OpenStep {
    /// A directory was entered and opened: it must be read now.
    Entered,
    /// The path leads nowhere here: opening it ends, nothing highlighted.
    Stopped,
    /// The path ends at a file: its line can be highlighted.
    ReachedFile,
}

/// The tree, the walk and the step after taking component `component`
/// (`None` for one that is not a plain name) of the path being opened;
/// `last` when it is the last. A line number past `usize::MAX` stops the
/// walk.
pub open spec fn open_step_spec(t: TreeState, w: Walk, component: Option<Seq<char>>, last: bool) -> (TreeState, Walk, OpenStep) {
    match component {
        None => (t, w, OpenStep::Stopped),
        Some(name) => match node_at(t.root, w.dirs) {
            Some(Node::Dir { items: Some(s), .. }) => match find_name(s, name, 0) {
                None => (t, w, OpenStep::Stopped),
                Some(i) => if w.line + i + 1 > usize::MAX {
                    (t, w, OpenStep::Stopped)
                } else {
                    let line = (w.line + i + 1) as nat;
                    match s[i] {
                        Node::Dir { .. } => (
                            TreeState { root: edit_at(t.root, w.dirs.push(i as usize), NodeEdit::Expand), ..t },
                            Walk { dirs: w.dirs.push(i as usize), line },
                            OpenStep::Entered,
                        ),
                        Node::File { .. } => if last {
                            (t, Walk { line, ..w }, OpenStep::ReachedFile)
                        } else {
                            (t, w, OpenStep::Stopped)
                        },
                    }
                },
            },
            _ => (t, w, OpenStep::Stopped),
        },
    }
}

/// Where opening a path has got to (see `Walk`).
pub struct OpenWalk {
    dirs: Vec<usize>,
    line: usize,
}

impl View for OpenWalk {
    type V = Walk;

    closed spec fn view(&self) -> Walk {
        Walk { dirs: self.dirs@, line: self.line as nat }
    }
}

/// A copy of `p` (`PathBuf::clone`).
#[verifier::external_body]
fn clone_path(p: &std::path::PathBuf) -> (r: std::path::PathBuf)
    ensures
        r == *p,
{
    p.clone()
}

/// The file tree of the window.
pub struct FileTree {
    tree: Directory,
    focused: bool,
    active: usize,
}

impl View for FileTree {
    type V = TreeState;

    closed spec fn view(&self) -> TreeState {
        TreeState { root: dir_node(self.tree), focused: self.focused, active: self.active as nat }
    }
}

impl FileTree {
    /// A tree of the directory `name` at `path`, open, not read yet, with
    /// its line highlighted.
    pub fn new(name: String, path: std::path::PathBuf) -> (r: FileTree)
        ensures
            r@.root == (Node::Dir { name: name@, path, expanded: true, items: None, status: None }),
            !r@.focused,
            r@.active == 0,
    {
        let mut tree = Directory::new(name, path);
        tree.expanded = true;
        FileTree { tree, focused: false, active: 0 }
    }

    /// The root directory.
    pub fn root(&self) -> (r: &Directory)
        ensures
            dir_node(*r) == self@.root,
    {
        &self.tree
    }

    /// The highlighted line.
    pub fn active(&self) -> (r: usize)
        ensures
            r == self@.active,
    {
        self.active
    }

    /// Whether the tree has the focus.
    pub fn focused(&self) -> (r: bool)
        ensures
            r == self@.focused,
    {
        self.focused
    }

    /// Gives the tree the focus, or takes it away.
    pub fn on_focus(&mut self, focus: bool)
        ensures
            final(self)@ == (TreeState { focused: focus, ..old(self)@ }),
    {
        self.focused = focus;
    }

    /// The entry at line `index`, when there is one (the root's line holds
    /// none).
    pub fn line(&self, index: usize) -> (r: Option<&Item>)
        ensures
            match r {
                Some(it) => entry_at(self@.root, index as nat) == Some(item_node(*it)),
                None => entry_at(self@.root, index as nat) is None,
            },
    {
        if index == 0 {
            return None;
        }
        match find_in(&self.tree, index) {
            Ok(it) => Some(it),
            Err(_) => None,
        }
    }

    /// Whether the highlighted entry changed.
    fn active_changed(&self) -> (r: bool)
        ensures
            r == changed_at(self@.root, self@.active),
    {
        match self.line(self.active) {
            Some(it) => it.status().is_change(),
            None => false,
        }
    }

    /// Moves the highlight in direction `dir` until it reaches a changed
    /// entry or the end.
    fn move_until(&mut self, dir: ChangeDirection)
        requires
            line_count(old(self)@.root) <= usize::MAX,
            dir == ChangeDirection::Next ==> old(self)@.active < line_count(old(self)@.root),
        ensures
            final(self)@ == (TreeState {
                active: match dir {
                    ChangeDirection::Next => next_change(old(self)@.root, old(self)@.active),
                    ChangeDirection::Prev => prev_change(old(self)@.root, old(self)@.active),
                },
                ..old(self)@
            }),
    {
        let last = self.tree.len_visible() - 1;
        let ghost root = self@.root;
        let ghost target = match dir {
            ChangeDirection::Next => next_change(root, self.active as nat),
            ChangeDirection::Prev => prev_change(root, self.active as nat),
        };
        match dir {
            ChangeDirection::Next => {
                while self.active != last
                    invariant_except_break
                        next_change(root, self.active as nat) == target,
                    invariant
                        self.tree == old(self).tree,
                        self.focused == old(self).focused,
                        root == self@.root,
                        last == line_count(root) - 1,
                        self.active <= last,
                    ensures
                        self.tree == old(self).tree,
                        self.focused == old(self).focused,
                        self.active == target,
                    decreases last - self.active,
                {
                    let ghost before = self.active as nat;
                    self.active += 1;
                    if self.active_changed() {
                        assert(next_change(root, before) == self.active);
                        break;
                    }
                }
            },
            ChangeDirection::Prev => {
                while self.active != 0
                    invariant_except_break
                        prev_change(root, self.active as nat) == target,
                    invariant
                        self.tree == old(self).tree,
                        self.focused == old(self).focused,
                        root == self@.root,
                    ensures
                        self.tree == old(self).tree,
                        self.focused == old(self).focused,
                        self.active == target,
                    decreases self.active,
                {
                    let ghost before = self.active as nat;
                    self.active -= 1;
                    if self.active_changed() {
                        assert(prev_change(root, before) == self.active);
                        break;
                    }
                }
            },
        }
    }

    /// The first line that shows an open directory not read yet.
    pub fn first_unpopulated(&self) -> (r: Option<usize>)
        requires
            line_count(self@.root) <= usize::MAX,
        ensures
            match r {
                Some(i) => i < line_count(self@.root) && unfilled(node_visible(self@.root)[i as int])
                    && forall|m: int| 0 <= m < i ==> !unfilled(#[trigger] node_visible(self@.root)[m]),
                None => forall|m: int|
                    0 <= m < line_count(self@.root) ==> !unfilled(#[trigger] node_visible(self@.root)[m]),
            },
    {
        match first_unfilled_in(&self.tree) {
            Ok(i) => Some(i),
            Err(_) => None,
        }
    }

    /// Gives the directory at line `index` the entries read from disk, in
    /// listing order (a file there, or a line past the end, is left alone).
    pub fn populate(&mut self, index: usize, items: Vec<Item>)
        ensures
            exists|sorted: Seq<Item>|
                sorted.to_multiset() == items@.to_multiset() && crate::gui::order::entries_sorted(sorted)
                    && final(self)@ == (TreeState {
                    root: edited(old(self)@.root, index as nat, NodeEdit::Fill(items_nodes(sorted))),
                    ..old(self)@
                }),
    {
        let mut items = items;
        crate::gui::order::sort_entries(&mut items);
        let ghost sorted = items@;
        let _ = edit_in(&mut self.tree, index, DirEdit::Fill(items));
        assert(final(self)@ == (TreeState {
            root: edited(old(self)@.root, index as nat, NodeEdit::Fill(items_nodes(sorted))),
            ..old(self)@
        }));
    }

    /// Starts opening a path: at the root, nothing counted yet.
    pub fn open_start(&self) -> (w: OpenWalk)
        ensures
            w@ == (Walk { dirs: Seq::empty(), line: 0 }),
    {
        OpenWalk { dirs: Vec::new(), line: 0 }
    }

    /// Takes the next component of the path being opened (see
    /// `open_step_spec`): finds the entry of that name in the directory
    /// reached so far; a directory is entered and opened, and must then be
    /// read (`open_fill`); a file ends the path when it is its last
    /// component.
    pub fn open_step(&mut self, walk: &mut OpenWalk, component: Option<&str>, last: bool) -> (r: OpenStep)
        ensures
            (final(self)@, final(walk)@, r) == open_step_spec(
                old(self)@,
                old(walk)@,
                match component {
                    Some(c) => Some(c@),
                    None => None,
                },
                last,
            ),
    {
        let name = match component {
            None => {
                return OpenStep::Stopped;
            },
            Some(c) => c,
        };
        let dir = match dir_at(&self.tree, &walk.dirs, 0) {
            Some(d) => d,
            None => {
                proof {
                    assert(walk.dirs@.skip(0) =~= walk.dirs@);
                }
                return OpenStep::Stopped;
            },
        };
        proof {
            assert(walk.dirs@.skip(0) =~= walk.dirs@);
        }
        let items = match &dir.items {
            None => {
                return OpenStep::Stopped;
            },
            Some(items) => items,
        };
        let ghost s = items_nodes(items@);
        proof {
            lemma_items_nodes(items@);
        }
        let target: String = name.to_owned();
        let mut i: usize = 0;
        while i < items.len()
            invariant
                s == items_nodes(items@),
                s.len() == items@.len(),
                forall|k: int| 0 <= k < s.len() ==> #[trigger] s[k] == item_node(items@[k]),
                0 <= i <= items@.len(),
                target@ == name@,
                find_name(s, name@, 0) == find_name(s, name@, i as int),
            ensures
                0 <= i <= items@.len(),
                find_name(s, name@, 0) == find_name(s, name@, i as int),
                i < items@.len() ==> node_name(s[i as int]) == name@,
            decreases items@.len() - i,
        {
            let n = items[i].name();
            let same = *n == target;
            proof {
                assert(node_name(s[i as int]) == n@);
            }
            if same {
                break;
            }
            i += 1;
        }
        if i == items.len() {
            return OpenStep::Stopped;
        }
        assert(find_name(s, name@, 0) == Some(i as int));
        let is_dir = match &items[i] {
            Item::Directory(_) => true,
            Item::File(_) => false,
        };
        if walk.line > usize::MAX - 1 - i {
            return OpenStep::Stopped;
        }
        let line = walk.line + i + 1;
        if is_dir {
            walk.dirs.push(i);
            edit_path(&mut self.tree, &walk.dirs, 0, DirEdit::Expand);
            proof {
                assert(walk.dirs@.skip(0) =~= walk.dirs@);
            }
            walk.line = line;
            OpenStep::Entered
        } else if last {
            walk.line = line;
            OpenStep::ReachedFile
        } else {
            OpenStep::Stopped
        }
    }

    /// The directory the walk has reached, to be read from disk.
    pub fn open_dir(&self, walk: &OpenWalk) -> (r: Option<&Directory>)
        ensures
            match r {
                Some(d) => node_at(self@.root, walk@.dirs) == Some(dir_node(*d)),
                None => match node_at(self@.root, walk@.dirs) {
                    Some(n) => n is File,
                    None => true,
                },
            },
    {
        proof {
            assert(walk.dirs@.skip(0) =~= walk.dirs@);
        }
        dir_at(&self.tree, &walk.dirs, 0)
    }

    /// Gives the directory the walk has reached the entries read from disk,
    /// in listing order.
    pub fn open_fill(&mut self, walk: &OpenWalk, items: Vec<Item>)
        ensures
            exists|sorted: Seq<Item>|
                sorted.to_multiset() == items@.to_multiset() && crate::gui::order::entries_sorted(sorted)
                    && final(self)@ == (TreeState {
                    root: edit_at(old(self)@.root, walk@.dirs, NodeEdit::Fill(items_nodes(sorted))),
                    ..old(self)@
                }),
    {
        let mut items = items;
        crate::gui::order::sort_entries(&mut items);
        let ghost sorted = items@;
        edit_path(&mut self.tree, &walk.dirs, 0, DirEdit::Fill(items));
        proof {
            assert(walk.dirs@.skip(0) =~= walk.dirs@);
        }
        assert(final(self)@ == (TreeState {
            root: edit_at(old(self)@.root, walk@.dirs, NodeEdit::Fill(items_nodes(sorted))),
            ..old(self)@
        }));
    }

    /// Ends opening a path: the line reached is highlighted.
    pub fn open_finish(&mut self, walk: OpenWalk)
        ensures
            final(self)@ == (TreeState { active: walk@.line, ..old(self)@ }),
    {
        self.active = walk.line;
    }

    /// Does what `action` asks of the tree; gives the path of the file to
    /// open when it opens one.
    pub fn perform_action(&mut self, action: Action) -> (r: Option<std::path::PathBuf>)
        requires
            line_count(old(self)@.root) <= usize::MAX,
            action matches Action::Move { m: Move::Change(ChangeDirection::Next), .. }
                ==> old(self)@.active < line_count(old(self)@.root),
        ensures
            final(self)@ == tree_after(old(self)@, action),
            r == opened_by(old(self)@, action),
    {
        match action {
            Action::Move { m, .. } => {
                match m {
                    Move::Single(Direction::Up) => {
                        if self.active > 0 {
                            self.active = self.active - 1;
                        }
                    },
                    Move::Single(Direction::Down) => {
                        let last = self.tree.len_visible() - 1;
                        if self.active < usize::MAX && self.active + 1 < last {
                            self.active = self.active + 1;
                        } else {
                            self.active = last;
                        }
                    },
                    Move::FileStart => {
                        self.active = 0;
                    },
                    Move::FileEnd => {
                        self.active = self.tree.len_visible() - 1;
                    },
                    Move::Change(dir) => {
                        self.move_until(dir);
                    },
                    _ => {},
                }
                None
            },
            Action::Append { .. } | Action::SetMode { mode: Mode::Insert, .. } => {
                let is_dir = match self.line(self.active) {
                    Some(Item::Directory(_)) => Some(true),
                    Some(Item::File(f)) => {
                        return Some(clone_path(&f.path));
                    },
                    None => None,
                };
                if is_dir == Some(true) {
                    let _ = edit_in(&mut self.tree, self.active, DirEdit::Toggle);
                }
                None
            },
            _ => None,
        }
    }
}

} // verus!
