//! How the window is divided among the views: a tree of splits whose leaves
//! are views.
use vstd::prelude::*;

use crate::gui::ViewId;
use crate::input::Direction;

verus! {

/// The direction along which a split lays out its items.
#[derive(Debug, Clone, Copy, PartialEq, Eq, Structural)]
pub enum Axis {
    Horizontal,
    Vertical,
}

/// A part of the window: one view, or a split into several parts.
pub enum Pane {
    View(ViewId),
    Split(Split),
}

/// Parts laid out one after another along `axis`; `active` is the index of
/// the part that has the focus.
pub struct Split {
    pub axis: Axis,
    pub active: usize,
    pub items: Vec<Pane>,
}

/// The views of `p`, left to right (top to bottom).
pub open spec fn pane_views(p: Pane) -> Seq<ViewId>
    decreases p, 0int,
{
    match p {
        Pane::View(id) => seq![id],
        Pane::Split(s) => items_views(s.items@, s.items@.len() as int),
    }
}

/// The views of the first `n` of `items`, in order.
pub open spec fn items_views(items: Seq<Pane>, n: int) -> Seq<ViewId>
    decreases items, n,
{
    if n <= 0 || n > items.len() {
        Seq::empty()
    } else {
        items_views(items, n - 1) + pane_views(items[n - 1])
    }
}

/// Every split of `p` has its active index among its items.
pub open spec fn pane_wf(p: Pane) -> bool
    decreases p, 0int,
{
    match p {
        Pane::View(_) => true,
        Pane::Split(s) => s.active < s.items@.len() && items_wf(s.items@, s.items@.len() as int),
    }
}

/// Each of the first `n` of `items` is well formed (`pane_wf`).
pub open spec fn items_wf(items: Seq<Pane>, n: int) -> bool
    decreases items, n,
{
    if n <= 0 || n > items.len() {
        true
    } else {
        items_wf(items, n - 1) && pane_wf(items[n - 1])
    }
}

/// The view that has the focus in `p`: following the active item of each
/// split down to a view.
pub open spec fn pane_active(p: Pane) -> ViewId
    decreases p,
{
    match p {
        Pane::View(id) => id,
        Pane::Split(s) => if s.active < s.items@.len() {
            pane_active(s.items@[s.active as int])
        } else {
            ViewId(0)
        },
    }
}

proof fn lemma_items_wf_at(items: Seq<Pane>, n: int, k: int)
    requires
        items_wf(items, n),
        0 <= k < n <= items.len(),
    ensures
        pane_wf(items[k]),
    decreases n,
{
    if k < n - 1 {
        lemma_items_wf_at(items, n - 1, k);
    }
}

/// The index the focus moves to in a split along `axis` of `len` items whose
/// item `active` has the focus, when `direction` leads to a neighbour.
pub open spec fn neighbour(axis: Axis, direction: Direction, active: int, len: int) -> Option<int> {
    if axis == Axis::Vertical && direction == Direction::Right && active < len - 1 {
        Some(active + 1)
    } else if axis == Axis::Vertical && direction == Direction::Left && active > 0 {
        Some(active - 1)
    } else if axis == Axis::Horizontal && direction == Direction::Down && active < len - 1 {
        Some(active + 1)
    } else if axis == Axis::Horizontal && direction == Direction::Up && active > 0 {
        Some(active - 1)
    } else {
        None
    }
}

/// The view that gets the focus when it moves in `direction`: the innermost
/// split around the focused view that has a neighbour that way hands the
/// focus to that neighbour's active view. `None` when no split has one.
pub open spec fn focus_result(p: Pane, direction: Direction) -> Option<ViewId>
    decreases p,
{
    match p {
        Pane::View(_) => None,
        Pane::Split(s) => if s.active < s.items@.len() {
            let inner = focus_result(s.items@[s.active as int], direction);
            if inner is Some {
                inner
            } else {
                match neighbour(s.axis, direction, s.active as int, s.items@.len() as int) {
                    Some(j) => Some(pane_active(s.items@[j])),
                    None => None,
                }
            }
        } else {
            None
        },
    }
}

/// `q` is `p` after the focus moved in `direction`: only the active items
/// along the path to the focused view change, and the split that hands the
/// focus on makes the neighbour active.
pub open spec fn focus_moved(p: Pane, q: Pane, direction: Direction) -> bool
    decreases p,
{
    match p {
        Pane::View(_) => q == p,
        Pane::Split(s) => match q {
            Pane::View(_) => false,
            Pane::Split(t) => if s.active < s.items@.len() {
                let a = s.active as int;
                &&& t.axis == s.axis
                &&& t.items@.len() == s.items@.len()
                &&& forall|i: int| 0 <= i < s.items@.len() && i != a ==> t.items@[i] == s.items@[i]
                &&& focus_moved(s.items@[a], t.items@[a], direction)
                &&& t.active == if focus_result(s.items@[a], direction) is Some {
                    s.active
                } else {
                    match neighbour(s.axis, direction, a, s.items@.len() as int) {
                        Some(j) => j as usize,
                        None => s.active,
                    }
                }
            } else {
                false
            },
        },
    }
}

proof fn lemma_items_wf_update(items: Seq<Pane>, n: int, k: int, c: Pane)
    requires
        items_wf(items, n),
        0 <= k < n <= items.len(),
        pane_wf(c),
    ensures
        items_wf(items.update(k, c), n),
    decreases n,
{
    if n - 1 > k {
        lemma_items_wf_update(items, n - 1, k, c);
    } else {
        assert(items.update(k, c).subrange(0, k) == items.subrange(0, k));
        lemma_items_wf_same(items, items.update(k, c), k);
    }
}

proof fn lemma_items_wf_same(items: Seq<Pane>, other: Seq<Pane>, n: int)
    requires
        items_wf(items, n),
        0 <= n <= items.len(),
        n <= other.len(),
        forall|i: int| 0 <= i < n ==> other[i] == items[i],
    ensures
        items_wf(other, n),
    decreases n,
{
    if n > 0 {
        lemma_items_wf_same(items, other, n - 1);
    }
}

proof fn lemma_items_views_contain(items: Seq<Pane>, n: int, k: int, x: ViewId)
    requires
        0 <= k < n <= items.len(),
        pane_views(items[k]).contains(x),
    ensures
        items_views(items, n).contains(x),
    decreases n,
{
    let before = items_views(items, n - 1);
    let last = pane_views(items[n - 1]);
    if k < n - 1 {
        lemma_items_views_contain(items, n - 1, k, x);
        let j = choose|j: int| 0 <= j < before.len() && before[j] == x;
        assert((before + last)[j] == x);
    } else {
        let j = choose|j: int| 0 <= j < last.len() && last[j] == x;
        assert((before + last)[before.len() + j] == x);
    }
}

/// The view that has the focus is one of the pane's views.
pub proof fn lemma_active_among_views(p: Pane)
    requires
        pane_wf(p),
    ensures
        pane_views(p).contains(pane_active(p)),
    decreases p,
{
    match p {
        Pane::View(id) => {
            assert(pane_views(p)[0] == id);
        },
        Pane::Split(s) => {
            let items = s.items@;
            let k = s.active as int;
            lemma_items_wf_at(items, items.len() as int, k);
            assert(decreases_to!(p => p->Split_0));
            assert(decreases_to!(s => s.items));
            assert(decreases_to!(s.items => s.items@));
            assert(decreases_to!(s.items@ => s.items@[k]));
            lemma_active_among_views(items[k]);
            lemma_items_views_contain(items, items.len() as int, k, pane_active(items[k]));
        },
    }
}

impl Pane {
    /// Every view in the pane, in order: the views of each item of a split,
    /// one item after another.
    pub fn views(&self) -> (r: Vec<ViewId>)
        ensures
            r@ == pane_views(*self),
        decreases self,
    {
        match self {
            Pane::View(id) => {
                let mut r = Vec::new();
                r.push(*id);
                r
            },
            Pane::Split(s) => {
                let mut r: Vec<ViewId> = Vec::new();
                let mut i: usize = 0;
                while i < s.items.len()
                    invariant
                        0 <= i <= s.items@.len(),
                        *self == Pane::Split(*s),
                        r@ == items_views(s.items@, i as int),
                    decreases s.items@.len() - i,
                {
                    assert(decreases_to!(*self => (*self)->Split_0));
                    assert(decreases_to!(*s => s.items));
                    assert(decreases_to!(s.items => s.items@));
                    assert(decreases_to!(s.items@ => s.items@[i as int]));
                    let mut sub = s.items[i].views();
                    r.append(&mut sub);
                    i += 1;
                }
                r
            },
        }
    }

    /// The view that has the focus: the active item of each split, down to a view.
    pub fn active(&self) -> (r: ViewId)
        requires
            pane_wf(*self),
        ensures
            r == pane_active(*self),
        decreases self,
    {
        match self {
            Pane::View(id) => *id,
            Pane::Split(s) => {
                proof {
                    lemma_items_wf_at(s.items@, s.items@.len() as int, s.active as int);
                    assert(decreases_to!(*self => (*self)->Split_0));
                    assert(decreases_to!(*s => s.items));
                    assert(decreases_to!(s.items => s.items@));
                    assert(decreases_to!(s.items@ => s.items@[s.active as int]));
                }
                s.items[s.active].active()
            },
        }
    }
    /// Moves the focus in `direction` (see `focus_result`), and gives the
    /// view that now has it; `None` when there is no view that way.
    pub fn focus(&mut self, direction: Direction) -> (r: Option<ViewId>)
        requires
            pane_wf(*old(self)),
        ensures
            pane_wf(*final(self)),
            focus_moved(*old(self), *final(self), direction),
            r == focus_result(*old(self), direction),
        decreases *old(self),
    {
        match self {
            Pane::View(_) => None,
            Pane::Split(s) => {
                let a = s.active;
                proof {
                    lemma_items_wf_at(s.items@, s.items@.len() as int, a as int);
                    assert(decreases_to!(*old(self) => (*old(self))->Split_0));
                    assert(decreases_to!((*old(self))->Split_0 => (*old(self))->Split_0.items));
                    assert(decreases_to!((*old(self))->Split_0.items => (*old(self))->Split_0.items@));
                    assert(decreases_to!((*old(self))->Split_0.items@ => (*old(self))->Split_0.items@[a as int]));
                }
                let ghost old_items = s.items@;
                let mut child = s.items.remove(a);
                let moved = child.focus(direction);
                s.items.insert(a, child);
                proof {
                    assert(s.items@ =~= old_items.update(a as int, child));
                    lemma_items_wf_update(old_items, old_items.len() as int, a as int, child);
                }
                match moved {
                    Some(v) => Some(v),
                    None => {
                        let len = s.items.len();
                        if s.axis == Axis::Vertical && direction == Direction::Right && a < len - 1 {
                            s.active = a + 1;
                        } else if s.axis == Axis::Vertical && direction == Direction::Left && a > 0 {
                            s.active = a - 1;
                        } else if s.axis == Axis::Horizontal && direction == Direction::Down && a < len - 1 {
                            s.active = a + 1;
                        } else if s.axis == Axis::Horizontal && direction == Direction::Up && a > 0 {
                            s.active = a - 1;
                        } else {
                            return None;
                        }
                        proof {
                            lemma_items_wf_at(s.items@, s.items@.len() as int, s.active as int);
                        }
                        Some(s.items[s.active].active())
                    },
                }
            },
        }
    }
}

} // verus!
