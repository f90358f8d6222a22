//! Which widgets the mouse enters and leaves as it moves.
use vstd::prelude::*;

use crate::gui::WidgetId;

verus! {

/// Where two paths of widgets part: the first place they differ, or the
/// length of the shorter when one extends the other.
pub open spec fn diverge_index(a: Seq<WidgetId>, b: Seq<WidgetId>) -> int
    decreases a.len(),
{
    if a.len() == 0 || b.len() == 0 || a[0] != b[0] {
        0
    } else {
        1 + diverge_index(a.drop_first(), b.drop_first())
    }
}

/// The widgets the mouse leaves and enters as the hovered path changes from
/// `old` to `new`, innermost first.
pub struct HoverChange {
    pub leave: Vec<WidgetId>,
    pub enter: Vec<WidgetId>,
}

proof fn lemma_diverge(a: Seq<WidgetId>, b: Seq<WidgetId>, i: int)
    requires
        0 <= i <= a.len(),
        i <= b.len(),
        forall|k: int| 0 <= k < i ==> a[k] == b[k],
    ensures
        diverge_index(a, b) == i + diverge_index(a.skip(i), b.skip(i)),
    decreases i,
{
    if i > 0 {
        lemma_diverge(a.drop_first(), b.drop_first(), i - 1);
        assert(a.drop_first().skip(i - 1) =~= a.skip(i));
        assert(b.drop_first().skip(i - 1) =~= b.skip(i));
    } else {
        assert(a.skip(0) =~= a);
        assert(b.skip(0) =~= b);
    }
}

/// The widgets left and entered when the hovered path goes from `old` to
/// `new`: nothing when it is the same; otherwise those of `old` past the
/// place the paths part, innermost first, and likewise those of `new`.
pub fn hover_change(old: &Vec<WidgetId>, new: &Vec<WidgetId>) -> (r: Option<HoverChange>)
    ensures
        match r {
            None => old@ == new@,
            Some(c) => old@ != new@ && c.leave@ == old@.skip(diverge_index(old@, new@)).reverse()
                && c.enter@ == new@.skip(diverge_index(old@, new@)).reverse(),
        },
{
    let mut i: usize = 0;
    while i < old.len() && i < new.len() && old[i].0 == new[i].0
        invariant
            0 <= i <= old@.len(),
            i <= new@.len(),
            forall|k: int| 0 <= k < i ==> old@[k] == new@[k],
        decreases old@.len() - i,
    {
        i += 1;
    }
    proof {
        lemma_diverge(old@, new@, i as int);
        let a = old@.skip(i as int);
        let b = new@.skip(i as int);
        if a.len() > 0 && b.len() > 0 {
            assert(a[0] == old@[i as int]);
            assert(b[0] == new@[i as int]);
        }
    }
    if i == old.len() && i == new.len() {
        assert(old@ =~= new@);
        return None;
    }
    proof {
        if i < old@.len() && i < new@.len() {
            assert(old@[i as int] != new@[i as int]);
        }
        assert(old@.len() != new@.len() || old@[i as int] != new@[i as int]);
    }
    let mut leave: Vec<WidgetId> = Vec::new();
    let mut j = old.len();
    while j > i
        invariant
            i <= j <= old@.len(),
            leave@ == old@.subrange(j as int, old@.len() as int).reverse(),
        decreases j,
    {
        j -= 1;
        leave.push(old[j]);
        assert(leave@ =~= old@.subrange(j as int, old@.len() as int).reverse());
    }
    let mut enter: Vec<WidgetId> = Vec::new();
    let mut j = new.len();
    while j > i
        invariant
            i <= j <= new@.len(),
            enter@ == new@.subrange(j as int, new@.len() as int).reverse(),
        decreases j,
    {
        j -= 1;
        enter.push(new[j]);
        assert(enter@ =~= new@.subrange(j as int, new@.len() as int).reverse());
    }
    Some(HoverChange { leave, enter })
}

} // verus!
