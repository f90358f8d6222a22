//! The order the file tree lists a directory's entries in: directories
//! first, then files, each by name.
use vstd::prelude::*;

use std::cmp::Ordering;

use crate::gui::file_tree::Item;

verus! {

/// `a` sorts before `b`: at the first place where they differ `a` has the
/// smaller character, or `a` is a proper prefix of `b` (the order of
/// `String`, whose UTF-8 bytes compare as their characters do).
pub open spec fn chars_lt(a: Seq<char>, b: Seq<char>) -> bool {
    exists|i: int|
        #![trigger a.take(i), b.take(i)]
        0 <= i <= a.len() && i <= b.len() && a.take(i) == b.take(i) && ((i == a.len() && i
            < b.len()) || (i < a.len() && i < b.len() && a[i] < b[i]))
}

/// Directories come before files.
pub open spec fn kind_rank(it: Item) -> int {
    match it {
        Item::Directory(_) => 0,
        Item::File(_) => 1,
    }
}

/// The name an entry is sorted by.
pub open spec fn sort_name(it: Item) -> Seq<char> {
    match it {
        Item::Directory(d) => d.name@,
        Item::File(f) => f.name@,
    }
}

/// `a` is listed before `b`.
pub open spec fn entry_lt(a: Item, b: Item) -> bool {
    kind_rank(a) < kind_rank(b) || (kind_rank(a) == kind_rank(b) && chars_lt(
        sort_name(a),
        sort_name(b),
    ))
}

/// Entries in listing order: none comes after one listed after it.
pub open spec fn entries_sorted(s: Seq<Item>) -> bool {
    forall|i: int, j: int| 0 <= i < j < s.len() ==> !entry_lt(#[trigger] s[j], #[trigger] s[i])
}

/// How many characters `x` and `y` share at their start.
fn common_prefix(x: &Vec<char>, y: &Vec<char>) -> (i: usize)
    ensures
        i <= x@.len(),
        i <= y@.len(),
        x@.take(i as int) == y@.take(i as int),
        i < x@.len() && i < y@.len() ==> x@[i as int] != y@[i as int],
{
    let mut i: usize = 0;
    while i < x.len() && i < y.len()
        invariant
            i <= x@.len(),
            i <= y@.len(),
            x@.take(i as int) == y@.take(i as int),
        decreases x@.len() - i,
    {
        if x[i] != y[i] {
            return i;
        }
        i += 1;
        assert(x@.take(i as int) =~= y@.take(i as int)) by {
            assert forall|j: int| 0 <= j < i implies x@.take(i as int)[j] == y@.take(i as int)[j] by {
                if j < i - 1 {
                    assert(x@.take(i - 1)[j] == y@.take(i - 1)[j]);
                }
            }
        }
    }
    i
}

/// How `chars_lt` reads off the first difference of two strings.
proof fn lemma_chars_order(a: Seq<char>, b: Seq<char>, i: usize)
    requires
        i <= a.len(),
        i <= b.len(),
        a.take(i as int) == b.take(i as int),
        i < a.len() && i < b.len() ==> a[i as int] != b[i as int],
    ensures
        chars_lt(a, b) == ((i == a.len() && i < b.len()) || (i < a.len() && i < b.len() && a[i as int] < b[i as int])),
        chars_lt(b, a) == ((i == b.len() && i < a.len()) || (i < a.len() && i < b.len() && b[i as int] < a[i as int])),
        (a == b) == (i == a.len() && i == b.len()),
{
    let k = i as int;
    lemma_chars_lt_asym(a, b);
    if (k == a.len() && k < b.len()) || (k < a.len() && k < b.len() && a[k] < b[k]) {
        assert(chars_lt(a, b));
    }
    if (k == b.len() && k < a.len()) || (k < a.len() && k < b.len() && b[k] < a[k]) {
        assert(b.take(k) == a.take(k));
        assert(chars_lt(b, a));
    }
    if chars_lt(a, b) {
        let m = choose|m: int|
            #![trigger a.take(m), b.take(m)]
            0 <= m <= a.len() && m <= b.len() && a.take(m) == b.take(m) && ((m == a.len() && m
                < b.len()) || (m < a.len() && m < b.len() && a[m] < b[m]));
        if m < k {
            assert(a.take(k)[m] == b.take(k)[m]);
        } else if m > k {
            if k < a.len() && k < b.len() {
                assert(a.take(m)[k] == b.take(m)[k]);
            }
        }
    }
    if chars_lt(b, a) {
        let m = choose|m: int|
            #![trigger b.take(m), a.take(m)]
            0 <= m <= b.len() && m <= a.len() && b.take(m) == a.take(m) && ((m == b.len() && m
                < a.len()) || (m < b.len() && m < a.len() && b[m] < a[m]));
        if m < k {
            assert(a.take(k)[m] == b.take(k)[m]);
        } else if m > k {
            if k < a.len() && k < b.len() {
                assert(a.take(m)[k] == b.take(m)[k]);
            }
        }
    }
    if k == a.len() && k == b.len() {
        assert(a =~= a.take(k));
        assert(b =~= b.take(k));
    }
}

/// Compares two names character by character.
fn compare_names(a: &String, b: &String) -> (r: Ordering)
    ensures
        (r == Ordering::Less) == chars_lt(a@, b@),
        (r == Ordering::Greater) == chars_lt(b@, a@),
        (r == Ordering::Equal) == (a@ == b@),
{
    let x = crate::text::chars_of(a.as_str());
    let y = crate::text::chars_of(b.as_str());
    let i = common_prefix(&x, &y);
    proof {
        lemma_chars_order(x@, y@, i);
    }
    if i < x.len() && i < y.len() {
        if x[i] < y[i] {
            Ordering::Less
        } else {
            Ordering::Greater
        }
    } else if x.len() < y.len() {
        Ordering::Less
    } else if x.len() > y.len() {
        Ordering::Greater
    } else {
        Ordering::Equal
    }
}

proof fn lemma_chars_lt_asym(a: Seq<char>, b: Seq<char>)
    ensures
        !(chars_lt(a, b) && chars_lt(b, a)),
        !chars_lt(a, a),
{
    if chars_lt(a, b) && chars_lt(b, a) {
        let i = choose|i: int|
            #![trigger a.take(i), b.take(i)]
            0 <= i <= a.len() && i <= b.len() && a.take(i) == b.take(i) && ((i == a.len() && i
                < b.len()) || (i < a.len() && i < b.len() && a[i] < b[i]));
        let j = choose|j: int|
            #![trigger b.take(j), a.take(j)]
            0 <= j <= b.len() && j <= a.len() && b.take(j) == a.take(j) && ((j == b.len() && j
                < a.len()) || (j < b.len() && j < a.len() && b[j] < a[j]));
        if i < j {
            assert(a.take(j)[i] == b.take(j)[i]);
        } else if j < i {
            assert(a.take(i)[j] == b.take(i)[j]);
        }
    }
}

/// Compares two entries in listing order: directories first, each kind by
/// name.
pub fn compare_entries(a: &Item, b: &Item) -> (r: Ordering)
    ensures
        (r == Ordering::Less) == entry_lt(*a, *b),
        (r == Ordering::Greater) == entry_lt(*b, *a),
{
    match (a, b) {
        (Item::Directory(_), Item::File(_)) => Ordering::Less,
        (Item::File(_), Item::Directory(_)) => Ordering::Greater,
        (Item::Directory(x), Item::Directory(y)) => compare_names(&x.name, &y.name),
        (Item::File(x), Item::File(y)) => compare_names(&x.name, &y.name),
    }
}

/// Sorts `items` in listing order (`slice::sort_unstable_by` with
/// `compare_entries`, which orders entries totally; the entries are only
/// moved around).
#[verifier::external_body]
pub(crate) fn sort_entries(items: &mut Vec<Item>)
    ensures
        final(items)@.to_multiset() == old(items)@.to_multiset(),
        entries_sorted(final(items)@),
{
    items.sort_unstable_by(|a, b| compare_entries(a, b));
}

} // verus!
