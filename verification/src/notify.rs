//! Changed paths reported by the file watcher, and the versions of changes a
//! workspace keeps.
//!
//! A path is held as the sequence of its components, each component as its
//! bytes. Paths are ordered as `Path` orders them: component by component,
//! each component by its bytes.
use vstd::prelude::*;

verus! {

// ---------------------------------------------------------------------------
// Paths and their order
// ---------------------------------------------------------------------------

/// `a` sorts before `b` byte by byte: at the first place where they differ `a`
/// has the smaller byte, or `a` is a proper prefix of `b`.
pub open spec fn bytes_lt(a: Seq<u8>, b: Seq<u8>) -> bool {
    exists|i: int|
        #![trigger a.take(i), b.take(i)]
        0 <= i <= a.len() && i <= b.len() && a.take(i) == b.take(i) && ((i == a.len() && i
            < b.len()) || (i < a.len() && i < b.len() && a[i] < b[i]))
}

/// `a` sorts before `b` component by component (the order of `Path`, and of
/// `Vec<Vec<u8>>`).
pub open spec fn path_lt(a: Seq<Seq<u8>>, b: Seq<Seq<u8>>) -> bool {
    exists|i: int|
        #![trigger a.take(i), b.take(i)]
        0 <= i <= a.len() && i <= b.len() && a.take(i) == b.take(i) && ((i == a.len() && i
            < b.len()) || (i < a.len() && i < b.len() && bytes_lt(a[i], b[i])))
}

/// `a` is `x` or one of its ancestors (`x.starts_with(a)` for paths).
pub open spec fn is_prefix(a: Seq<Seq<u8>>, x: Seq<Seq<u8>>) -> bool {
    a.len() <= x.len() && x.take(a.len() as int) == a
}

/// `a` is an ancestor of `x`.
pub open spec fn is_ancestor(a: Seq<Seq<u8>>, x: Seq<Seq<u8>>) -> bool {
    a.len() < x.len() && x.take(a.len() as int) == a
}

/// `x` is in `paths` and none of its ancestors is.
pub open spec fn is_root(paths: Set<Seq<Seq<u8>>>, x: Seq<Seq<u8>>) -> bool {
    paths.contains(x) && !(exists|a: Seq<Seq<u8>>| paths.contains(a) && #[trigger] is_ancestor(a, x))
}

/// The paths of `paths` that have no ancestor in `paths`: a change to a
/// directory stands for the changes to everything under it.
pub open spec fn roots(paths: Set<Seq<Seq<u8>>>) -> Set<Seq<Seq<u8>>> {
    paths.filter(|x: Seq<Seq<u8>>| is_root(paths, x))
}

/// `s` is in strictly ascending path order.
pub open spec fn strictly_sorted(s: Seq<Seq<Seq<u8>>>) -> bool {
    forall|i: int, j: int| 0 <= i < j < s.len() ==> path_lt(#[trigger] s[i], #[trigger] s[j])
}

proof fn lemma_bytes_lt_asym(a: Seq<u8>, b: Seq<u8>)
    ensures
        !(bytes_lt(a, b) && bytes_lt(b, a)),
        !bytes_lt(a, a),
{
    if bytes_lt(a, b) && bytes_lt(b, a) {
        let i = choose|i: int|
            #![trigger a.take(i), b.take(i)]
            0 <= i <= a.len() && i <= b.len() && a.take(i) == b.take(i) && ((i == a.len() && i
                < b.len()) || (i < a.len() && i < b.len() && a[i] < b[i]));
        let j = choose|j: int|
            #![trigger b.take(j), a.take(j)]
            0 <= j <= b.len() && j <= a.len() && b.take(j) == a.take(j) && ((j == b.len() && j
                < a.len()) || (j < b.len() && j < a.len() && b[j] < a[j]));
        if i < j {
            assert(a.take(j)[i] == b.take(j)[i]);
        } else if j < i {
            assert(a.take(i)[j] == b.take(i)[j]);
        }
    }
}

proof fn lemma_path_lt_asym(a: Seq<Seq<u8>>, b: Seq<Seq<u8>>)
    ensures
        !(path_lt(a, b) && path_lt(b, a)),
        !path_lt(a, a),
{
    if path_lt(a, b) && path_lt(b, a) {
        let i = choose|i: int|
            #![trigger a.take(i), b.take(i)]
            0 <= i <= a.len() && i <= b.len() && a.take(i) == b.take(i) && ((i == a.len() && i
                < b.len()) || (i < a.len() && i < b.len() && bytes_lt(a[i], b[i])));
        let j = choose|j: int|
            #![trigger b.take(j), a.take(j)]
            0 <= j <= b.len() && j <= a.len() && b.take(j) == a.take(j) && ((j == b.len() && j
                < a.len()) || (j < b.len() && j < a.len() && bytes_lt(b[j], a[j])));
        if i < j {
            assert(a.take(j)[i] == b.take(j)[i]);
            lemma_bytes_lt_asym(a[i], b[i]);
        } else if j < i {
            assert(a.take(i)[j] == b.take(i)[j]);
            lemma_bytes_lt_asym(a[j], b[j]);
        } else if i < a.len() && i < b.len() {
            lemma_bytes_lt_asym(a[i], b[i]);
        }
    }
    if path_lt(a, a) {
        let i = choose|i: int|
            #![trigger a.take(i), a.take(i)]
            0 <= i <= a.len() && i <= a.len() && a.take(i) == a.take(i) && ((i == a.len() && i
                < a.len()) || (i < a.len() && i < a.len() && bytes_lt(a[i], a[i])));
        lemma_bytes_lt_asym(a[i], a[i]);
    }
}

/// An ancestor sorts before its descendants.
proof fn lemma_ancestor_lt(a: Seq<Seq<u8>>, x: Seq<Seq<u8>>)
    requires
        is_ancestor(a, x),
    ensures
        path_lt(a, x),
{
    let i = a.len() as int;
    assert(a.take(i) =~= a);
    assert(a.take(i) == x.take(i));
}

/// What sorts between a path and one of its descendants is a descendant of
/// that path too.
proof fn lemma_between_descendant(a: Seq<Seq<u8>>, y: Seq<Seq<u8>>, x: Seq<Seq<u8>>)
    requires
        is_prefix(a, x),
        path_lt(a, y),
        path_lt(y, x),
    ensures
        is_prefix(a, y),
{
    let i = choose|i: int|
        #![trigger a.take(i), y.take(i)]
        0 <= i <= a.len() && i <= y.len() && a.take(i) == y.take(i) && ((i == a.len() && i
            < y.len()) || (i < a.len() && i < y.len() && bytes_lt(a[i], y[i])));
    let j = choose|j: int|
        #![trigger y.take(j), x.take(j)]
        0 <= j <= y.len() && j <= x.len() && y.take(j) == x.take(j) && ((j == y.len() && j
            < x.len()) || (j < y.len() && j < x.len() && bytes_lt(y[j], x[j])));
    if i == a.len() {
        assert(a.take(i) =~= a);
        assert(y.take(a.len() as int) == a);
    } else {
        // `a` and `y` first differ at `i`, inside `a`.
        assert(a[i] == x[i]) by {
            assert(x.take(a.len() as int)[i] == x[i]);
        }
        if i < j {
            assert(y.take(j)[i] == x.take(j)[i]);
            lemma_bytes_lt_asym(a[i], a[i]);
        } else if j < i {
            assert(a.take(i)[j] == y.take(i)[j]);
            assert(x.take(a.len() as int)[j] == x[j]);
            lemma_bytes_lt_asym(y[j], y[j]);
        } else if j == y.len() {
            assert(false);
        } else {
            lemma_bytes_lt_asym(a[i], y[i]);
        }
    }
}

/// A path with an ancestor among `paths` has one that is a root of `paths`.
proof fn lemma_root_ancestor(paths: Set<Seq<Seq<u8>>>, a: Seq<Seq<u8>>, x: Seq<Seq<u8>>)
    requires
        paths.contains(a),
        is_ancestor(a, x),
    ensures
        exists|r: Seq<Seq<u8>>| is_root(paths, r) && #[trigger] is_ancestor(r, x),
    decreases a.len(),
{
    if is_root(paths, a) {
        assert(is_root(paths, a) && is_ancestor(a, x));
    } else {
        let b = choose|b: Seq<Seq<u8>>| paths.contains(b) && #[trigger] is_ancestor(b, a);
        assert(x.take(b.len() as int) =~= a.take(b.len() as int));
        lemma_root_ancestor(paths, b, x);
    }
}

// ---------------------------------------------------------------------------
// A set of paths, kept in order
// ---------------------------------------------------------------------------

/// A set of paths in a `btree_slab::BTreeMap`, which keeps its keys in order.
#[verifier::external_body]
pub struct PathSet {
    set: btree_slab::BTreeMap<Vec<Vec<u8>>, ()>,
}

/// The paths a `PathSet` holds.
pub uninterp spec fn path_set_contents(s: PathSet) -> Set<Seq<Seq<u8>>>;

impl PathSet {
    /// An empty set (`btree_slab::BTreeMap::new`).
    #[verifier::external_body]
    fn new() -> (s: PathSet)
        ensures
            path_set_contents(s) == Set::<Seq<Seq<u8>>>::empty(),
    {
        PathSet { set: btree_slab::BTreeMap::new() }
    }

    /// Adds `path` (`btree_slab::BTreeMap::insert`).
    #[verifier::external_body]
    fn insert(&mut self, path: Vec<Vec<u8>>)
        ensures
            path_set_contents(*final(self)) == path_set_contents(*old(self)).insert(path.deep_view()),
    {
        self.set.insert(path, ());
    }

    /// Takes `path` out (`btree_slab::BTreeMap::remove`).
    #[verifier::external_body]
    fn remove(&mut self, path: &Vec<Vec<u8>>)
        ensures
            path_set_contents(*final(self)) == path_set_contents(*old(self)).remove(path.deep_view()),
    {
        self.set.remove(path);
    }

    /// The paths, in ascending order (`btree_slab::BTreeMap::keys`, which
    /// yields each key once, in the order of `Ord`; `Vec<Vec<u8>>` orders
    /// lexicographically).
    #[verifier::external_body]
    fn keys(&self) -> (r: Vec<Vec<Vec<u8>>>)
        ensures
            strictly_sorted(r.deep_view()),
            r.deep_view().to_set() == path_set_contents(*self),
    {
        self.set.keys().cloned().collect()
    }
}

// ---------------------------------------------------------------------------
// Directory changes
// ---------------------------------------------------------------------------

/// The paths that changed in a directory.
pub struct DirectoryChanges {
    changes: PathSet,
}

impl View for DirectoryChanges {
    type V = Set<Seq<Seq<u8>>>;

    closed spec fn view(&self) -> Set<Seq<Seq<u8>>> {
        path_set_contents(self.changes)
    }
}

impl Default for DirectoryChanges {
    fn default() -> (r: Self)
        ensures
            r@ == Set::<Seq<Seq<u8>>>::empty(),
    {
        DirectoryChanges::new()
    }
}

proof fn lemma_seq_to_set_index<A>(s: Seq<A>, x: A)
    requires
        s.to_set().contains(x),
    ensures
        exists|p: int| 0 <= p < s.len() && s[p] == x,
{
    broadcast use vstd::seq_lib::group_seq_properties;

}

impl DirectoryChanges {
    /// No changes.
    pub fn new() -> (r: Self)
        ensures
            r@ == Set::<Seq<Seq<u8>>>::empty(),
    {
        DirectoryChanges { changes: PathSet::new() }
    }

    /// Records a change to `path`.
    pub fn insert(&mut self, path: Vec<Vec<u8>>)
        ensures
            final(self)@ == old(self)@.insert(path.deep_view()),
    {
        self.changes.insert(path);
    }

    /// The changed paths, in ascending order.
    pub fn paths(&self) -> (r: Vec<Vec<Vec<u8>>>)
        ensures
            strictly_sorted(r.deep_view()),
            r.deep_view().to_set() == self@,
    {
        self.changes.keys()
    }

    /// Adds the changes of `other`, then drops every path whose ancestor
    /// changed: what is left are the roots of both sets together.
    pub fn merge_with(&mut self, other: &DirectoryChanges)
        ensures
            final(self)@ == roots(old(self)@.union(other@)),
    {
        let mut theirs = other.changes.keys();
        let ghost start = self@;
        let ghost added = theirs.deep_view().to_set();
        while theirs.len() > 0
            invariant
                forall|x: Seq<Seq<u8>>| start.contains(x) ==> #[trigger] self@.contains(x),
                forall|x: Seq<Seq<u8>>| #[trigger] self@.contains(x) ==> start.contains(x) || added.contains(x),
                forall|x: Seq<Seq<u8>>| #[trigger] added.contains(x) ==> self@.contains(x) || theirs.deep_view().to_set().contains(x),
                forall|x: Seq<Seq<u8>>| #[trigger] theirs.deep_view().to_set().contains(x) ==> added.contains(x),
            decreases theirs.len(),
        {
            let ghost before = theirs.deep_view();
            let ghost cur = self@;
            let p = theirs.pop().unwrap();
            proof {
                broadcast use vstd::seq_lib::group_seq_properties;

                assert(before =~= theirs.deep_view().push(p.deep_view()));
                assert(before[before.len() - 1] == p.deep_view());
                assert(before.to_set().contains(p.deep_view()));
                assert(before.to_set() =~= theirs.deep_view().to_set().insert(p.deep_view()));
            }
            self.changes.insert(p);
            proof {
                assert(self@ == cur.insert(before[before.len() - 1]));
                assert(added.contains(before[before.len() - 1]));
                assert forall|x: Seq<Seq<u8>>| #[trigger] theirs.deep_view().to_set().contains(x) implies added.contains(x) by {
                    assert(before.to_set().contains(x));
                }
                assert forall|x: Seq<Seq<u8>>| start.contains(x) implies #[trigger] self@.contains(x) by {
                    assert(cur.contains(x));
                }
                assert forall|x: Seq<Seq<u8>>| #[trigger] self@.contains(x) implies start.contains(x) || added.contains(x) by {
                    if x != before[before.len() - 1] {
                        assert(cur.contains(x));
                    }
                }
            }
        }
        proof {
            assert(theirs.deep_view().to_set() =~= Set::<Seq<Seq<u8>>>::empty()) by {
                broadcast use vstd::seq_lib::group_seq_properties;

            }
            assert(self@ =~= start.union(other@));
        }
        let ghost all = self@;
        let keys = self.changes.keys();
        let ghost k = keys.deep_view();
        let n = keys.len();
        let mut last: Option<usize> = None;
        let mut t: usize = 0;
        assert(self@ =~= Set::new(
            |x: Seq<Seq<u8>>|
                exists|q: int| 0 <= q < k.len() && k[q] == x && (q >= t || is_root(all, x)),
        )) by {
            assert forall|x: Seq<Seq<u8>>| #[trigger] self@.contains(x) implies exists|q: int|
                0 <= q < k.len() && k[q] == x && (q >= t || is_root(all, x)) by {
                lemma_seq_to_set_index(k, x);
            }
            broadcast use vstd::seq_lib::group_seq_properties;

        }
        while t < n
            invariant
                n == k.len(),
                k == keys.deep_view(),
                k.to_set() == all,
                strictly_sorted(k),
                t <= n,
                self@ == Set::new(
                    |x: Seq<Seq<u8>>|
                        exists|q: int| 0 <= q < k.len() && k[q] == x && (q >= t || is_root(all, x)),
                ),
                match last {
                    Some(l) => l < t && is_root(all, k[l as int]) && forall|q: int|
                        l < q < t ==> !is_root(all, #[trigger] k[q]),
                    None => forall|q: int| 0 <= q < t ==> !is_root(all, #[trigger] k[q]),
                },
            decreases n - t,
        {
            let ghost x = k[t as int];
            let drop = match last {
                Some(l) => starts_with(&keys[t], &keys[l]),
                None => false,
            };
            proof {
                broadcast use vstd::seq_lib::group_seq_properties;

                assert(k.contains(x));
                if let Some(l) = last {
                    lemma_path_lt_asym(k[l as int], x);
                }
            }
            if drop {
                let l = last.unwrap();
                proof {
                    // `k[l]` is an ancestor of `x`: they differ, as the keys do.
                    assert(path_lt(k[l as int], x));
                    lemma_path_lt_asym(k[l as int], x);
                    if k[l as int].len() == x.len() {
                        assert(x.take(x.len() as int) =~= x);
                    }
                    assert(is_ancestor(k[l as int], x));
                    assert(all.contains(k[l as int]));
                    assert(!is_root(all, x));
                }
                self.changes.remove(&keys[t]);
                proof {
                    let next = Set::new(
                        |y: Seq<Seq<u8>>|
                            exists|q: int|
                                0 <= q < k.len() && k[q] == y && (q >= t + 1 || is_root(all, y)),
                    );
                    assert forall|y: Seq<Seq<u8>>| #[trigger] self@.contains(y) <==> next.contains(
                        y,
                    ) by {
                        if self@.contains(y) {
                            let q = choose|q: int|
                                0 <= q < k.len() && k[q] == y && (q >= t || is_root(all, y));
                            assert(y != x);
                            if q == t {
                                assert(false);
                            }
                        }
                        if next.contains(y) {
                            let q = choose|q: int|
                                0 <= q < k.len() && k[q] == y && (q >= t + 1 || is_root(all, y));
                            if y == x {
                                assert(q != t as int ==> path_lt(k[q], k[t as int]) || path_lt(
                                    k[t as int],
                                    k[q],
                                ));
                                if q != t as int {
                                    lemma_path_lt_asym(k[q], k[q]);
                                }
                            }
                        }
                    }
                    assert(self@ =~= next);
                }
            } else {
                proof {
                    lemma_keep(all, k, t as int, last);
                    let next = Set::new(
                        |y: Seq<Seq<u8>>|
                            exists|q: int|
                                0 <= q < k.len() && k[q] == y && (q >= t + 1 || is_root(all, y)),
                    );
                    assert forall|y: Seq<Seq<u8>>| #[trigger] self@.contains(y) <==> next.contains(
                        y,
                    ) by {
                        if self@.contains(y) {
                            let q = choose|q: int|
                                0 <= q < k.len() && k[q] == y && (q >= t || is_root(all, y));
                            if q == t {
                                assert(is_root(all, y));
                            }
                        }
                    }
                    assert(self@ =~= next);
                }
                last = Some(t);
            }
            t += 1;
        }
        proof {
            assert(self@ =~= roots(all)) by {
                assert forall|x: Seq<Seq<u8>>| #[trigger] self@.contains(x) <==> roots(all).contains(
                    x,
                ) by {
                    if roots(all).contains(x) {
                        lemma_seq_to_set_index(k, x);
                    }
                }
            }
        }
    }
}

/// Keeping `k[t]` is right: no ancestor of it is among the paths, since the
/// last path kept before it is not one.
proof fn lemma_keep(all: Set<Seq<Seq<u8>>>, k: Seq<Seq<Seq<u8>>>, t: int, last: Option<usize>)
    requires
        0 <= t < k.len(),
        k.to_set() == all,
        strictly_sorted(k),
        match last {
            Some(l) => l < t && is_root(all, k[l as int]) && !is_prefix(k[l as int], k[t]) && forall|
                q: int,
            |
                l < q < t ==> !is_root(all, #[trigger] k[q]),
            None => forall|q: int| 0 <= q < t ==> !is_root(all, #[trigger] k[q]),
        },
    ensures
        is_root(all, k[t]),
{
    broadcast use vstd::seq_lib::group_seq_properties;

    let x = k[t];
    assert(k.contains(x));
    if !is_root(all, x) {
        let a = choose|a: Seq<Seq<u8>>| all.contains(a) && #[trigger] is_ancestor(a, x);
        lemma_root_ancestor(all, a, x);
        let r = choose|r: Seq<Seq<u8>>| is_root(all, r) && #[trigger] is_ancestor(r, x);
        lemma_seq_to_set_index(k, r);
        let p = choose|p: int| 0 <= p < k.len() && k[p] == r;
        lemma_ancestor_lt(r, x);
        if p >= t {
            if p == t {
                lemma_path_lt_asym(r, r);
            } else {
                lemma_path_lt_asym(r, x);
            }
        }
        assert(p < t);
        match last {
            Some(l) => {
                let l = l as int;
                if l == p {
                    assert(is_prefix(r, x));
                } else if l < p {
                    assert(!is_root(all, k[p]));
                } else {
                    // `r` < `k[l]` < `x`, so `k[l]` descends from `r`.
                    lemma_between_descendant(r, k[l], x);
                    lemma_path_lt_asym(r, r);
                    assert(k[l] != r);
                    assert(is_ancestor(r, k[l]));
                    assert(!is_root(all, k[l]));
                }
            },
            None => {
                assert(!is_root(all, k[p]));
            },
        }
    }
}

/// Whether `path` starts with `prefix`: `prefix` is `path` or one of its
/// ancestors.
pub fn starts_with(path: &Vec<Vec<u8>>, prefix: &Vec<Vec<u8>>) -> (r: bool)
    ensures
        r == is_prefix(prefix.deep_view(), path.deep_view()),
{
    if prefix.len() > path.len() {
        return false;
    }
    let mut i: usize = 0;
    while i < prefix.len()
        invariant
            prefix.len() <= path.len(),
            0 <= i <= prefix.len(),
            forall|j: int| 0 <= j < i ==> prefix.deep_view()[j] == path.deep_view()[j],
        decreases prefix.len() - i,
    {
        assert(path.deep_view()[i as int] == path@[i as int]@);
        assert(prefix.deep_view()[i as int] == prefix@[i as int]@);
        if !bytes_eq(&path[i], &prefix[i]) {
            assert(path.deep_view().take(prefix.len() as int)[i as int] != prefix.deep_view()[i as int]);
            return false;
        }
        i += 1;
    }
    assert(path.deep_view().take(prefix.len() as int) =~= prefix.deep_view());
    true
}

fn bytes_eq(a: &Vec<u8>, b: &Vec<u8>) -> (r: bool)
    ensures
        r == (a@ == b@),
{
    if a.len() != b.len() {
        return false;
    }
    let mut i: usize = 0;
    while i < a.len()
        invariant
            a.len() == b.len(),
            0 <= i <= a.len(),
            forall|j: int| 0 <= j < i ==> a@[j] == b@[j],
        decreases a.len() - i,
    {
        if a[i] != b[i] {
            return false;
        }
        i += 1;
    }
    assert(a@ =~= b@);
    true
}


// ---------------------------------------------------------------------------
// Laws of merging
// ---------------------------------------------------------------------------

/// Merging in steps is merging at once: the roots of the roots of `a`
/// together with `b` are the roots of `a` together with `b`.
pub proof fn lemma_roots_absorb(a: Set<Seq<Seq<u8>>>, b: Set<Seq<Seq<u8>>>)
    ensures
        roots(roots(a).union(b)) == roots(a.union(b)),
{
    let l = roots(roots(a).union(b));
    let r = roots(a.union(b));
    assert forall|x: Seq<Seq<u8>>| #[trigger] l.contains(x) implies r.contains(x) by {
        if !is_root(a.union(b), x) {
            let c = choose|c: Seq<Seq<u8>>| a.union(b).contains(c) && #[trigger] is_ancestor(c, x);
            if b.contains(c) {
                assert(roots(a).union(b).contains(c));
            } else if is_root(a, c) {
                assert(roots(a).union(b).contains(c));
            } else {
                let d = choose|d: Seq<Seq<u8>>| a.contains(d) && #[trigger] is_ancestor(d, c);
                lemma_root_ancestor(a, d, c);
                let e = choose|e: Seq<Seq<u8>>| is_root(a, e) && #[trigger] is_ancestor(e, c);
                assert(x.take(e.len() as int) =~= c.take(e.len() as int));
                assert(is_ancestor(e, x));
                assert(roots(a).union(b).contains(e));
            }
        }
    }
    assert forall|x: Seq<Seq<u8>>| #[trigger] r.contains(x) implies l.contains(x) by {
        if a.contains(x) {
            assert(roots(a).contains(x));
        }
        assert(roots(a).union(b).contains(x));
        if !is_root(roots(a).union(b), x) {
            let c = choose|c: Seq<Seq<u8>>| roots(a).union(b).contains(c) && #[trigger] is_ancestor(c, x);
            assert(a.union(b).contains(c));
        }
    }
    assert(l =~= r);
}

/// The result of a merge has no path under another: merging it again with
/// nothing changes nothing.
pub proof fn lemma_roots_idempotent(a: Set<Seq<Seq<u8>>>)
    ensures
        roots(roots(a)) == roots(a),
{
    lemma_roots_absorb(a, Set::empty());
    assert(roots(a).union(Set::empty()) =~= roots(a));
    assert(a.union(Set::empty()) =~= a);
}

// ---------------------------------------------------------------------------
// Versions of changes
// ---------------------------------------------------------------------------

/// The changes recorded under one version number.
pub struct Version {
    pub id: usize,
    pub changes: DirectoryChanges,
}

/// The versions of changes a workspace watcher has recorded, oldest first.
pub struct WorkspaceState {
    pub versions: std::collections::VecDeque<Version>,
}

/// The union of the change sets `s`.
pub open spec fn union_all(s: Seq<Set<Seq<Seq<u8>>>>) -> Set<Seq<Seq<u8>>>
    decreases s.len(),
{
    if s.len() == 0 {
        Set::empty()
    } else {
        union_all(s.drop_last()).union(s.last())
    }
}

impl WorkspaceState {
    /// The change sets of the versions, oldest first.
    pub open spec fn change_sets(&self) -> Seq<Set<Seq<Seq<u8>>>> {
        self.versions@.map_values(|v: Version| v.changes@)
    }

    /// How many of the oldest versions are skipped to reach `version`: its
    /// offset from the oldest id, at most all of them (`0` when there is
    /// none).
    pub open spec fn since_index(&self, version: usize) -> int {
        if self.versions@.len() == 0 {
            0
        } else if version - self.versions@[0].id <= self.versions@.len() {
            version - self.versions@[0].id
        } else {
            self.versions@.len() as int
        }
    }

    /// The versions from `version` on: all but the first `version - id`
    /// of them, where `id` is that of the oldest (none when there are no
    /// versions). A version older than the oldest kept is refused.
    pub fn versions_since(&self, version: usize) -> (r: Vec<&Version>)
        requires
            self.versions@.len() > 0 ==> self.versions@[0].id <= version,
        ensures
            r@.len() == self.versions@.len() - self.since_index(version),
            forall|i: int| 0 <= i < r@.len() ==> *r@[i] == self.versions@[self.since_index(version) + i],
    {
        let mut r: Vec<&Version> = Vec::new();
        let n = self.versions.len();
        if n == 0 {
            return r;
        }
        let index = version - self.versions[0].id;
        if index >= n {
            return r;
        }
        let mut i = index;
        while i < n
            invariant
                n == self.versions@.len(),
                index == self.since_index(version),
                index <= i <= n,
                r@.len() == i - index,
                forall|j: int| 0 <= j < r@.len() ==> *r@[j] == self.versions@[index + j],
            decreases n - i,
        {
            r.push(&self.versions[i]);
            i += 1;
        }
        r
    }

    /// The id of the newest version, `0` when there is none.
    pub fn latest_version(&self) -> (r: usize)
        ensures
            r == (if self.versions@.len() == 0 {
                0
            } else {
                self.versions@[self.versions@.len() - 1].id
            }),
    {
        let n = self.versions.len();
        if n == 0 {
            0
        } else {
            self.versions[n - 1].id
        }
    }

    /// The changes of the versions from `version` on, merged in order: the
    /// roots of all of them together.
    pub fn changes_since(&self, version: usize) -> (r: DirectoryChanges)
        requires
            self.versions@.len() > 0 ==> self.versions@[0].id <= version,
        ensures
            r@ == roots(union_all(self.change_sets().skip(self.since_index(version)))),
    {
        let since = self.versions_since(version);
        let ghost s = self.change_sets().skip(self.since_index(version));
        let mut changes = DirectoryChanges::new();
        let mut i: usize = 0;
        proof {
            assert(s.take(0) =~= Seq::<Set<Seq<Seq<u8>>>>::empty());
            assert(roots(Set::<Seq<Seq<u8>>>::empty()) =~= Set::<Seq<Seq<u8>>>::empty());
        }
        while i < since.len()
            invariant
                since@.len() == s.len(),
                forall|j: int| 0 <= j < since@.len() ==> (*since@[j]).changes@ == s[j],
                0 <= i <= since@.len(),
                changes@ == roots(union_all(s.take(i as int))),
            decreases since@.len() - i,
        {
            changes.merge_with(&since[i].changes);
            proof {
                lemma_roots_absorb(union_all(s.take(i as int)), s[i as int]);
                assert(s.take(i + 1).drop_last() =~= s.take(i as int));
            }
            i += 1;
        }
        assert(s.take(since@.len() as int) =~= s);
        changes
    }
}
} // verus!
