//! Compatibility helpers: a lazily initialized cell and small in-place sorts.
use vstd::prelude::*;
use vstd::std_specs::cmp::{OrdSpec, PartialOrdSpec};
use core::cmp::Ordering;

verus! {

// ---------------------------------------------------------------------------
// OnceCell
// ---------------------------------------------------------------------------

/// `std::sync::OnceLock`, a write-once cell of std, declared so that it can
/// stand in a field; Verus sees nothing inside it.
#[verifier::external_type_specification]
#[verifier::external_body]
#[verifier::reject_recursive_types(T)]
pub struct ExOnceLock<T>(std::sync::OnceLock<T>);

/// Calls `std::sync::OnceLock::new`: an empty cell. Nothing is stated of the
/// result, whose contents Verus does not see.
#[verifier::external_body]
fn once_lock_new<T>() -> (cell: std::sync::OnceLock<T>) {
    std::sync::OnceLock::new()
}

/// A lazily initialized value: set at most once, on first access, and never
/// changed afterwards.
#[verifier::reject_recursive_types(T)]
pub struct OnceCell<T: Sync> {
    cell: std::sync::OnceLock<T>,
}

/// Calls `std::sync::OnceLock::get`: the value of the cell, if it has been
/// set. Nothing is stated of the result, which depends on what earlier calls
/// (on any thread) stored.
#[verifier::external_body]
fn once_lock_get<T>(cell: &std::sync::OnceLock<T>) -> (r: Option<&T>) {
    cell.get()
}

/// Calls `std::sync::OnceLock::get_or_init` with an initializer that only
/// hands back `value`: the value of the cell, which is `value` where the cell
/// was still empty. The initializer touches no cell, so the call cannot
/// re-enter the cell and always returns. Nothing is stated of the result,
/// which may have been stored by an earlier call.
#[verifier::external_body]
fn once_lock_get_or_set<T>(cell: &std::sync::OnceLock<T>, value: T) -> (r: &T) {
    cell.get_or_init(|| value)
}

impl<T: Sync> OnceCell<T> {
    /// A new, uninitialized cell.
    pub fn new() -> Self {
        OnceCell { cell: once_lock_new() }
    }

    /// The value of the cell, initializing it with the result of `init` on
    /// first access. `init` runs outside the cell, so it may itself use the
    /// cell; when threads race on an empty cell each may run its `init`, and
    /// the first value stored is the one every caller gets.
    pub fn get(&self, init: impl FnOnce() -> T) -> &T
        requires
            call_requires(init, ()),
    {
        match once_lock_get(&self.cell) {
            Some(v) => v,
            None => {
                let value = init();
                once_lock_get_or_set(&self.cell, value)
            },
        }
    }
}

impl<T: Sync> Default for OnceCell<T> {
    /// A new, uninitialized cell.
    fn default() -> Self {
        Self::new()
    }
}

// ---------------------------------------------------------------------------
// In-place sorting
// ---------------------------------------------------------------------------

/// `<[T]>::swap` exchanges the two entries at `a` and `b` (std documents that
/// it panics when either index is out of bounds, which `requires` excludes).
pub assume_specification<Elem>[ <[Elem]>::swap ](slice: &mut [Elem], a: usize, b: usize)
    requires
        a < old(slice)@.len(),
        b < old(slice)@.len(),
    ensures
        final(slice)@ == old(slice)@.update(a as int, old(slice)@[b as int]).update(
            b as int,
            old(slice)@[a as int],
        ),
;

/// `le` is a total preorder: any two values are related one way or the other,
/// and the relation is transitive.
pub open spec fn total_preorder<T>(le: spec_fn(T, T) -> bool) -> bool {
    &&& forall|a: T, b: T| #[trigger] le(a, b) || le(b, a)
    &&& forall|a: T, b: T, c: T| #[trigger] le(a, b) && #[trigger] le(b, c) ==> le(a, c)
}

/// The comparator `cmp` answers `Greater` exactly when its first argument is
/// not ordered before its second by `le`.
pub open spec fn cmp_agrees<T, F: FnMut(&T, &T) -> Ordering>(
    cmp: F,
    le: spec_fn(T, T) -> bool,
) -> bool {
    forall|a: T, b: T, o: Ordering|
        #[trigger] call_ensures(cmp, (&a, &b), o) ==> (o == Ordering::Greater <==> !le(a, b))
}

/// The comparator `cmp` follows the total preorder `le`.
pub open spec fn cmp_follows<T, F: FnMut(&T, &T) -> Ordering>(
    cmp: F,
    le: spec_fn(T, T) -> bool,
) -> bool {
    total_preorder(le) && cmp_agrees(cmp, le)
}

/// `s` is sorted by `le`.
pub open spec fn sorted_by<T>(le: spec_fn(T, T) -> bool, s: Seq<T>) -> bool {
    forall|a: int, b: int| 0 <= a < b < s.len() ==> #[trigger] le(s[a], s[b])
}

/// The entries of `s` up to position `hi` other than the one at `skip` are
/// sorted by `le`.
pub open spec fn sorted_except<T>(le: spec_fn(T, T) -> bool, s: Seq<T>, hi: int, skip: int) -> bool {
    forall|a: int, b: int|
        0 <= a < b <= hi && a != skip && b != skip ==> #[trigger] le(s[a], s[b])
}

/// Exchanging two entries keeps the multiset of entries.
proof fn lemma_swap_to_multiset<T>(s: Seq<T>, i: int, j: int)
    requires
        0 <= i < s.len(),
        0 <= j < s.len(),
    ensures
        s.update(i, s[j]).update(j, s[i]).to_multiset() == s.to_multiset(),
{
    broadcast use vstd::multiset::group_multiset_axioms;

    let m = s.to_multiset();
    let s1 = s.update(i, s[j]);
    let s2 = s1.update(j, s[i]);
    assert(s1[j] == s[j]);
    vstd::seq_lib::to_multiset_update(s, i, s[j]);
    vstd::seq_lib::to_multiset_update(s1, j, s[i]);
    vstd::seq_lib::to_multiset_contains(s, s[i]);
    vstd::seq_lib::to_multiset_contains(s, s[j]);
    assert(s.contains(s[i]));
    assert(s.contains(s[j]));
    let m1 = m.insert(s[j]).remove(s[i]);
    let m2 = m1.insert(s[i]).remove(s[j]);
    assert(m2 =~= m);
}

/// A prefix sorted apart from its first entry, whose first entry is ordered
/// before all the others, is sorted.
proof fn lemma_insert_at_front_le<T>(le: spec_fn(T, T) -> bool, s: Seq<T>, hi: int)
    requires
        sorted_except(le, s, hi, 0),
        forall|b: int| 0 < b <= hi ==> #[trigger] le(s[0], s[b]),
    ensures
        sorted_except(le, s, hi, -1),
{
    assert forall|a: int, b: int| 0 <= a < b <= hi && a != -1 && b != -1 implies #[trigger] le(
        s[a],
        s[b],
    ) by {
        if a == 0 {
            assert(0 < b <= hi);
        } else {
            assert(a != 0 && b != 0);
        }
    }
}

/// A prefix sorted apart from entry `j`, where entry `j` is ordered after
/// entry `j - 1` and before all entries after it, is sorted.
proof fn lemma_insert_in_place<T>(le: spec_fn(T, T) -> bool, s: Seq<T>, hi: int, j: int)
    requires
        total_preorder(le),
        0 < j <= hi,
        sorted_except(le, s, hi, j),
        forall|b: int| j < b <= hi ==> #[trigger] le(s[j], s[b]),
        le(s[j - 1], s[j]),
    ensures
        sorted_except(le, s, hi, -1),
{
    assert forall|a: int, b: int| 0 <= a < b <= hi && a != -1 && b != -1 implies #[trigger] le(
        s[a],
        s[b],
    ) by {
        if b == j && a < j - 1 {
            assert(le(s[a], s[j - 1]));
        } else if b == j {
        } else if a == j {
            assert(j < b <= hi);
        } else {
            assert(a != j && b != j);
        }
    }
}

/// Exchanging entry `j` with entry `j - 1`, which it is ordered strictly
/// before, moves the unsorted entry one place to the front.
proof fn lemma_insert_swap<T>(le: spec_fn(T, T) -> bool, s: Seq<T>, hi: int, j: int)
    requires
        total_preorder(le),
        0 < j <= hi < s.len(),
        sorted_except(le, s, hi, j),
        forall|b: int| j < b <= hi ==> #[trigger] le(s[j], s[b]),
        !le(s[j - 1], s[j]),
    ensures
        ({
            let s2 = s.update(j - 1, s[j]).update(j, s[j - 1]);
            sorted_except(le, s2, hi, j - 1) && forall|b: int|
                j - 1 < b <= hi ==> #[trigger] le(s2[j - 1], s2[b])
        }),
{
    let s2 = s.update(j - 1, s[j]).update(j, s[j - 1]);
    assert(le(s[j], s[j - 1]));
    assert forall|a: int, b: int| 0 <= a < b <= hi && a != j - 1 && b != j - 1 implies #[trigger] le(
        s2[a],
        s2[b],
    ) by {
        if b == j {
            assert(le(s[a], s[j - 1]));
        } else if a == j {
            assert(le(s[j - 1], s[b]));
        } else {
            assert(s2[a] == s[a] && s2[b] == s[b]);
        }
    }
    assert forall|b: int| j - 1 < b <= hi implies #[trigger] le(s2[j - 1], s2[b]) by {
        if b > j {
            assert(s2[b] == s[b]);
            assert(le(s[j], s[b]));
        }
    }
}

/// A sequence sorted up to its last entry is sorted.
proof fn lemma_sorted_except_whole<T>(le: spec_fn(T, T) -> bool, s: Seq<T>)
    requires
        sorted_except(le, s, s.len() - 1, -1),
    ensures
        sorted_by(le, s),
{
    assert forall|a: int, b: int| 0 <= a < b < s.len() implies #[trigger] le(s[a], s[b]) by {
        assert(0 <= a < b <= s.len() - 1 && a != -1 && b != -1);
    }
}

/// `p` is a bijection of the positions `0..n`.
pub open spec fn index_map(p: Seq<int>, n: nat) -> bool {
    &&& p.len() == n
    &&& forall|k: int| 0 <= k < n ==> 0 <= #[trigger] p[k] < n
    &&& forall|k: int, l: int| 0 <= k < l < n ==> #[trigger] p[k] != #[trigger] p[l]
}

/// Position `k` of `s` holds the entry at position `p[k]` of `s0`.
pub open spec fn moved_from<T>(s: Seq<T>, s0: Seq<T>, p: Seq<int>) -> bool {
    forall|k: int| 0 <= k < s.len() ==> #[trigger] s[k] == s0[p[k]]
}

/// Entries of `s` up to position `hi`, other than the one at `skip`, that
/// `le` ranks equal appear in the order of their input positions `p`.
pub open spec fn stable_except<T>(
    le: spec_fn(T, T) -> bool,
    s: Seq<T>,
    p: Seq<int>,
    hi: int,
    skip: int,
) -> bool {
    forall|k: int, l: int|
        0 <= k < l <= hi && k != skip && l != skip && #[trigger] le(s[k], s[l]) && le(s[l], s[k])
            ==> p[k] < p[l]
}

/// Entries of `s` that `le` ranks equal appear in the order of their
/// input positions `p`.
pub open spec fn stable_by<T>(le: spec_fn(T, T) -> bool, s: Seq<T>, p: Seq<int>) -> bool {
    forall|k: int, l: int|
        0 <= k < l < s.len() && #[trigger] le(s[k], s[l]) && le(s[l], s[k]) ==> p[k] < p[l]
}

/// Stability is kept when the entry being inserted, which came last and is
/// strictly before all entries it passed, settles at position `j`.
proof fn lemma_stable_settle<T>(le: spec_fn(T, T) -> bool, s: Seq<T>, p: Seq<int>, hi: int, j: int)
    requires
        0 <= j <= hi < p.len(),
        stable_except(le, s, p, hi, j),
        forall|b: int| j < b <= hi ==> !#[trigger] le(s[b], s[j]),
        p[j] == hi,
        forall|b: int| 0 <= b <= hi && b != j ==> #[trigger] p[b] < hi,
    ensures
        stable_except(le, s, p, hi, -1),
{
    assert forall|k: int, l: int|
        0 <= k < l <= hi && k != -1 && l != -1 && #[trigger] le(s[k], s[l]) && le(
            s[l],
            s[k],
        ) implies p[k] < p[l] by {
        if l == j {
            assert(p[k] < hi);
        } else if k == j {
            assert(!le(s[l], s[j]));
        } else {
            assert(k != j && l != j);
        }
    }
}

/// Stability is kept when the entry being inserted passes the entry before it.
proof fn lemma_stable_swap<T>(le: spec_fn(T, T) -> bool, s: Seq<T>, p: Seq<int>, hi: int, j: int)
    requires
        0 < j <= hi < s.len(),
        s.len() == p.len(),
        stable_except(le, s, p, hi, j),
        forall|b: int| j < b <= hi ==> !#[trigger] le(s[b], s[j]),
        !le(s[j - 1], s[j]),
    ensures
        ({
            let s2 = s.update(j - 1, s[j]).update(j, s[j - 1]);
            let p2 = p.update(j - 1, p[j]).update(j, p[j - 1]);
            stable_except(le, s2, p2, hi, j - 1) && forall|b: int|
                j - 1 < b <= hi ==> !#[trigger] le(s2[b], s2[j - 1])
        }),
{
    let s2 = s.update(j - 1, s[j]).update(j, s[j - 1]);
    let p2 = p.update(j - 1, p[j]).update(j, p[j - 1]);
    assert forall|k: int, l: int|
        0 <= k < l <= hi && k != j - 1 && l != j - 1 && #[trigger] le(s2[k], s2[l]) && le(
            s2[l],
            s2[k],
        ) implies p2[k] < p2[l] by {
        if l == j {
            assert(le(s[k], s[j - 1]) && le(s[j - 1], s[k]));
        } else if k == j {
            assert(le(s[j - 1], s[l]) && le(s[l], s[j - 1]));
        } else {
            assert(s2[k] == s[k] && s2[l] == s[l]);
        }
    }
    assert forall|b: int| j - 1 < b <= hi implies !#[trigger] le(s2[b], s2[j - 1]) by {
        if b > j {
            assert(s2[b] == s[b]);
        }
    }
}

/// Sorts `slice` in place by the comparator `cmp` (insertion sort, meant for
/// short slices); `cmp` is only ever called on two entries of the slice. The result is always a permutation of the input; it is
/// sorted by every total preorder that `cmp` follows, and entries that such an
/// order ranks equal keep the order they had in the input.
pub fn sort_by<T>(slice: &mut [T], mut cmp: impl FnMut(&T, &T) -> Ordering)
    requires
        forall|i: int, j: int|
            0 <= i < old(slice)@.len() && 0 <= j < old(slice)@.len() ==> #[trigger] call_requires(
                cmp,
                (&old(slice)@[i], &old(slice)@[j]),
            ),
    ensures
        final(slice)@.to_multiset() == old(slice)@.to_multiset(),
        forall|le: spec_fn(T, T) -> bool|
            #[trigger] cmp_follows(cmp, le) ==> sorted_by(le, final(slice)@),
        exists|p: Seq<int>|
            {
                &&& index_map(p, old(slice)@.len())
                &&& moved_from(final(slice)@, old(slice)@, p)
                &&& forall|le: spec_fn(T, T) -> bool|
                    #[trigger] cmp_follows(cmp, le) ==> stable_by(le, final(slice)@, p)
            },
{
    let ghost cmp0 = cmp;
    let ghost s0 = slice@;
    let n: usize = slice.len();
    let ghost mut p: Seq<int> = Seq::new(s0.len(), |k: int| k);
    let mut i: usize = 1;
    let ghost mut ii: int = 1;
    while i < n
        invariant
            cmp == cmp0,
            forall|x: int, y: int|
                0 <= x < s0.len() && 0 <= y < s0.len() ==> #[trigger] call_requires(
                    cmp,
                    (&s0[x], &s0[y]),
                ),
            slice@.len() == n,
            s0.len() == n,
            ii == i,
            1 <= i,
            n >= 1 ==> i <= n,
            slice@.to_multiset() == s0.to_multiset(),
            index_map(p, s0.len()),
            moved_from(slice@, s0, p),
            forall|b: int| ii <= b < n ==> #[trigger] p[b] == b,
            forall|b: int| 0 <= b < ii && b < n ==> #[trigger] p[b] < ii,
            forall|le: spec_fn(T, T) -> bool|
                #[trigger] cmp_follows(cmp, le) ==> sorted_except(le, slice@, ii - 1, -1)
                    && stable_except(le, slice@, p, ii - 1, -1),
        decreases n - i,
    {
        let mut j: usize = i;
        let ghost mut jj: int = ii;
        loop
            invariant
                cmp == cmp0,
                forall|x: int, y: int|
                0 <= x < s0.len() && 0 <= y < s0.len() ==> #[trigger] call_requires(
                    cmp,
                    (&s0[x], &s0[y]),
                ),
                slice@.len() == n,
                s0.len() == n,
                ii == i,
                jj == j,
                0 <= j <= i < n,
                slice@.to_multiset() == s0.to_multiset(),
                index_map(p, s0.len()),
                moved_from(slice@, s0, p),
                forall|b: int| ii < b < n ==> #[trigger] p[b] == b,
                p[jj] == ii,
                forall|b: int| 0 <= b <= ii && b != jj ==> #[trigger] p[b] < ii,
                forall|le: spec_fn(T, T) -> bool|
                    #[trigger] cmp_follows(cmp, le) ==> sorted_except(le, slice@, ii, jj)
                        && (forall|b: int| jj < b <= ii ==> #[trigger] le(slice@[jj], slice@[b]))
                        && stable_except(le, slice@, p, ii, jj)
                        && (forall|b: int| jj < b <= ii ==> !#[trigger] le(slice@[b], slice@[jj])),
            ensures
                cmp == cmp0,
                slice@.len() == n,
                ii == i,
                slice@.to_multiset() == s0.to_multiset(),
                index_map(p, s0.len()),
                moved_from(slice@, s0, p),
                forall|b: int| ii < b < n ==> #[trigger] p[b] == b,
                forall|b: int| 0 <= b <= ii ==> #[trigger] p[b] <= ii,
                forall|le: spec_fn(T, T) -> bool|
                    #[trigger] cmp_follows(cmp, le) ==> sorted_except(le, slice@, ii, -1)
                        && stable_except(le, slice@, p, ii, -1),
            decreases j,
        {
            if j == 0 {
                proof {
                    assert forall|le: spec_fn(T, T) -> bool| #[trigger]
                        cmp_follows(cmp, le) implies sorted_except(le, slice@, ii, -1)
                        && stable_except(le, slice@, p, ii, -1) by {
                        lemma_insert_at_front_le(le, slice@, ii);
                        lemma_stable_settle(le, slice@, p, ii, jj);
                    }
                }
                break ;
            }
            proof {
                assert(slice@[jj - 1] == s0[p[jj - 1]]);
                assert(slice@[jj] == s0[p[jj]]);
                assert(call_requires(cmp, (&s0[p[jj - 1]], &s0[p[jj]])));
            }
            let o = cmp(&slice[j - 1], &slice[j]);
            match o {
                Ordering::Greater => {},
                _ => {
                    proof {
                        assert forall|le: spec_fn(T, T) -> bool| #[trigger]
                            cmp_follows(cmp, le) implies sorted_except(le, slice@, ii, -1)
                            && stable_except(le, slice@, p, ii, -1) by {
                            assert(le(slice@[jj - 1], slice@[jj]));
                            lemma_insert_in_place(le, slice@, ii, jj);
                            lemma_stable_settle(le, slice@, p, ii, jj);
                        }
                    }
                    break ;
                },
            }
            let ghost s = slice@;
            slice.swap(j - 1, j);
            proof {
                lemma_swap_to_multiset(s, jj - 1, jj);
                let p_old = p;
                p = p.update(jj - 1, p_old[jj]).update(jj, p_old[jj - 1]);
                assert forall|le: spec_fn(T, T) -> bool| #[trigger]
                    cmp_follows(cmp, le) implies sorted_except(le, slice@, ii, jj - 1)
                        && (forall|b: int| jj - 1 < b <= ii ==> #[trigger] le(
                        slice@[jj - 1],
                        slice@[b],
                    )) && stable_except(le, slice@, p, ii, jj - 1) && (forall|b: int|
                        jj - 1 < b <= ii ==> !#[trigger] le(slice@[b], slice@[jj - 1])) by {
                    assert(!le(s[jj - 1], s[jj]));
                    lemma_insert_swap(le, s, ii, jj);
                    lemma_stable_swap(le, s, p_old, ii, jj);
                }
                assert forall|k: int, l: int| 0 <= k < l < n implies #[trigger] p[k] != #[trigger] p[l] by {
                    if k == jj - 1 || k == jj || l == jj - 1 || l == jj {
                        assert(p_old[k] != p_old[l] || k == l);
                    }
                }
                assert(moved_from(slice@, s0, p));
                jj = jj - 1;
            }
            j = j - 1;
        }
        i = i + 1;
        proof {
            ii = ii + 1;
        }
    }
    proof {
        assert forall|le: spec_fn(T, T) -> bool| #[trigger]
            cmp_follows(cmp, le) implies sorted_by(le, slice@) && stable_by(le, slice@, p) by {
            if n >= 1 {
                lemma_sorted_except_whole(le, slice@);
                assert forall|k: int, l: int|
                    0 <= k < l < slice@.len() && #[trigger] le(slice@[k], slice@[l]) && le(
                        slice@[l],
                        slice@[k],
                    ) implies p[k] < p[l] by {
                    assert(0 <= k < l <= ii - 1 && k != -1 && l != -1);
                }
            }
        }
    }
}

/// A bijection of `0..n` takes every value of `0..n`.
proof fn lemma_index_map_onto(p: Seq<int>, n: nat, v: int)
    requires
        index_map(p, n),
        0 <= v < n,
    ensures
        exists|k: int| 0 <= k < n && p[k] == v,
{
    let r = vstd::set_lib::set_int_range(0, n as int);
    vstd::set_lib::lemma_int_range(0, n as int);
    let f = |k: int| p[k];
    assert(vstd::relations::injective_on(f, r)) by {
        assert forall|x: int, y: int| r.contains(x) && r.contains(y) && #[trigger] f(x) == #[trigger] f(
            y,
        ) implies x == y by {
            if x < y {
                assert(p[x] != p[y]);
            } else if y < x {
                assert(p[y] != p[x]);
            }
        }
    }
    let img = r.map(f);
    vstd::set_lib::lemma_map_size(r, img, f);
    assert(img.subset_of(r));
    vstd::set_lib::lemma_subset_equality(img, r);
    assert(r.contains(v));
    assert(img.contains(v));
}

/// Where two stable, sorted rearrangements agree before position `k`, they
/// take the same input position at `k`.
proof fn lemma_stable_sort_agree_at<T>(
    le: spec_fn(T, T) -> bool,
    s0: Seq<T>,
    s1: Seq<T>,
    p1: Seq<int>,
    s2: Seq<T>,
    p2: Seq<int>,
    k: int,
)
    requires
        index_map(p1, s0.len()),
        index_map(p2, s0.len()),
        s1.len() == s0.len(),
        s2.len() == s0.len(),
        moved_from(s1, s0, p1),
        moved_from(s2, s0, p2),
        sorted_by(le, s1),
        sorted_by(le, s2),
        stable_by(le, s1, p1),
        stable_by(le, s2, p2),
        0 <= k < s0.len(),
        forall|j: int| 0 <= j < k ==> p1[j] == p2[j],
    ensures
        p1[k] == p2[k],
{
    let x = p1[k];
    let y = p2[k];
    if x != y {
        lemma_index_map_onto(p1, s0.len(), y);
        let k1 = choose|k1: int| 0 <= k1 < s0.len() && p1[k1] == y;
        lemma_index_map_onto(p2, s0.len(), x);
        let k2 = choose|k2: int| 0 <= k2 < s0.len() && p2[k2] == x;
        if k1 < k {
            assert(p2[k1] == y);
            assert(p2[k1] != p2[k]);
        }
        if k2 < k {
            assert(p1[k2] == x);
            assert(p1[k2] != p1[k]);
        }
        assert(k1 != k && k2 != k);
        assert(s1[k] == s0[x] && s1[k1] == s0[y]);
        assert(s2[k] == s0[y] && s2[k2] == s0[x]);
        assert(le(s1[k], s1[k1]));
        assert(le(s2[k], s2[k2]));
        assert(p1[k] < p1[k1]);
        assert(p2[k] < p2[k2]);
    }
}

/// Two stable, sorted rearrangements agree at every position before `k`.
proof fn lemma_stable_sort_agree_upto<T>(
    le: spec_fn(T, T) -> bool,
    s0: Seq<T>,
    s1: Seq<T>,
    p1: Seq<int>,
    s2: Seq<T>,
    p2: Seq<int>,
    k: int,
)
    requires
        index_map(p1, s0.len()),
        index_map(p2, s0.len()),
        s1.len() == s0.len(),
        s2.len() == s0.len(),
        moved_from(s1, s0, p1),
        moved_from(s2, s0, p2),
        sorted_by(le, s1),
        sorted_by(le, s2),
        stable_by(le, s1, p1),
        stable_by(le, s2, p2),
        0 <= k <= s0.len(),
    ensures
        forall|j: int| 0 <= j < k ==> p1[j] == p2[j],
    decreases k,
{
    if k > 0 {
        lemma_stable_sort_agree_upto(le, s0, s1, p1, s2, p2, k - 1);
        lemma_stable_sort_agree_at(le, s0, s1, p1, s2, p2, k - 1);
    }
}

/// Stable sorting has one result: any two rearrangements of `s0` that are
/// sorted by `le` and keep entries that `le` ranks equal in input order are
/// equal. So `sort_by` and `sort` give exactly what any stable sort by the
/// same order gives.
pub proof fn lemma_stable_sort_unique<T>(
    le: spec_fn(T, T) -> bool,
    s0: Seq<T>,
    s1: Seq<T>,
    p1: Seq<int>,
    s2: Seq<T>,
    p2: Seq<int>,
)
    requires
        index_map(p1, s0.len()),
        index_map(p2, s0.len()),
        s1.len() == s0.len(),
        s2.len() == s0.len(),
        moved_from(s1, s0, p1),
        moved_from(s2, s0, p2),
        sorted_by(le, s1),
        sorted_by(le, s2),
        stable_by(le, s1, p1),
        stable_by(le, s2, p2),
    ensures
        s1 == s2,
{
    lemma_stable_sort_agree_upto(le, s0, s1, p1, s2, p2, s0.len() as int);
    assert forall|k: int| 0 <= k < s1.len() implies s1[k] == s2[k] by {
        assert(s1[k] == s0[p1[k]]);
        assert(s2[k] == s0[p2[k]]);
    }
    assert(s1 =~= s2);
}

/// Where `le` ranks equal only identical values, two sequences sorted by it
/// that hold the same multiset of entries are equal: the sorted result
/// depends only on the multiset of the input.
pub proof fn lemma_sorted_same_multiset_equal<T>(le: spec_fn(T, T) -> bool, a: Seq<T>, b: Seq<T>)
    requires
        total_preorder(le),
        forall|x: T, y: T| #[trigger] le(x, y) && le(y, x) ==> x == y,
        sorted_by(le, a),
        sorted_by(le, b),
        a.to_multiset() == b.to_multiset(),
    ensures
        a == b,
    decreases a.len(),
{
    vstd::seq_lib::to_multiset_len(a);
    vstd::seq_lib::to_multiset_len(b);
    if a.len() == 0 {
        assert(a =~= b);
    } else {
        vstd::seq_lib::to_multiset_contains(a, a[0]);
        vstd::seq_lib::to_multiset_contains(b, a[0]);
        vstd::seq_lib::to_multiset_contains(a, b[0]);
        vstd::seq_lib::to_multiset_contains(b, b[0]);
        assert(a.contains(a[0]));
        assert(b.contains(b[0]));
        let j = choose|j: int| 0 <= j < b.len() && b[j] == a[0];
        let i = choose|i: int| 0 <= i < a.len() && a[i] == b[0];
        assert(le(b[0], b[0]) || le(b[0], b[0]));
        assert(le(a[0], a[0]) || le(a[0], a[0]));
        if j > 0 {
            assert(le(b[0], b[j]));
        }
        if i > 0 {
            assert(le(a[0], a[i]));
        }
        assert(le(b[0], a[0]) && le(a[0], b[0]));
        assert(a[0] == b[0]);
        vstd::seq_lib::to_multiset_remove(a, 0);
        vstd::seq_lib::to_multiset_remove(b, 0);
        assert(a.remove(0) =~= a.drop_first());
        assert(b.remove(0) =~= b.drop_first());
        let a1 = a.drop_first();
        let b1 = b.drop_first();
        assert forall|x: int, y: int| 0 <= x < y < a1.len() implies #[trigger] le(a1[x], a1[y]) by {
            assert(le(a[x + 1], a[y + 1]));
        }
        assert forall|x: int, y: int| 0 <= x < y < b1.len() implies #[trigger] le(b1[x], b1[y]) by {
            assert(le(b[x + 1], b[y + 1]));
        }
        lemma_sorted_same_multiset_equal(le, a1, b1);
        assert(a =~= b) by {
            assert forall|k: int| 0 <= k < a.len() implies a[k] == b[k] by {
                if k > 0 {
                    assert(a[k] == a1[k - 1] && b[k] == b1[k - 1]);
                }
            }
        }
    }
}

/// `a` is not greater than `b` in the order of `T`.
pub open spec fn ord_le<T: Ord>(a: T, b: T) -> bool {
    a.cmp_spec(&b) != Ordering::Greater
}

/// Where `T` obeys the laws of a total order, "not greater" is a total preorder.
pub proof fn lemma_ord_le_total_preorder<T: Ord>()
    requires
        vstd::laws_cmp::obeys_cmp::<T>(),
    ensures
        total_preorder(|a: T, b: T| ord_le(a, b)),
{
    reveal(vstd::laws_cmp::obeys_partial_cmp_spec_properties);
    reveal(vstd::laws_cmp::obeys_cmp_ord);
    reveal(vstd::laws_eq::obeys_eq_spec_properties);
    let le = |a: T, b: T| ord_le(a, b);
    assert forall|a: T, b: T| #[trigger] le(a, b) || le(b, a) by {
        assert(a.partial_cmp_spec(&b) == Some(a.cmp_spec(&b)));
        assert(b.partial_cmp_spec(&a) == Some(b.cmp_spec(&a)));
    }
    assert forall|a: T, b: T, c: T| #[trigger] le(a, b) && #[trigger] le(b, c) implies le(a, c) by {
        assert(a.partial_cmp_spec(&b) == Some(a.cmp_spec(&b)));
        assert(b.partial_cmp_spec(&c) == Some(b.cmp_spec(&c)));
        assert(a.partial_cmp_spec(&c) == Some(a.cmp_spec(&c)));
        assert(b.partial_cmp_spec(&a) == Some(b.cmp_spec(&a)));
        assert(c.partial_cmp_spec(&b) == Some(c.cmp_spec(&b)));
        assert(c.partial_cmp_spec(&a) == Some(c.cmp_spec(&a)));
    }
}

/// Sorts `slice` in ascending order of `T`. The result is always a
/// permutation of the input; wherever `T` obeys the laws of a total order it
/// is sorted, and equal entries keep the order they had in the input.
pub fn sort<T: Ord>(slice: &mut [T])
    ensures
        final(slice)@.to_multiset() == old(slice)@.to_multiset(),
        vstd::laws_cmp::obeys_cmp::<T>() ==> sorted_by(|a: T, b: T| ord_le(a, b), final(slice)@),
        exists|p: Seq<int>|
            {
                &&& index_map(p, old(slice)@.len())
                &&& moved_from(final(slice)@, old(slice)@, p)
                &&& vstd::laws_cmp::obeys_cmp::<T>() ==> stable_by(
                    |a: T, b: T| ord_le(a, b),
                    final(slice)@,
                    p,
                )
            },
{
    let ghost s0 = slice@;
    let by_order = |a: &T, b: &T| -> (o: Ordering)
        ensures
            T::obeys_cmp_spec() ==> o == a.cmp_spec(b),
        { a.cmp(b) };
    sort_by(slice, by_order);
    proof {
        let le = |a: T, b: T| ord_le(a, b);
        if vstd::laws_cmp::obeys_cmp::<T>() {
            lemma_ord_le_total_preorder::<T>();
            reveal(vstd::laws_cmp::obeys_cmp_ord);
            assert(cmp_agrees(by_order, le));
            assert(cmp_follows(by_order, le));
        }
        let p = choose|p: Seq<int>|
            {
                &&& index_map(p, s0.len())
                &&& moved_from(slice@, s0, p)
                &&& forall|le2: spec_fn(T, T) -> bool|
                    #[trigger] cmp_follows(by_order, le2) ==> stable_by(le2, slice@, p)
            };
        assert(index_map(p, s0.len()) && moved_from(slice@, s0, p) && (
        vstd::laws_cmp::obeys_cmp::<T>() ==> stable_by(le, slice@, p)));
    }
}

/// For a lawful order in which equal values are identical (integers, say),
/// the results of `sort` on any two rearrangements of the same entries are
/// equal: `a` and `b` stand for such results.
pub proof fn lemma_sort_depends_only_on_multiset<T: Ord>(a: Seq<T>, b: Seq<T>)
    requires
        vstd::laws_cmp::obeys_cmp::<T>(),
        forall|x: T, y: T| #[trigger] ord_le(x, y) && ord_le(y, x) ==> x == y,
        sorted_by(|x: T, y: T| ord_le(x, y), a),
        sorted_by(|x: T, y: T| ord_le(x, y), b),
        a.to_multiset() == b.to_multiset(),
    ensures
        a == b,
{
    let le = |x: T, y: T| ord_le(x, y);
    lemma_ord_le_total_preorder::<T>();
    assert forall|x: T, y: T| #[trigger] le(x, y) && le(y, x) implies x == y by {
        assert(ord_le(x, y) && ord_le(y, x));
    }
    lemma_sorted_same_multiset_equal(le, a, b);
}

} // verus!
