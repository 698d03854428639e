//! Orders used by the exports and a verified sort.
use vstd::prelude::*;
use vstd::multiset::Multiset;

verus! {

broadcast use vstd::seq_lib::group_to_multiset_ensures;

/// A total preorder with an executable comparison.
pub trait Ordered: Sized {
    spec fn le(a: Self, b: Self) -> bool;

    proof fn le_total(a: Self, b: Self)
        ensures
            Self::le(a, b) || Self::le(b, a),
    ;

    proof fn le_trans(a: Self, b: Self, c: Self)
        requires
            Self::le(a, b),
            Self::le(b, c),
        ensures
            Self::le(a, c),
    ;

    fn le_exec(&self, other: &Self) -> (r: bool)
        ensures
            r == Self::le(*self, *other),
    ;
}

pub open spec fn sorted<T: Ordered>(s: Seq<T>) -> bool {
    forall|i: int, j: int| 0 <= i < j < s.len() ==> #[trigger] T::le(s[i], s[j])
}

/// The elements of `v` in non-decreasing order (insertion sort).
pub fn sort_vec<T: Ordered>(v: Vec<T>) -> (r: Vec<T>)
    ensures
        r@.to_multiset() == v@.to_multiset(),
        sorted(r@),
{
    let ghost original = v@;
    let mut src = v;
    let mut r: Vec<T> = Vec::new();
    while src.len() > 0
        invariant
            sorted(r@),
            src@.to_multiset().add(r@.to_multiset()) == original.to_multiset(),
        decreases src@.len(),
    {
        let ghost before_src = src@;
        let x = src.pop().unwrap();
        proof {
            assert(before_src.remove(before_src.len() - 1) =~= src@);
            vstd::seq_lib::to_multiset_remove(before_src, before_src.len() - 1);
        }
        let mut pos: usize = 0;
        while pos < r.len() && r[pos].le_exec(&x)
            invariant
                pos <= r@.len(),
                forall|k: int| 0 <= k < pos ==> T::le(r@[k], x),
            decreases r@.len() - pos,
        {
            pos = pos + 1;
        }
        let ghost old_r = r@;
        proof {
            assert forall|j: int| pos <= j < old_r.len() implies T::le(x, old_r[j]) by {
                T::le_total(old_r[pos as int], x);
                if j > pos {
                    assert(T::le(old_r[pos as int], old_r[j]));
                    T::le_trans(x, old_r[pos as int], old_r[j]);
                }
            }
        }
        r.insert(pos, x);
        proof {
            assert(r@ == old_r.insert(pos as int, x));
            assert forall|i: int, j: int| 0 <= i < j < r@.len() implies #[trigger] T::le(
                r@[i],
                r@[j],
            ) by {
                if j < pos {
                    assert(T::le(old_r[i], old_r[j]));
                } else if j == pos {
                } else if i < pos {
                    assert(T::le(old_r[i], x));
                    assert(T::le(x, old_r[j - 1]));
                    T::le_trans(old_r[i], x, old_r[j - 1]);
                } else if i == pos {
                } else {
                    assert(T::le(old_r[i - 1], old_r[j - 1]));
                }
            }
            assert(r@.to_multiset() == old_r.to_multiset().insert(x));
            assert(before_src.to_multiset() == src@.to_multiset().insert(x));
            assert(src@.to_multiset().add(r@.to_multiset()) =~= before_src.to_multiset().add(
                old_r.to_multiset(),
            ));
        }
    }
    proof {
        assert(src@.to_multiset() =~= Multiset::empty());
        assert(r@.to_multiset() =~= original.to_multiset());
    }
    r
}

/// An element with its position in the sequence it came from.
pub struct Placed<T> {
    pub item: T,
    pub index: usize,
}

/// Elements in order, and among elements that order alike, the one placed
/// first comes first.
impl<T: Ordered> Ordered for Placed<T> {
    open spec fn le(a: Self, b: Self) -> bool {
        T::le(a.item, b.item) && (T::le(b.item, a.item) ==> a.index <= b.index)
    }

    proof fn le_total(a: Self, b: Self) {
        T::le_total(a.item, b.item);
    }

    proof fn le_trans(a: Self, b: Self, c: Self) {
        T::le_trans(a.item, b.item, c.item);
        if T::le(c.item, a.item) {
            T::le_trans(c.item, a.item, b.item);
            T::le_trans(b.item, c.item, a.item);
        }
    }

    fn le_exec(&self, other: &Self) -> (r: bool) {
        self.item.le_exec(&other.item) && (!other.item.le_exec(&self.item) || self.index <= other.index)
    }
}

/// The elements of `v` in non-decreasing order, each with its position in
/// `v`: every position once, and elements that order alike in the order
/// they had in `v` (a stable sort).
pub fn stable_sort<T: Ordered>(v: Vec<T>) -> (r: Vec<Placed<T>>)
    ensures
        r@.len() == v@.len(),
        r@.map_values(|x: Placed<T>| x.item).to_multiset() == v@.to_multiset(),
        forall|k: int|
            0 <= k < r@.len() ==> (#[trigger] r@[k]).index < v@.len() && r@[k].item == v@[r@[k].index as int],
        forall|k: int, l: int| 0 <= k < l < r@.len() ==> (#[trigger] r@[k]).index != (#[trigger] r@[l]).index,
        forall|k: int, l: int|
            0 <= k < l < r@.len() ==> T::le((#[trigger] r@[k]).item, (#[trigger] r@[l]).item) && (T::le(
                r@[l].item,
                r@[k].item,
            ) ==> r@[k].index < r@[l].index),
{
    broadcast use vstd::seq_lib::to_multiset_contains;

    let ghost orig = v@;
    let mut src = v;
    let mut placed: Vec<Placed<T>> = Vec::new();
    while src.len() > 0
        invariant
            src@.len() + placed@.len() == orig.len(),
            src@ == orig.take(src@.len() as int),
            forall|j: int|
                0 <= j < placed@.len() ==> (#[trigger] placed@[j]).index == orig.len() - 1 - j
                    && placed@[j].item == orig[placed@[j].index as int],
        decreases src@.len(),
    {
        let ghost before = src@;
        let x = src.pop().unwrap();
        assert(src@ =~= orig.take(src@.len() as int));
        assert(x == orig[src@.len() as int]);
        let n = src.len();
        placed.push(Placed { item: x, index: n });
    }
    assert(placed@.no_duplicates()) by {
        assert forall|i: int, j: int| 0 <= i < placed@.len() && 0 <= j < placed@.len() && i != j implies placed@[i]
            != placed@[j] by {
            assert(placed@[i].index != placed@[j].index);
        }
    }
    let ghost p = placed@;
    let r = sort_vec(placed);
    proof {
        vstd::seq_lib::to_multiset_len(p);
        vstd::seq_lib::to_multiset_len(r@);
        p.lemma_multiset_has_no_duplicates();
        assert forall|x: Placed<T>| r@.to_multiset().contains(x) implies r@.to_multiset().count(x) == 1 by {
            assert(p.to_multiset().contains(x));
        }
        r@.lemma_multiset_has_no_duplicates_conv();
        crate::workbook::same_values_same_views(r@, p, |x: Placed<T>| x.item);
        assert(p.map_values(|x: Placed<T>| x.item) =~= orig.reverse());
        orig.lemma_reverse_to_multiset();
        assert forall|k: int| 0 <= k < r@.len() implies (#[trigger] r@[k]).index < orig.len() && r@[k].item
            == orig[r@[k].index as int] by {
            assert(r@.contains(r@[k]));
            assert(r@.to_multiset().count(r@[k]) > 0);
            assert(p.contains(r@[k]));
            let j = choose|j: int| 0 <= j < p.len() && p[j] == r@[k];
            assert(p[j].index == orig.len() - 1 - j);
        }
        assert forall|k: int, l: int| 0 <= k < l < r@.len() implies (#[trigger] r@[k]).index != (#[trigger] r@[l]).index by {
            if r@[k].index == r@[l].index {
                assert(r@[k] == r@[l]);
            }
        }
        assert forall|k: int, l: int|
            0 <= k < l < r@.len() implies T::le((#[trigger] r@[k]).item, (#[trigger] r@[l]).item) && (T::le(
                r@[l].item,
                r@[k].item,
            ) ==> r@[k].index < r@[l].index) by {
            assert(Placed::<T>::le(r@[k], r@[l]));
            assert(r@[k].index != r@[l].index);
        }
    }
    r
}

/// `r` is `v` rearranged by `idx`: every position of `v` once, and
/// elements that order alike in the order they had in `v`.
pub open spec fn stable_order<T: Ordered>(v: Seq<T>, r: Seq<T>, idx: Seq<int>) -> bool {
    &&& idx.len() == r.len()
    &&& r.len() == v.len()
    &&& forall|k: int| 0 <= k < r.len() ==> 0 <= #[trigger] idx[k] < v.len() && r[k] == v[idx[k]]
    &&& forall|k: int, l: int| 0 <= k < l < r.len() ==> #[trigger] idx[k] != #[trigger] idx[l]
    &&& forall|k: int, l: int|
        0 <= k < l < r.len() && T::le(r[l], r[k]) ==> #[trigger] idx[k] < #[trigger] idx[l]
}

/// The elements of `v` in non-decreasing order, those that order alike in
/// the order they had in `v` (a stable sort).
pub fn stable_sort_vec<T: Ordered>(v: Vec<T>) -> (r: Vec<T>)
    ensures
        r@.to_multiset() == v@.to_multiset(),
        sorted(r@),
        exists|idx: Seq<int>| stable_order(v@, r@, idx),
{
    let ghost orig = v@;
    let mut placed = stable_sort(v);
    let ghost ps = placed@;
    let ghost n = ps.len();
    let mut rev: Vec<T> = Vec::new();
    while placed.len() > 0
        invariant
            placed@ == ps.take(placed@.len() as int),
            rev@.len() + placed@.len() == n,
            n == ps.len(),
            forall|j: int| 0 <= j < rev@.len() ==> #[trigger] rev@[j] == ps[n - 1 - j].item,
        decreases placed@.len(),
    {
        let ghost before = placed@;
        let x = placed.pop().unwrap();
        assert(placed@ =~= ps.take(placed@.len() as int));
        assert(x == ps[placed@.len() as int]);
        rev.push(x.item);
    }
    let ghost rv = rev@;
    let mut r: Vec<T> = Vec::new();
    while rev.len() > 0
        invariant
            rev@ == rv.take(rev@.len() as int),
            rv.len() == n,
            r@.len() + rev@.len() == n,
            forall|j: int| 0 <= j < rv.len() ==> #[trigger] rv[j] == ps[n - 1 - j].item,
            forall|j: int| 0 <= j < r@.len() ==> #[trigger] r@[j] == ps[j].item,
        decreases rev@.len(),
    {
        let x = rev.pop().unwrap();
        assert(rev@ =~= rv.take(rev@.len() as int));
        assert(x == rv[rev@.len() as int]);
        r.push(x);
    }
    proof {
        assert(r@ =~= ps.map_values(|x: Placed<T>| x.item));
        let idx = ps.map_values(|x: Placed<T>| x.index as int);
        assert(stable_order(orig, r@, idx));
        assert forall|i: int, j: int| 0 <= i < j < r@.len() implies #[trigger] T::le(r@[i], r@[j]) by {
            assert(T::le(ps[i].item, ps[j].item));
        }
    }
    r
}

// ---------------------------------------------------------------------------
// Lexicographic orders
// ---------------------------------------------------------------------------

/// Lexicographic order of texts by code point, the order of `str::cmp`.
pub open spec fn text_le(a: Seq<char>, b: Seq<char>) -> bool
    decreases a.len(),
{
    if a.len() == 0 {
        true
    } else if b.len() == 0 {
        false
    } else if a[0] != b[0] {
        a[0] < b[0]
    } else {
        text_le(a.drop_first(), b.drop_first())
    }
}

pub proof fn text_le_total(a: Seq<char>, b: Seq<char>)
    ensures
        text_le(a, b) || text_le(b, a),
    decreases a.len(),
{
    if a.len() > 0 && b.len() > 0 && a[0] == b[0] {
        text_le_total(a.drop_first(), b.drop_first());
    }
}

pub proof fn text_le_trans(a: Seq<char>, b: Seq<char>, c: Seq<char>)
    requires
        text_le(a, b),
        text_le(b, c),
    ensures
        text_le(a, c),
    decreases a.len(),
{
    if a.len() > 0 && b.len() > 0 && c.len() > 0 && a[0] == b[0] && b[0] == c[0] {
        text_le_trans(a.drop_first(), b.drop_first(), c.drop_first());
    }
}

#[verifier::spinoff_prover]
pub proof fn text_le_antisym(a: Seq<char>, b: Seq<char>)
    requires
        text_le(a, b),
        text_le(b, a),
    ensures
        a == b,
    decreases a.len(),
{
    if a.len() > 0 && b.len() > 0 {
        text_le_antisym(a.drop_first(), b.drop_first());
        assert(a =~= seq![a[0]] + a.drop_first());
        assert(b =~= seq![b[0]] + b.drop_first());
    }
}

pub fn text_le_exec(a: &Vec<char>, b: &Vec<char>) -> (r: bool)
    ensures
        r == text_le(a@, b@),
{
    let mut i: usize = 0;
    assert(a@.subrange(0, a@.len() as int) =~= a@);
    assert(b@.subrange(0, b@.len() as int) =~= b@);
    while i < a.len() && i < b.len() && a[i] == b[i]
        invariant
            i <= a@.len(),
            i <= b@.len(),
            text_le(a@, b@) == text_le(a@.subrange(i as int, a@.len() as int), b@.subrange(i as int, b@.len() as int)),
        decreases a@.len() - i,
    {
        assert(a@.subrange(i as int, a@.len() as int).drop_first() =~= a@.subrange(i + 1, a@.len() as int));
        assert(b@.subrange(i as int, b@.len() as int).drop_first() =~= b@.subrange(i + 1, b@.len() as int));
        i = i + 1;
    }
    if i == a.len() {
        true
    } else if i == b.len() {
        false
    } else {
        a[i] < b[i]
    }
}

/// Lexicographic order of number sequences, the order of `Vec<u32>::cmp`.
pub open spec fn nums_le(a: Seq<u32>, b: Seq<u32>) -> bool
    decreases a.len(),
{
    if a.len() == 0 {
        true
    } else if b.len() == 0 {
        false
    } else if a[0] != b[0] {
        a[0] < b[0]
    } else {
        nums_le(a.drop_first(), b.drop_first())
    }
}

pub proof fn nums_le_total(a: Seq<u32>, b: Seq<u32>)
    ensures
        nums_le(a, b) || nums_le(b, a),
    decreases a.len(),
{
    if a.len() > 0 && b.len() > 0 && a[0] == b[0] {
        nums_le_total(a.drop_first(), b.drop_first());
    }
}

pub proof fn nums_le_trans(a: Seq<u32>, b: Seq<u32>, c: Seq<u32>)
    requires
        nums_le(a, b),
        nums_le(b, c),
    ensures
        nums_le(a, c),
    decreases a.len(),
{
    if a.len() > 0 && b.len() > 0 && c.len() > 0 && a[0] == b[0] && b[0] == c[0] {
        nums_le_trans(a.drop_first(), b.drop_first(), c.drop_first());
    }
}

pub proof fn nums_le_antisym(a: Seq<u32>, b: Seq<u32>)
    requires
        nums_le(a, b),
        nums_le(b, a),
    ensures
        a == b,
    decreases a.len(),
{
    if a.len() > 0 && b.len() > 0 {
        nums_le_antisym(a.drop_first(), b.drop_first());
        assert(a =~= seq![a[0]] + a.drop_first());
        assert(b =~= seq![b[0]] + b.drop_first());
    }
}

pub fn nums_le_exec(a: &Vec<u32>, b: &Vec<u32>) -> (r: bool)
    ensures
        r == nums_le(a@, b@),
{
    let mut i: usize = 0;
    assert(a@.subrange(0, a@.len() as int) =~= a@);
    assert(b@.subrange(0, b@.len() as int) =~= b@);
    while i < a.len() && i < b.len() && a[i] == b[i]
        invariant
            i <= a@.len(),
            i <= b@.len(),
            nums_le(a@, b@) == nums_le(a@.subrange(i as int, a@.len() as int), b@.subrange(i as int, b@.len() as int)),
        decreases a@.len() - i,
    {
        assert(a@.subrange(i as int, a@.len() as int).drop_first() =~= a@.subrange(i + 1, a@.len() as int));
        assert(b@.subrange(i as int, b@.len() as int).drop_first() =~= b@.subrange(i + 1, b@.len() as int));
        i = i + 1;
    }
    if i == a.len() {
        true
    } else if i == b.len() {
        false
    } else {
        a[i] < b[i]
    }
}

/// Texts in the order of `str::cmp`.
impl Ordered for String {
    open spec fn le(a: Self, b: Self) -> bool {
        text_le(a@, b@)
    }

    proof fn le_total(a: Self, b: Self) {
        text_le_total(a@, b@);
    }

    proof fn le_trans(a: Self, b: Self, c: Self) {
        text_le_trans(a@, b@, c@);
    }

    fn le_exec(&self, other: &Self) -> (r: bool) {
        text_le_exec(&crate::text::chars_of(self.as_str()), &crate::text::chars_of(other.as_str()))
    }
}

} // verus!
