//! Orderings used for listings: byte-lexicographic order of text (the order of `str::cmp`)
//! and stable insertion order (the order of `sort_by`, which keeps equal items in place).

use vstd::prelude::*;
use vstd::utf8::encode_utf8;

verus! {

/// `a` sorts strictly before `b` in lexicographic byte order.
pub open spec fn bytes_lt(a: Seq<u8>, b: Seq<u8>) -> bool
    decreases a.len(),
{
    if a.len() == 0 {
        b.len() > 0
    } else if b.len() == 0 {
        false
    } else if a[0] != b[0] {
        a[0] < b[0]
    } else {
        bytes_lt(a.drop_first(), b.drop_first())
    }
}

/// The UTF-8 bytes of a text, which `str::cmp` compares.
pub open spec fn text_bytes(t: Seq<char>) -> Seq<u8> {
    encode_utf8(t)
}

/// `a` sorts strictly before `b` as text.
pub open spec fn text_lt(a: Seq<char>, b: Seq<char>) -> bool {
    bytes_lt(text_bytes(a), text_bytes(b))
}

pub proof fn lemma_bytes_lt_irreflexive(a: Seq<u8>)
    ensures
        !bytes_lt(a, a),
    decreases a.len(),
{
    if a.len() > 0 {
        lemma_bytes_lt_irreflexive(a.drop_first());
    }
}

pub proof fn lemma_bytes_lt_transitive(a: Seq<u8>, b: Seq<u8>, c: Seq<u8>)
    requires
        bytes_lt(a, b),
        bytes_lt(b, c),
    ensures
        bytes_lt(a, c),
    decreases a.len(),
{
    if a.len() > 0 && b.len() > 0 && c.len() > 0 && a[0] == b[0] && b[0] == c[0] {
        lemma_bytes_lt_transitive(a.drop_first(), b.drop_first(), c.drop_first());
    }
}

pub proof fn lemma_bytes_lt_total(a: Seq<u8>, b: Seq<u8>)
    ensures
        a =~= b || bytes_lt(a, b) || bytes_lt(b, a),
    decreases a.len(),
{
    if a.len() > 0 && b.len() > 0 && a[0] == b[0] {
        lemma_bytes_lt_total(a.drop_first(), b.drop_first());
        if a.drop_first() =~= b.drop_first() {
            assert(a =~= seq![a[0]] + a.drop_first());
            assert(b =~= seq![b[0]] + b.drop_first());
        }
    }
}

/// Orders items by a text key.
pub open spec fn by_text_key<T>(key: spec_fn(T) -> Seq<char>) -> spec_fn(T, T) -> bool {
    |a: T, b: T| text_lt(key(a), key(b))
}

/// Ordering by a text key is a strict weak order.
pub proof fn lemma_by_text_key_strict_weak<T>(key: spec_fn(T) -> Seq<char>)
    ensures
        strict_weak(by_text_key(key)),
{
    let before = by_text_key(key);
    assert forall|a: T| !#[trigger] before(a, a) by {
        lemma_bytes_lt_irreflexive(text_bytes(key(a)));
    }
    assert forall|a: T, b: T, c: T| #[trigger] before(a, b) && #[trigger] before(b, c) implies before(a, c) by {
        lemma_bytes_lt_transitive(text_bytes(key(a)), text_bytes(key(b)), text_bytes(key(c)));
    }
    assert forall|a: T, b: T, c: T| !#[trigger] before(a, b) && !#[trigger] before(b, c) implies !before(a, c) by {
        let (x, y, z) = (text_bytes(key(a)), text_bytes(key(b)), text_bytes(key(c)));
        lemma_bytes_lt_total(x, y);
        lemma_bytes_lt_total(y, z);
        if bytes_lt(x, z) {
            if x =~= y {
                assert(bytes_lt(y, z));
            } else if y =~= z {
                assert(bytes_lt(x, y));
            } else {
                lemma_bytes_lt_transitive(z, y, x);
                lemma_bytes_lt_transitive(x, z, x);
                lemma_bytes_lt_irreflexive(x);
            }
        }
    }
}

/// Compares two byte strings in lexicographic order.
pub fn bytes_less(a: &[u8], b: &[u8]) -> (lt: bool)
    ensures
        lt == bytes_lt(a@, b@),
{
    let mut i: usize = 0;
    proof {
        assert(a@.skip(0) =~= a@);
        assert(b@.skip(0) =~= b@);
    }
    while i < a.len() && i < b.len()
        invariant
            i <= a@.len(),
            i <= b@.len(),
            bytes_lt(a@, b@) == bytes_lt(a@.skip(i as int), b@.skip(i as int)),
        decreases a@.len() - i,
    {
        if a[i] != b[i] {
            return a[i] < b[i];
        }
        proof {
            assert(a@.skip(i as int).drop_first() =~= a@.skip(i + 1));
            assert(b@.skip(i as int).drop_first() =~= b@.skip(i + 1));
        }
        i = i + 1;
    }
    i < b.len()
}

/// Compares two texts by their UTF-8 bytes, as `str::cmp` does.
pub fn text_less(a: &str, b: &str) -> (lt: bool)
    ensures
        lt == text_lt(a@, b@),
{
    bytes_less(a.as_bytes(), b.as_bytes())
}

/// `before` is a strict weak order: irreflexive, transitive, and its incomparability is
/// transitive (so "not before" is a total preorder).
pub open spec fn strict_weak<T>(before: spec_fn(T, T) -> bool) -> bool {
    &&& forall|a: T| !#[trigger] before(a, a)
    &&& forall|a: T, b: T, c: T| #[trigger] before(a, b) && #[trigger] before(b, c) ==> before(a, c)
    &&& forall|a: T, b: T, c: T| !#[trigger] before(a, b) && !#[trigger] before(b, c) ==> !before(a, c)
}

/// The reverse of an order.
pub open spec fn reversed<T>(before: spec_fn(T, T) -> bool) -> spec_fn(T, T) -> bool {
    |a: T, b: T| before(b, a)
}

/// Reversing a strict weak order gives a strict weak order.
pub proof fn lemma_reversed_strict_weak<T>(before: spec_fn(T, T) -> bool)
    requires
        strict_weak(before),
    ensures
        strict_weak(reversed(before)),
{
    let after = reversed(before);
    assert forall|a: T| !#[trigger] after(a, a) by {
        assert(!before(a, a));
    }
    assert forall|a: T, b: T, c: T| #[trigger] after(a, b) && #[trigger] after(b, c) implies after(a, c) by {
        assert(before(c, b) && before(b, a));
    }
    assert forall|a: T, b: T, c: T| !#[trigger] after(a, b) && !#[trigger] after(b, c) implies !after(a, c) by {
        assert(!before(c, b) && !before(b, a));
    }
}

/// `x` inserted into `s` behind every element it does not sort strictly before.
pub open spec fn insert_stable<T>(s: Seq<T>, x: T, before: spec_fn(T, T) -> bool) -> Seq<T>
    decreases s.len(),
{
    if s.len() == 0 {
        seq![x]
    } else if before(x, s.last()) {
        insert_stable(s.drop_last(), x, before).push(s.last())
    } else {
        s.push(x)
    }
}

/// `s` sorted by `before`, items that neither precedes keeping their order (a stable sort).
pub open spec fn stable_sort<T>(s: Seq<T>, before: spec_fn(T, T) -> bool) -> Seq<T>
    decreases s.len(),
{
    if s.len() == 0 {
        Seq::empty()
    } else {
        insert_stable(stable_sort(s.drop_last(), before), s.last(), before)
    }
}

/// No item of `s` sorts strictly before an item in front of it.
pub open spec fn ordered_by<T>(s: Seq<T>, before: spec_fn(T, T) -> bool) -> bool {
    forall|i: int, j: int| 0 <= i < j < s.len() ==> !#[trigger] before(s[j], s[i])
}

/// Inserting at the first slot from the back whose left neighbour `x` does not precede.
pub proof fn lemma_insert_stable_at<T>(s: Seq<T>, x: T, before: spec_fn(T, T) -> bool, j: int)
    requires
        0 <= j <= s.len(),
        forall|k: int| j <= k < s.len() ==> #[trigger] before(x, s[k]),
        j > 0 ==> !before(x, s[j - 1]),
    ensures
        insert_stable(s, x, before) == s.insert(j, x),
    decreases s.len(),
{
    if s.len() == 0 {
        assert(s.insert(j, x) =~= seq![x]);
    } else if j == s.len() {
        assert(s.insert(j, x) =~= s.push(x));
    } else {
        assert(before(x, s[s.len() - 1]));
        lemma_insert_stable_at(s.drop_last(), x, before, j);
        assert(s.drop_last().insert(j, x).push(s.last()) =~= s.insert(j, x));
    }
}

pub proof fn lemma_insert_stable_multiset<T>(s: Seq<T>, x: T, before: spec_fn(T, T) -> bool)
    ensures
        insert_stable(s, x, before).to_multiset() =~= s.to_multiset().insert(x),
    decreases s.len(),
{
    broadcast use vstd::seq_lib::group_to_multiset_ensures, vstd::multiset::group_multiset_axioms;

    if s.len() == 0 {
        assert(seq![x] =~= Seq::<T>::empty().push(x));
        vstd::seq_lib::to_multiset_build(Seq::<T>::empty(), x);
    } else if before(x, s.last()) {
        lemma_insert_stable_multiset(s.drop_last(), x, before);
        vstd::seq_lib::to_multiset_build(insert_stable(s.drop_last(), x, before), s.last());
        vstd::seq_lib::to_multiset_build(s.drop_last(), s.last());
        assert(s.drop_last().push(s.last()) =~= s);
    } else {
        vstd::seq_lib::to_multiset_build(s, x);
    }
}

/// A stable sort holds the same items as its input.
pub proof fn lemma_stable_sort_multiset<T>(s: Seq<T>, before: spec_fn(T, T) -> bool)
    ensures
        stable_sort(s, before).to_multiset() =~= s.to_multiset(),
    decreases s.len(),
{
    broadcast use vstd::seq_lib::group_to_multiset_ensures, vstd::multiset::group_multiset_axioms;

    if s.len() == 0 {
    } else {
        lemma_stable_sort_multiset(s.drop_last(), before);
        lemma_insert_stable_multiset(stable_sort(s.drop_last(), before), s.last(), before);
        vstd::seq_lib::to_multiset_build(s.drop_last(), s.last());
        assert(s.drop_last().push(s.last()) =~= s);
    }
}

proof fn lemma_insert_stable_items<T>(s: Seq<T>, x: T, before: spec_fn(T, T) -> bool, k: int)
    requires
        0 <= k < insert_stable(s, x, before).len(),
    ensures
        insert_stable(s, x, before).len() == s.len() + 1,
        insert_stable(s, x, before)[k] == x || s.contains(insert_stable(s, x, before)[k]),
    decreases s.len(),
{
    if s.len() > 0 && before(x, s.last()) {
        let t = insert_stable(s.drop_last(), x, before);
        if k < t.len() {
            lemma_insert_stable_items(s.drop_last(), x, before, k);
            if t[k] != x {
                let w = choose|w: int| 0 <= w < s.drop_last().len() && s.drop_last()[w] == t[k];
                assert(s[w] == t[k]);
            }
        } else {
            lemma_insert_stable_items(s.drop_last(), x, before, 0);
            assert(s[s.len() - 1] == s.last());
        }
    } else if s.len() > 0 {
        if k < s.len() {
            assert(s[k] == insert_stable(s, x, before)[k]);
        }
    }
}

pub proof fn lemma_insert_stable_ordered<T>(s: Seq<T>, x: T, before: spec_fn(T, T) -> bool)
    requires
        strict_weak(before),
        ordered_by(s, before),
    ensures
        ordered_by(insert_stable(s, x, before), before),
    decreases s.len(),
{
    if s.len() > 0 {
        let last = s.last();
        if before(x, last) {
            let t = insert_stable(s.drop_last(), x, before);
            assert(ordered_by(s.drop_last(), before)) by {
                assert forall|i: int, j: int| 0 <= i < j < s.drop_last().len() implies !#[trigger] before(
                    s.drop_last()[j],
                    s.drop_last()[i],
                ) by {
                    assert(s.drop_last()[j] == s[j] && s.drop_last()[i] == s[i]);
                }
            }
            lemma_insert_stable_ordered(s.drop_last(), x, before);
            let r = t.push(last);
            assert forall|i: int, j: int| 0 <= i < j < r.len() implies !#[trigger] before(r[j], r[i]) by {
                if j == r.len() - 1 {
                    lemma_insert_stable_items(s.drop_last(), x, before, i);
                    assert(r[i] == t[i]);
                    if t[i] == x {
                        assert(!before(last, x));
                    } else {
                        let w = choose|w: int| 0 <= w < s.drop_last().len() && s.drop_last()[w] == t[i];
                        assert(s[w] == t[i]);
                        assert(!before(s[s.len() - 1], s[w]));
                    }
                } else {
                    assert(r[i] == t[i] && r[j] == t[j]);
                }
            }
        } else {
            let r = s.push(x);
            assert forall|i: int, j: int| 0 <= i < j < r.len() implies !#[trigger] before(r[j], r[i]) by {
                if j == r.len() - 1 {
                    if i < s.len() - 1 {
                        assert(!before(s[s.len() - 1], s[i]));
                        assert(!before(x, s[s.len() - 1]));
                    }
                } else {
                    assert(r[i] == s[i] && r[j] == s[j]);
                }
            }
        }
    }
}

/// A stable sort by a strict weak order leaves its items in order.
pub proof fn lemma_stable_sort_ordered<T>(s: Seq<T>, before: spec_fn(T, T) -> bool)
    requires
        strict_weak(before),
    ensures
        ordered_by(stable_sort(s, before), before),
    decreases s.len(),
{
    if s.len() > 0 {
        lemma_stable_sort_ordered(s.drop_last(), before);
        lemma_insert_stable_ordered(stable_sort(s.drop_last(), before), s.last(), before);
    }
}

} // verus!
