//! The deterministic reporting order and a verified insertion sort.
//!
//! Planned tasks and failure records are reported sorted by the number of
//! path components first and the lexicographic byte order of the path
//! second. The sort is pinned down as a spec-level insertion sort, so a
//! sorted result is a function of its input: callers get determinism for
//! free from the contracts.

use vstd::multiset::Multiset;
use vstd::prelude::*;
use vstd::relations::{sorted_by, strongly_connected, transitive};

use crate::path::{component_count, sep_count, FsPath};

verus! {

/// Lexicographic order on byte strings: `a` is no later than `b`.
pub open spec fn lex_leq(a: Seq<u8>, b: Seq<u8>) -> bool
    decreases a.len(),
{
    if a.len() == 0 {
        true
    } else if b.len() == 0 {
        false
    } else if a[0] < b[0] {
        true
    } else if a[0] > b[0] {
        false
    } else {
        lex_leq(a.drop_first(), b.drop_first())
    }
}

/// The reporting order on paths: fewer components first, then
/// lexicographic byte order.
pub open spec fn path_leq(a: Seq<u8>, b: Seq<u8>) -> bool {
    if component_count(a) != component_count(b) {
        component_count(a) < component_count(b)
    } else {
        lex_leq(a, b)
    }
}

/// Any two byte strings are comparable lexicographically.
pub proof fn lemma_lex_leq_total(a: Seq<u8>, b: Seq<u8>)
    ensures
        lex_leq(a, b) || lex_leq(b, a),
    decreases a.len(),
{
    if a.len() == 0 || b.len() == 0 {
    } else if a[0] == b[0] {
        lemma_lex_leq_total(a.drop_first(), b.drop_first());
    }
}

/// Lexicographic order is transitive.
pub proof fn lemma_lex_leq_trans(a: Seq<u8>, b: Seq<u8>, c: Seq<u8>)
    requires
        lex_leq(a, b),
        lex_leq(b, c),
    ensures
        lex_leq(a, c),
    decreases a.len(),
{
    if a.len() == 0 || b.len() == 0 || c.len() == 0 {
    } else if a[0] == b[0] && b[0] == c[0] {
        lemma_lex_leq_trans(a.drop_first(), b.drop_first(), c.drop_first());
    }
}

/// The path order compares any two paths.
pub proof fn lemma_path_leq_total(a: Seq<u8>, b: Seq<u8>)
    ensures
        path_leq(a, b) || path_leq(b, a),
{
    lemma_lex_leq_total(a, b);
}

/// The path order is transitive.
pub proof fn lemma_path_leq_trans(a: Seq<u8>, b: Seq<u8>, c: Seq<u8>)
    requires
        path_leq(a, b),
        path_leq(b, c),
    ensures
        path_leq(a, c),
{
    if component_count(a) == component_count(b) && component_count(b) == component_count(c) {
        lemma_lex_leq_trans(a, b, c);
    }
}

/// Skipping one equal leading byte on both sides keeps the comparison.
proof fn lemma_lex_leq_skip_step(a: Seq<u8>, b: Seq<u8>, i: int)
    requires
        0 <= i < a.len(),
        i < b.len(),
        a[i] == b[i],
    ensures
        lex_leq(a.skip(i), b.skip(i)) == lex_leq(a.skip(i + 1), b.skip(i + 1)),
{
    assert(a.skip(i).len() > 0);
    assert(a.skip(i)[0] == a[i]);
    assert(b.skip(i)[0] == b[i]);
    assert(a.skip(i).drop_first() =~= a.skip(i + 1));
    assert(b.skip(i).drop_first() =~= b.skip(i + 1));
}

/// Compares two byte vectors lexicographically.
pub fn lex_le(a: &Vec<u8>, b: &Vec<u8>) -> (r: bool)
    ensures
        r == lex_leq(a@, b@),
{
    proof {
        assert(a@.skip(0) =~= a@);
        assert(b@.skip(0) =~= b@);
    }
    let mut i: usize = 0;
    while i < a.len() && i < b.len() && a[i] == b[i]
        invariant
            i <= a@.len(),
            i <= b@.len(),
            lex_leq(a@, b@) == lex_leq(a@.skip(i as int), b@.skip(i as int)),
        decreases a@.len() - i,
    {
        proof {
            lemma_lex_leq_skip_step(a@, b@, i as int);
        }
        i = i + 1;
    }
    if i == a.len() {
        proof {
            assert(a@.skip(i as int).len() == 0);
        }
        true
    } else if i == b.len() {
        proof {
            assert(b@.skip(i as int).len() == 0);
            assert(a@.skip(i as int).len() > 0);
        }
        false
    } else {
        proof {
            assert(a@.skip(i as int)[0] == a@[i as int]);
            assert(b@.skip(i as int)[0] == b@[i as int]);
        }
        a[i] < b[i]
    }
}

/// Compares two paths in the reporting order.
pub fn path_le(a: &FsPath, b: &FsPath) -> (r: bool)
    ensures
        r == path_leq(a@, b@),
{
    let ca = a.sep_count();
    let cb = b.sep_count();
    if ca != cb {
        ca < cb
    } else {
        lex_le(&a.bytes, &b.bytes)
    }
}

/// Inserts `x` into `s` before the first element that is not `leq x`.
pub open spec fn insert_sorted<T>(x: T, s: Seq<T>, leq: spec_fn(T, T) -> bool) -> Seq<T>
    decreases s.len(),
{
    if s.len() == 0 {
        seq![x]
    } else if leq(s[0], x) {
        seq![s[0]] + insert_sorted(x, s.drop_first(), leq)
    } else {
        seq![x] + s
    }
}

/// Stable insertion sort of `s` under `leq`.
pub open spec fn insertion_sort<T>(s: Seq<T>, leq: spec_fn(T, T) -> bool) -> Seq<T>
    decreases s.len(),
{
    if s.len() == 0 {
        Seq::empty()
    } else {
        insert_sorted(s.last(), insertion_sort(s.drop_last(), leq), leq)
    }
}

/// Inserting grows the sequence by one element.
pub proof fn lemma_insert_sorted_len<T>(x: T, s: Seq<T>, leq: spec_fn(T, T) -> bool)
    ensures
        insert_sorted(x, s, leq).len() == s.len() + 1,
    decreases s.len(),
{
    if s.len() > 0 && leq(s[0], x) {
        lemma_insert_sorted_len(x, s.drop_first(), leq);
    }
}

/// Where the first `pos` elements of `s` are `leq x` and the element at
/// `pos`, if any, is not, inserting `x` lands exactly at `pos`.
pub proof fn lemma_insert_sorted_at<T>(x: T, s: Seq<T>, leq: spec_fn(T, T) -> bool, pos: int)
    requires
        0 <= pos <= s.len(),
        forall|k: int| 0 <= k < pos ==> leq(#[trigger] s[k], x),
        pos < s.len() ==> !leq(s[pos], x),
    ensures
        insert_sorted(x, s, leq) =~= s.insert(pos, x),
    decreases pos,
{
    if s.len() == 0 {
    } else if pos == 0 {
    } else {
        lemma_insert_sorted_at(x, s.drop_first(), leq, pos - 1);
    }
}

/// Inserting into a sorted sequence keeps it sorted.
pub proof fn lemma_insert_sorted_sorted<T>(x: T, s: Seq<T>, leq: spec_fn(T, T) -> bool)
    requires
        sorted_by(s, leq),
        strongly_connected(leq),
        transitive(leq),
    ensures
        sorted_by(insert_sorted(x, s, leq), leq),
    decreases s.len(),
{
    if s.len() == 0 {
    } else if leq(s[0], x) {
        let rest = insert_sorted(x, s.drop_first(), leq);
        lemma_insert_sorted_sorted(x, s.drop_first(), leq);
        lemma_insert_sorted_len(x, s.drop_first(), leq);
        let out = seq![s[0]] + rest;
        assert forall|i: int, j: int| 0 <= i < j < out.len() implies leq(out[i], out[j]) by {
            if i == 0 {
                if rest[j - 1] == x {
                    assert(leq(s[0], x));
                } else {
                    lemma_insert_sorted_membership(x, s.drop_first(), leq, j - 1);
                    if rest[j - 1] != x {
                        let k = choose|k: int|
                            0 <= k < s.drop_first().len() && s.drop_first()[k] == rest[j - 1];
                        assert(leq(s[0], s[k + 1]));
                    }
                }
            }
        }
    } else {
        let out = seq![x] + s;
        assert forall|i: int, j: int| 0 <= i < j < out.len() implies leq(out[i], out[j]) by {
            if i == 0 {
                assert(leq(x, s[0]));
                if j > 1 {
                    assert(leq(s[0], s[j - 1]));
                }
            }
        }
    }
}

/// Each element of an insertion result is the inserted element or comes
/// from the original sequence.
pub proof fn lemma_insert_sorted_membership<T>(
    x: T,
    s: Seq<T>,
    leq: spec_fn(T, T) -> bool,
    i: int,
)
    requires
        0 <= i < insert_sorted(x, s, leq).len(),
    ensures
        insert_sorted(x, s, leq)[i] == x || exists|k: int|
            0 <= k < s.len() && s[k] == insert_sorted(x, s, leq)[i],
    decreases s.len(),
{
    if s.len() == 0 {
    } else if leq(s[0], x) {
        if i == 0 {
            assert(s[0] == insert_sorted(x, s, leq)[0]);
        } else {
            lemma_insert_sorted_membership(x, s.drop_first(), leq, i - 1);
            let e = insert_sorted(x, s, leq)[i];
            assert(e == insert_sorted(x, s.drop_first(), leq)[i - 1]);
            if e != x {
                let k = choose|k: int| 0 <= k < s.drop_first().len() && s.drop_first()[k] == e;
                assert(s[k + 1] == e);
            }
        }
    }
}

/// The sorted sequence is sorted.
pub proof fn lemma_insertion_sort_sorted<T>(s: Seq<T>, leq: spec_fn(T, T) -> bool)
    requires
        strongly_connected(leq),
        transitive(leq),
    ensures
        sorted_by(insertion_sort(s, leq), leq),
    decreases s.len(),
{
    if s.len() > 0 {
        lemma_insertion_sort_sorted(s.drop_last(), leq);
        lemma_insert_sorted_sorted(s.last(), insertion_sort(s.drop_last(), leq), leq);
    }
}

/// Inserting adds exactly the inserted element to the multiset of values.
pub proof fn lemma_insert_sorted_multiset<T>(x: T, s: Seq<T>, leq: spec_fn(T, T) -> bool)
    ensures
        insert_sorted(x, s, leq).to_multiset() =~= s.to_multiset().insert(x),
    decreases s.len(),
{
    broadcast use vstd::seq_lib::group_to_multiset_ensures;
    broadcast use vstd::multiset::group_multiset_axioms;

    if s.len() == 0 {
        assert(seq![x] =~= Seq::<T>::empty().push(x));
        assert(Seq::<T>::empty().push(x).to_multiset() =~= s.to_multiset().insert(x));
    } else if leq(s[0], x) {
        lemma_insert_sorted_multiset(x, s.drop_first(), leq);
        let rest = insert_sorted(x, s.drop_first(), leq);
        vstd::seq_lib::lemma_multiset_commutative(seq![s[0]], rest);
        vstd::seq_lib::lemma_multiset_commutative(seq![s[0]], s.drop_first());
        assert(s =~= seq![s[0]] + s.drop_first());
        assert(seq![s[0]] =~= Seq::<T>::empty().push(s[0]));
        assert(seq![s[0]].to_multiset() =~= Multiset::<T>::empty().insert(s[0]));
    } else {
        vstd::seq_lib::lemma_multiset_commutative(seq![x], s);
        assert(seq![x] =~= Seq::<T>::empty().push(x));
        assert(seq![x].to_multiset() =~= Multiset::<T>::empty().insert(x));
    }
}

/// Sorting permutes the sequence: the multisets of values agree.
pub proof fn lemma_insertion_sort_multiset<T>(s: Seq<T>, leq: spec_fn(T, T) -> bool)
    ensures
        insertion_sort(s, leq).to_multiset() =~= s.to_multiset(),
    decreases s.len(),
{
    broadcast use vstd::seq_lib::group_to_multiset_ensures;

    if s.len() > 0 {
        lemma_insertion_sort_multiset(s.drop_last(), leq);
        lemma_insert_sorted_multiset(s.last(), insertion_sort(s.drop_last(), leq), leq);
        assert(s =~= s.drop_last().push(s.last()));
        assert(s.drop_last().push(s.last()).to_multiset() =~= s.drop_last().to_multiset().insert(
            s.last(),
        ));
    }
}

/// The sorted sequence holds the same values as its input.
pub proof fn lemma_insertion_sort_contains<T>(s: Seq<T>, leq: spec_fn(T, T) -> bool, x: T)
    requires
        s.contains(x),
    ensures
        insertion_sort(s, leq).contains(x),
{
    broadcast use vstd::seq_lib::group_to_multiset_ensures;

    lemma_insertion_sort_multiset(s, leq);
    assert(s.to_multiset().contains(x));
}

} // verus!
