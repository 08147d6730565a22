//! Stable ordering of records by a timestamp.
//!
//! A sequence `out` is the stable sort of `input` by `key` when `out` is in
//! key order and, for every key value, the records that carry it appear in
//! `out` in the same order as in `input`. These two facts determine `out`.

use vstd::prelude::*;

verus! {

/// `a` may stand before `b`: in ascending order `a <= b`, in descending order `a >= b`.
pub open spec fn in_order(a: u128, b: u128, descending: bool) -> bool {
    if descending {
        a >= b
    } else {
        a <= b
    }
}

/// The sequence is in key order.
pub open spec fn sorted_by_key<V>(s: Seq<V>, key: spec_fn(V) -> u128, descending: bool) -> bool {
    forall|i: int, j: int| 0 <= i < j < s.len() ==> in_order(key(#[trigger] s[i]), key(#[trigger] s[j]), descending)
}

/// The records of `s` whose key is `k`, in their order in `s`.
pub open spec fn with_key<V>(s: Seq<V>, key: spec_fn(V) -> u128, k: u128) -> Seq<V> {
    s.filter(key_is(key, k))
}

/// The record's key is `k`.
pub open spec fn key_is<V>(key: spec_fn(V) -> u128, k: u128) -> spec_fn(V) -> bool {
    |x: V| key(x) == k
}

/// `out` is the stable sort of `input` by `key`.
pub open spec fn stable_sorted<V>(out: Seq<V>, input: Seq<V>, key: spec_fn(V) -> u128, descending: bool) -> bool {
    &&& sorted_by_key(out, key, descending)
    &&& forall|k: u128| #[trigger] with_key(out, key, k) == with_key(input, key, k)
}

/// A filter that keeps nothing gives the empty sequence.
pub proof fn lemma_filter_none<V>(s: Seq<V>, pred: spec_fn(V) -> bool)
    requires
        forall|i: int| 0 <= i < s.len() ==> !pred(#[trigger] s[i]),
    ensures
        s.filter(pred) == Seq::<V>::empty(),
    decreases s.len(),
{
    reveal(Seq::filter);
    if s.len() > 0 {
        lemma_filter_none(s.drop_last(), pred);
        assert(!pred(s[s.len() - 1]));
    }
    assert(s.filter(pred) =~= Seq::<V>::empty());
}

proof fn lemma_filter_single<V>(x: V, pred: spec_fn(V) -> bool)
    ensures
        seq![x].filter(pred) == if pred(x) { seq![x] } else { Seq::<V>::empty() },
{
    reveal(Seq::filter);
    assert(seq![x].drop_last() =~= Seq::<V>::empty());
    assert(Seq::<V>::empty().filter(pred) =~= Seq::<V>::empty());
    if pred(x) {
        assert(Seq::<V>::empty().push(x) =~= seq![x]);
    }
}

/// Inserting `x` at `p`, after every record that may precede it and before
/// every record that must follow it, keeps key order and appends `x` to the
/// records of its key.
pub proof fn lemma_insert_stable<V>(out: Seq<V>, x: V, p: int, key: spec_fn(V) -> u128, descending: bool)
    requires
        sorted_by_key(out, key, descending),
        0 <= p <= out.len(),
        forall|i: int| 0 <= i < p ==> in_order(key(#[trigger] out[i]), key(x), descending),
        forall|i: int| p <= i < out.len() ==> !in_order(key(#[trigger] out[i]), key(x), descending),
    ensures
        sorted_by_key(out.insert(p, x), key, descending),
        forall|k: u128| #[trigger] with_key(out.insert(p, x), key, k) == if k == key(x) {
            with_key(out, key, k).push(x)
        } else {
            with_key(out, key, k)
        },
{
    let n = out.insert(p, x);
    assert forall|i: int, j: int| 0 <= i < j < n.len() implies in_order(key(#[trigger] n[i]), key(#[trigger] n[j]), descending) by {
        if i < p && j > p {
            assert(n[i] == out[i]);
            assert(n[j] == out[j - 1]);
        } else if i < p && j < p {
            assert(n[i] == out[i] && n[j] == out[j]);
        } else if i == p {
            assert(n[j] == out[j - 1]);
        } else if j == p {
            assert(n[i] == out[i]);
        } else {
            assert(n[i] == out[i - 1] && n[j] == out[j - 1]);
        }
    }
    let front = out.take(p);
    let back = out.skip(p);
    assert(out =~= front + back);
    assert(n =~= front + seq![x] + back);
    assert forall|k: u128| #[trigger] with_key(n, key, k) == if k == key(x) {
        with_key(out, key, k).push(x)
    } else {
        with_key(out, key, k)
    } by {
        let pred = key_is(key, k);
        Seq::filter_distributes_over_add(front + seq![x], back, pred);
        Seq::filter_distributes_over_add(front, seq![x], pred);
        Seq::filter_distributes_over_add(front, back, pred);
        lemma_filter_single(x, pred);
        if k == key(x) {
            assert forall|i: int| 0 <= i < back.len() implies !pred(#[trigger] back[i]) by {
                assert(back[i] == out[p + i]);
            }
            lemma_filter_none(back, pred);
            assert(front.filter(pred) + seq![x] + Seq::<V>::empty() =~= (front.filter(pred) + Seq::<V>::empty()).push(x));
        } else {
            assert(front.filter(pred) + Seq::<V>::empty() =~= front.filter(pred));
        }
    }
}

/// Appending a record to the input appends it to the records of its key.
pub proof fn lemma_with_key_push<V>(s: Seq<V>, x: V, key: spec_fn(V) -> u128)
    ensures
        forall|k: u128| #[trigger] with_key(s.push(x), key, k) == if k == key(x) {
            with_key(s, key, k).push(x)
        } else {
            with_key(s, key, k)
        },
{
    assert forall|k: u128| #[trigger] with_key(s.push(x), key, k) == if k == key(x) {
        with_key(s, key, k).push(x)
    } else {
        with_key(s, key, k)
    } by {
        s.lemma_filter_push(x, key_is(key, k));
    }
}

proof fn lemma_with_key_cons<V>(x: Seq<V>, key: spec_fn(V) -> u128, k: u128)
    requires
        x.len() > 0,
    ensures
        with_key(x, key, k) == if key(x[0]) == k {
            seq![x[0]] + with_key(x.drop_first(), key, k)
        } else {
            with_key(x.drop_first(), key, k)
        },
{
    let pred = key_is(key, k);
    assert(x =~= seq![x[0]] + x.drop_first());
    Seq::filter_distributes_over_add(seq![x[0]], x.drop_first(), pred);
    lemma_filter_single(x[0], pred);
    if key(x[0]) != k {
        assert(Seq::<V>::empty() + x.drop_first().filter(pred) =~= x.drop_first().filter(pred));
    }
}

/// There is only one stable order: two sequences that are both stable sorts
/// of the same input are equal.
pub proof fn lemma_stable_sorted_unique<V>(x: Seq<V>, y: Seq<V>, input: Seq<V>, key: spec_fn(V) -> u128, descending: bool)
    requires
        stable_sorted(x, input, key, descending),
        stable_sorted(y, input, key, descending),
    ensures
        x == y,
    decreases x.len(),
{
    lemma_stable_sorted_unique_aux(x, y, key, descending);
}

proof fn lemma_stable_sorted_unique_aux<V>(x: Seq<V>, y: Seq<V>, key: spec_fn(V) -> u128, descending: bool)
    requires
        sorted_by_key(x, key, descending),
        sorted_by_key(y, key, descending),
        forall|k: u128| #[trigger] with_key(x, key, k) == with_key(y, key, k),
    ensures
        x == y,
    decreases x.len(),
{
    if x.len() == 0 {
        if y.len() > 0 {
            lemma_with_key_cons(y, key, key(y[0]));
            assert(with_key(y, key, key(y[0])).len() > 0);
            lemma_filter_none(x, key_is(key, key(y[0])));
            assert(with_key(x, key, key(y[0])) == with_key(y, key, key(y[0])));
        }
        assert(x =~= y);
    } else if y.len() == 0 {
        lemma_with_key_cons(x, key, key(x[0]));
        assert(with_key(x, key, key(x[0])).len() > 0);
        lemma_filter_none(y, key_is(key, key(x[0])));
        assert(with_key(x, key, key(x[0])) == with_key(y, key, key(x[0])));
    } else {
        let k0 = key(x[0]);
        let k1 = key(y[0]);
        // Some record of x carries y[0]'s key, so that key is not before x[0]'s; and the reverse.
        lemma_with_key_cons(y, key, k1);
        lemma_with_key_cons(x, key, k0);
        assert(with_key(x, key, k1).len() > 0);
        assert(with_key(y, key, k0).len() > 0);
        let px = key_is(key, k1);
        let py = key_is(key, k0);
        if !in_order(k0, k1, descending) {
            assert forall|i: int| 0 <= i < x.len() implies !px(#[trigger] x[i]) by {
                if i > 0 {
                    assert(in_order(key(x[0]), key(x[i]), descending));
                }
            }
            lemma_filter_none(x, px);
        }
        if !in_order(k1, k0, descending) {
            assert forall|i: int| 0 <= i < y.len() implies !py(#[trigger] y[i]) by {
                if i > 0 {
                    assert(in_order(key(y[0]), key(y[i]), descending));
                }
            }
            lemma_filter_none(y, py);
        }
        assert(k0 == k1);
        assert(with_key(x, key, k0)[0] == x[0]);
        assert(with_key(y, key, k0)[0] == y[0]);
        assert(x[0] == y[0]);
        let x1 = x.drop_first();
        let y1 = y.drop_first();
        assert forall|k: u128| #[trigger] with_key(x1, key, k) == with_key(y1, key, k) by {
            lemma_with_key_cons(x, key, k);
            lemma_with_key_cons(y, key, k);
            if k == k0 {
                assert(with_key(x1, key, k) =~= with_key(x, key, k).drop_first());
                assert(with_key(y1, key, k) =~= with_key(y, key, k).drop_first());
            }
        }
        assert(sorted_by_key(x1, key, descending)) by {
            assert forall|i: int, j: int| 0 <= i < j < x1.len() implies in_order(key(#[trigger] x1[i]), key(#[trigger] x1[j]), descending) by {
                assert(x1[i] == x[i + 1] && x1[j] == x[j + 1]);
            }
        }
        assert(sorted_by_key(y1, key, descending)) by {
            assert forall|i: int, j: int| 0 <= i < j < y1.len() implies in_order(key(#[trigger] y1[i]), key(#[trigger] y1[j]), descending) by {
                assert(y1[i] == y[i + 1] && y1[j] == y[j + 1]);
            }
        }
        lemma_stable_sorted_unique_aux(x1, y1, key, descending);
        assert(x =~= seq![x[0]] + x1);
        assert(y =~= seq![y[0]] + y1);
    }
}

/// A stable sort keeps exactly the records of its input.
pub proof fn lemma_stable_sorted_same_records<V>(out: Seq<V>, input: Seq<V>, key: spec_fn(V) -> u128, descending: bool, v: V)
    requires
        stable_sorted(out, input, key, descending),
    ensures
        out.contains(v) <==> input.contains(v),
{
    let p = key_is(key, key(v));
    assert(with_key(out, key, key(v)) == with_key(input, key, key(v)));
    if input.contains(v) {
        let i = choose|i: int| 0 <= i < input.len() && input[i] == v;
        input.lemma_filter_contains(p, i);
        out.lemma_filter_contains_rev(p, v);
    }
    if out.contains(v) {
        let i = choose|i: int| 0 <= i < out.len() && out[i] == v;
        out.lemma_filter_contains(p, i);
        input.lemma_filter_contains_rev(p, v);
    }
}

/// A filter keeps at most what a weaker filter keeps.
pub proof fn lemma_filter_len_mono<V>(s: Seq<V>, p: spec_fn(V) -> bool, q: spec_fn(V) -> bool)
    requires
        forall|v: V| #[trigger] p(v) ==> q(v),
    ensures
        s.filter(p).len() <= s.filter(q).len(),
    decreases s.len(),
{
    if s.len() == 0 {
        lemma_filter_none(s, p);
    } else {
        let t = s.drop_last();
        lemma_filter_len_mono(t, p, q);
        assert(s =~= t.push(s.last()));
        t.lemma_filter_push(s.last(), p);
        t.lemma_filter_push(s.last(), q);
    }
}

/// The records that a filter keeps, counted with their multiplicity, are
/// those of the whole sequence that satisfy it.
pub proof fn lemma_filter_to_multiset<V>(s: Seq<V>, q: spec_fn(V) -> bool)
    ensures
        s.filter(q).to_multiset() =~= s.to_multiset().filter(q),
    decreases s.len(),
{
    broadcast use vstd::seq_lib::group_to_multiset_ensures, vstd::multiset::group_multiset_axioms;
    if s.len() == 0 {
        lemma_filter_none(s, q);
        assert(s.filter(q) =~= s);
    } else {
        let t = s.drop_last();
        let x = s.last();
        lemma_filter_to_multiset(t, q);
        assert(s =~= t.push(x));
        t.lemma_filter_push(x, q);
    }
}

/// A stable sort keeps each record as many times as the input has it.
pub proof fn lemma_stable_sorted_same_multiset<V>(out: Seq<V>, input: Seq<V>, key: spec_fn(V) -> u128, descending: bool)
    requires
        stable_sorted(out, input, key, descending),
    ensures
        out.to_multiset() =~= input.to_multiset(),
{
    broadcast use vstd::multiset::group_multiset_axioms;
    assert forall|v: V| #[trigger] out.to_multiset().count(v) == input.to_multiset().count(v) by {
        let p = key_is(key, key(v));
        assert(with_key(out, key, key(v)) == with_key(input, key, key(v)));
        lemma_filter_to_multiset(out, p);
        lemma_filter_to_multiset(input, p);
        assert(out.filter(p).to_multiset().count(v) == out.to_multiset().count(v));
        assert(input.filter(p).to_multiset().count(v) == input.to_multiset().count(v));
    }
}

/// Two sequences with the same records keep equally many under any filter.
pub proof fn lemma_filter_len_same_multiset<V>(a: Seq<V>, b: Seq<V>, q: spec_fn(V) -> bool)
    requires
        a.to_multiset() =~= b.to_multiset(),
    ensures
        a.filter(q).len() == b.filter(q).len(),
{
    broadcast use vstd::seq_lib::group_to_multiset_ensures;
    lemma_filter_to_multiset(a, q);
    lemma_filter_to_multiset(b, q);
    assert(a.filter(q).to_multiset() == b.filter(q).to_multiset());
    assert(a.filter(q).len() == a.filter(q).to_multiset().len());
    assert(b.filter(q).len() == b.filter(q).to_multiset().len());
}

/// Filtering twice keeps what satisfies both filters.
pub proof fn lemma_filter_filter<V>(s: Seq<V>, p: spec_fn(V) -> bool, q: spec_fn(V) -> bool, r: spec_fn(V) -> bool)
    requires
        forall|v: V| #[trigger] r(v) == (p(v) && q(v)),
    ensures
        s.filter(p).filter(q) == s.filter(r),
    decreases s.len(),
{
    if s.len() == 0 {
        lemma_filter_none(s, p);
        lemma_filter_none(s, r);
        lemma_filter_none(s.filter(p), q);
    } else {
        let t = s.drop_last();
        let x = s.last();
        lemma_filter_filter(t, p, q, r);
        assert(s =~= t.push(x));
        t.lemma_filter_push(x, p);
        t.lemma_filter_push(x, r);
        t.filter(p).lemma_filter_push(x, q);
    }
}

} // verus!
