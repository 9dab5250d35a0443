//! The order of class names: lexicographic, character by character, by code
//! point.

use vstd::prelude::*;

verus! {

/// Whether `a` comes before `b`: at the first place where they differ `a` has
/// the lesser character, or `a` ends there and `b` goes on.
pub open spec fn precedes(a: Seq<char>, b: Seq<char>) -> bool
    decreases a.len(),
{
    if b.len() == 0 {
        false
    } else if a.len() == 0 {
        true
    } else if a[0] != b[0] {
        a[0] < b[0]
    } else {
        precedes(a.skip(1), b.skip(1))
    }
}

/// Whether each text of `names` comes before all that follow it.
pub open spec fn ascending(names: Seq<Seq<char>>) -> bool {
    forall|i: int, j: int| 0 <= i < j < names.len() ==> precedes(names[i], names[j])
}

/// No text comes before itself.
pub proof fn lemma_precedes_irreflexive(a: Seq<char>)
    ensures
        !precedes(a, a),
    decreases a.len(),
{
    if a.len() > 0 {
        lemma_precedes_irreflexive(a.skip(1));
    }
}

/// Of two texts at most one comes before the other.
pub proof fn lemma_precedes_asymmetric(a: Seq<char>, b: Seq<char>)
    requires
        precedes(a, b),
    ensures
        !precedes(b, a),
    decreases a.len(),
{
    if a.len() > 0 && b.len() > 0 && a[0] == b[0] {
        lemma_precedes_asymmetric(a.skip(1), b.skip(1));
    }
}

/// What comes before a text comes before all that the text comes before.
pub proof fn lemma_precedes_transitive(a: Seq<char>, b: Seq<char>, c: Seq<char>)
    requires
        precedes(a, b),
        precedes(b, c),
    ensures
        precedes(a, c),
    decreases a.len(),
{
    if a.len() > 0 && b.len() > 0 && c.len() > 0 && a[0] == b[0] && b[0] == c[0] {
        lemma_precedes_transitive(a.skip(1), b.skip(1), c.skip(1));
    }
}

/// Of two different texts one comes before the other.
pub proof fn lemma_precedes_connected(a: Seq<char>, b: Seq<char>)
    requires
        a != b,
    ensures
        precedes(a, b) || precedes(b, a),
    decreases a.len(),
{
    if a.len() == 0 || b.len() == 0 {
        if a.len() == 0 && b.len() == 0 {
            assert(a =~= b);
        }
    } else if a[0] == b[0] {
        if a.skip(1) == b.skip(1) {
            assert(a =~= seq![a[0]] + a.skip(1));
            assert(b =~= seq![b[0]] + b.skip(1));
        }
        lemma_precedes_connected(a.skip(1), b.skip(1));
    }
}

/// Two ascending sequences that hold the same texts are the same sequence:
/// a set of names has one order only.
pub proof fn lemma_ascending_unique(a: Seq<Seq<char>>, b: Seq<Seq<char>>)
    requires
        ascending(a),
        ascending(b),
        a.to_set() == b.to_set(),
    ensures
        a == b,
    decreases a.len(),
{
    if a.len() == 0 {
        if b.len() > 0 {
            assert(b.to_set().contains(b[0]));
            assert(a.contains(b[0]));
        }
        assert(a =~= b);
    } else {
        assert(a.to_set().contains(a[0]));
        assert(b.contains(a[0]));
        let k = choose|k: int| 0 <= k < b.len() && b[k] == a[0];
        assert(b.to_set().contains(b[0]));
        assert(a.contains(b[0]));
        let m = choose|m: int| 0 <= m < a.len() && a[m] == b[0];
        if a[0] != b[0] {
            assert(precedes(a[0], a[m]));
            assert(precedes(b[0], b[k]));
            lemma_precedes_asymmetric(a[0], b[0]);
        }
        let ta = a.skip(1);
        let tb = b.skip(1);
        assert forall|x: Seq<char>| ta.to_set().contains(x) <==> tb.to_set().contains(x) by {
            if ta.contains(x) {
                let i = choose|i: int| 0 <= i < ta.len() && ta[i] == x;
                assert(a[i + 1] == x);
                assert(precedes(a[0], a[i + 1]));
                lemma_precedes_irreflexive(x);
                assert(a.to_set().contains(x));
                assert(b.contains(x));
                let j = choose|j: int| 0 <= j < b.len() && b[j] == x;
                assert(tb[j - 1] == x);
            }
            if tb.contains(x) {
                let i = choose|i: int| 0 <= i < tb.len() && tb[i] == x;
                assert(b[i + 1] == x);
                assert(precedes(b[0], b[i + 1]));
                lemma_precedes_irreflexive(x);
                assert(b.to_set().contains(x));
                assert(a.contains(x));
                let j = choose|j: int| 0 <= j < a.len() && a[j] == x;
                assert(ta[j - 1] == x);
            }
        }
        assert(ta.to_set() =~= tb.to_set());
        assert forall|i: int, j: int| 0 <= i < j < ta.len() implies precedes(ta[i], ta[j]) by {
            assert(precedes(a[i + 1], a[j + 1]));
        }
        assert forall|i: int, j: int| 0 <= i < j < tb.len() implies precedes(tb[i], tb[j]) by {
            assert(precedes(b[i + 1], b[j + 1]));
        }
        lemma_ascending_unique(ta, tb);
        assert(a =~= seq![a[0]] + ta);
        assert(b =~= seq![b[0]] + tb);
    }
}

/// `order` with `x` put in at its place, or `order` itself where `x` stands in
/// it already.
pub open spec fn inserted(order: Seq<Seq<char>>, x: Seq<char>) -> Seq<Seq<char>>
    decreases order.len(),
{
    if order.len() == 0 {
        seq![x]
    } else if order.last() == x {
        order
    } else if precedes(order.last(), x) {
        order.push(x)
    } else {
        inserted(order.drop_last(), x).push(order.last())
    }
}

/// Putting a text into an ascending sequence keeps it ascending, and adds
/// that text to what the sequence holds and nothing else.
pub proof fn lemma_inserted(order: Seq<Seq<char>>, x: Seq<char>)
    requires
        ascending(order),
    ensures
        ascending(inserted(order, x)),
        inserted(order, x).to_set() == order.to_set().insert(x),
    decreases order.len(),
{
    let result = inserted(order, x);
    if order.len() == 0 {
        assert(result.to_set() =~= order.to_set().insert(x)) by {
            assert(result[0] == x);
        }
    } else if order.last() == x {
        assert(order.to_set().contains(x)) by {
            assert(order[order.len() - 1] == x);
        }
        assert(result.to_set() =~= order.to_set().insert(x));
    } else if precedes(order.last(), x) {
        order.lemma_push_to_set_commute(x);
        assert forall|i: int, j: int| 0 <= i < j < result.len() implies precedes(
            result[i],
            result[j],
        ) by {
            if j == order.len() && i < order.len() - 1 {
                assert(precedes(order[i], order[order.len() - 1]));
                lemma_precedes_transitive(order[i], order.last(), x);
            }
        }
    } else {
        let head = order.drop_last();
        let last = order.last();
        assert(ascending(head)) by {
            assert forall|i: int, j: int| 0 <= i < j < head.len() implies precedes(
                head[i],
                head[j],
            ) by {
                assert(precedes(order[i], order[j]));
            }
        }
        lemma_inserted(head, x);
        let inner = inserted(head, x);
        lemma_precedes_connected(last, x);
        assert forall|i: int, j: int| 0 <= i < j < result.len() implies precedes(
            result[i],
            result[j],
        ) by {
            if j == inner.len() {
                assert(inner.to_set().contains(inner[i]));
                if inner[i] != x {
                    assert(head.contains(inner[i]));
                    let k = choose|k: int| 0 <= k < head.len() && head[k] == inner[i];
                    assert(precedes(order[k], order[order.len() - 1]));
                }
            } else {
                assert(precedes(inner[i], inner[j]));
            }
        }
        inner.lemma_push_to_set_commute(last);
        head.lemma_push_to_set_commute(last);
        assert(head.push(last) =~= order);
        assert(result.to_set() =~= order.to_set().insert(x));
    }
}

/// An ascending sequence holds no text twice.
pub proof fn lemma_ascending_no_duplicates(order: Seq<Seq<char>>)
    requires
        ascending(order),
    ensures
        order.no_duplicates(),
{
    assert forall|i: int, j: int| 0 <= i < order.len() && 0 <= j < order.len() && i != j implies order[i]
        != order[j] by {
        if i < j {
            assert(precedes(order[i], order[j]));
        } else {
            assert(precedes(order[j], order[i]));
        }
        lemma_precedes_irreflexive(order[i]);
    }
}

/// Tells whether `a` comes before `b`.
pub fn comes_before(a: &[char], b: &[char]) -> (before: bool)
    ensures
        before == precedes(a@, b@),
{
    let mut i: usize = 0;
    assert(a@.skip(0) == a@ && b@.skip(0) == b@);
    while i < a.len() && i < b.len()
        invariant
            i <= a.len(),
            i <= b.len(),
            precedes(a@, b@) == precedes(a@.skip(i as int), b@.skip(i as int)),
        decreases a.len() - i,
    {
        if a[i] != b[i] {
            return a[i] < b[i];
        }
        assert(a@.skip(i as int).skip(1) == a@.skip(i + 1));
        assert(b@.skip(i as int).skip(1) == b@.skip(i + 1));
        i += 1;
    }
    i < b.len()
}

} // verus!
