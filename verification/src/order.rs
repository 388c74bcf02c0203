//! The order in which an index lists its terms: byte by byte.

use vstd::prelude::*;
use vstd::std_specs::btree::increasing_seq;
use vstd::std_specs::cmp::OrdSpec;

verus! {

/// `a` and `b` agree on their first `at` bytes, and there `a` ends while `b`
/// goes on, or `a` has the smaller byte.
pub open spec fn precedes_at(a: Seq<u8>, b: Seq<u8>, at: int) -> bool {
    &&& 0 <= at <= a.len()
    &&& at < b.len()
    &&& a.subrange(0, at) =~= b.subrange(0, at)
    &&& (at == a.len() || a[at] < b[at])
}

/// `a` comes strictly before `b` in byte-wise lexicographic order.
pub open spec fn bytes_lt(a: Seq<u8>, b: Seq<u8>) -> bool {
    exists|at: int| precedes_at(a, b, at)
}

/// Each item of `items` comes strictly before those that follow it.
pub open spec fn ascending(items: Seq<Seq<u8>>) -> bool {
    forall|i: int, j: int| 0 <= i < j < items.len() ==> bytes_lt(items[i], items[j])
}

/// Nothing comes before itself.
pub proof fn lemma_bytes_lt_irreflexive(a: Seq<u8>)
    ensures
        !bytes_lt(a, a),
{
}

/// What comes before something that comes before a third comes before the
/// third.
pub proof fn lemma_bytes_lt_transitive(a: Seq<u8>, b: Seq<u8>, c: Seq<u8>)
    requires
        bytes_lt(a, b),
        bytes_lt(b, c),
    ensures
        bytes_lt(a, c),
{
    let first = choose|at: int| precedes_at(a, b, at);
    let second = choose|at: int| precedes_at(b, c, at);
    let at = if first <= second {
        first
    } else {
        second
    };
    assert(a.subrange(0, at) =~= c.subrange(0, at)) by {
        assert forall|i: int| 0 <= i < at implies a[i] == c[i] by {
            assert(a[i] == a.subrange(0, first)[i]);
            assert(b[i] == b.subrange(0, first)[i]);
            assert(b[i] == b.subrange(0, second)[i]);
            assert(c[i] == c.subrange(0, second)[i]);
        }
    }
    if first < second {
        assert(b[first] == b.subrange(0, second)[first]);
        assert(c[first] == c.subrange(0, second)[first]);
    }
    if second < first {
        assert(a[second] == a.subrange(0, first)[second]);
        assert(b[second] == b.subrange(0, first)[second]);
    }
    assert(precedes_at(a, c, at));
}

/// Of two different byte strings, one comes before the other.
pub proof fn lemma_bytes_lt_total(a: Seq<u8>, b: Seq<u8>)
    ensures
        a == b || bytes_lt(a, b) || bytes_lt(b, a),
{
    lemma_first_difference(a, b, 0);
}

/// From a position up to which `a` and `b` agree on, they are the same, or
/// one comes before the other.
proof fn lemma_first_difference(a: Seq<u8>, b: Seq<u8>, from: int)
    requires
        0 <= from <= a.len(),
        from <= b.len(),
        a.subrange(0, from) =~= b.subrange(0, from),
    ensures
        a == b || bytes_lt(a, b) || bytes_lt(b, a),
    decreases a.len() - from,
{
    if from == a.len() {
        if from == b.len() {
            assert(a =~= a.subrange(0, from));
            assert(b =~= b.subrange(0, from));
        } else {
            assert(precedes_at(a, b, from));
        }
    } else if from == b.len() {
        assert(b.subrange(0, from) =~= a.subrange(0, from));
        assert(precedes_at(b, a, from));
    } else if a[from] < b[from] {
        assert(precedes_at(a, b, from));
    } else if b[from] < a[from] {
        assert(b.subrange(0, from) =~= a.subrange(0, from));
        assert(precedes_at(b, a, from));
    } else {
        assert(a.subrange(0, from + 1) =~= b.subrange(0, from + 1)) by {
            assert forall|i: int| 0 <= i < from + 1 implies a[i] == b[i] by {
                if i < from {
                    assert(a[i] == a.subrange(0, from)[i]);
                    assert(b[i] == b.subrange(0, from)[i]);
                }
            }
        }
        lemma_first_difference(a, b, from + 1);
    }
}

/// What begins with `a` does not come before `a`.
pub proof fn lemma_prefix_not_after(a: Seq<u8>, b: Seq<u8>)
    requires
        a.is_prefix_of(b),
    ensures
        !bytes_lt(b, a),
{
    if bytes_lt(b, a) {
        let at = choose|at: int| precedes_at(b, a, at);
        assert(b[at] == b.subrange(0, a.len() as int)[at]);
    }
}

/// Two ascending sequences that hold the same items are the same sequence.
pub proof fn lemma_ascending_unique(a: Seq<Seq<u8>>, b: Seq<Seq<u8>>)
    requires
        ascending(a),
        ascending(b),
        forall|item: Seq<u8>| a.contains(item) <==> b.contains(item),
    ensures
        a == b,
    decreases a.len(),
{
    if a.len() == 0 {
        if b.len() > 0 {
            assert(b.contains(b[0]));
        }
        assert(a =~= b);
    } else {
        assert(a.contains(a[0]));
        let k = choose|k: int| 0 <= k < b.len() && b[k] == a[0];
        assert(b.contains(b[0]));
        let m = choose|m: int| 0 <= m < a.len() && a[m] == b[0];
        if k > 0 {
            assert(bytes_lt(b[0], b[k]));
            lemma_bytes_lt_irreflexive(a[0]);
            assert(m > 0);
            assert(bytes_lt(a[0], a[m]));
            lemma_bytes_lt_transitive(a[0], b[0], a[0]);
        }
        assert(a[0] == b[0]);
        let rest_a = a.drop_first();
        let rest_b = b.drop_first();
        assert forall|item: Seq<u8>| rest_a.contains(item) <==> rest_b.contains(item) by {
            lemma_bytes_lt_irreflexive(item);
            if rest_a.contains(item) {
                let i = choose|i: int| 0 <= i < rest_a.len() && rest_a[i] == item;
                assert(a[i + 1] == item);
                assert(bytes_lt(a[0], a[i + 1]));
                assert(b.contains(item));
                let j = choose|j: int| 0 <= j < b.len() && b[j] == item;
                assert(j > 0);
                assert(rest_b[j - 1] == item);
            }
            if rest_b.contains(item) {
                let i = choose|i: int| 0 <= i < rest_b.len() && rest_b[i] == item;
                assert(b[i + 1] == item);
                assert(bytes_lt(b[0], b[i + 1]));
                assert(a.contains(item));
                let j = choose|j: int| 0 <= j < a.len() && a[j] == item;
                assert(j > 0);
                assert(rest_a[j - 1] == item);
            }
        }
        assert(ascending(rest_a)) by {
            assert forall|i: int, j: int| 0 <= i < j < rest_a.len() implies bytes_lt(
                rest_a[i],
                rest_a[j],
            ) by {
                assert(bytes_lt(a[i + 1], a[j + 1]));
            }
        }
        assert(ascending(rest_b)) by {
            assert forall|i: int, j: int| 0 <= i < j < rest_b.len() implies bytes_lt(
                rest_b[i],
                rest_b[j],
            ) by {
                assert(bytes_lt(b[i + 1], b[j + 1]));
            }
        }
        lemma_ascending_unique(rest_a, rest_b);
        assert(a =~= seq![a[0]] + rest_a);
        assert(b =~= seq![b[0]] + rest_b);
    }
}

/// The keys that a walk over a `BTreeMap` with byte keys yields ascend.
pub proof fn lemma_increasing_keys(keys: Seq<u8>)
    requires
        increasing_seq(keys),
    ensures
        forall|m: int, n: int| 0 <= m < n < keys.len() ==> keys[m] < keys[n],
{
    assert forall|m: int, n: int| 0 <= m < n < keys.len() implies keys[m] < keys[n] by {
        assert(keys[m].cmp_spec(&keys[n]) == core::cmp::Ordering::Less);
    }
}

} // verus!
