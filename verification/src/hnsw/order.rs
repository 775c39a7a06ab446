//! Ordering of scored neighbours by distance.
//!
//! Distances are compared through their order-preserving integer keys, so the
//! sort below is an ordinary integer sort. It is stable: among equal keys the
//! earlier element keeps its place.

use vstd::prelude::*;

use crate::hnsw::types::Neighbour;

verus! {

/// Ascending order of distance keys.
pub open spec fn sorted_by_distance(s: Seq<Neighbour>) -> bool {
    forall|i: int, j: int|
        0 <= i < j < s.len() ==> #[trigger] s[i].distance.key <= #[trigger] s[j].distance.key
}

/// The identifiers of a sequence of neighbours.
pub open spec fn neighbour_ids(s: Seq<Neighbour>) -> Seq<usize> {
    s.map_values(|n: Neighbour| n.id)
}

/// The neighbours that carry the given distance key, in their original
/// order.
pub open spec fn with_key(s: Seq<Neighbour>, key: u64) -> Seq<Neighbour> {
    s.filter(|n: Neighbour| n.distance.key == key)
}

/// Filtering by key commutes with appending one element.
proof fn lemma_with_key_push(s: Seq<Neighbour>, x: Neighbour, key: u64)
    ensures
        with_key(s.push(x), key) == if x.distance.key == key {
            with_key(s, key).push(x)
        } else {
            with_key(s, key)
        },
{
    s.lemma_filter_push(x, |n: Neighbour| n.distance.key == key);
}

/// Filtering by key distributes over concatenation.
proof fn lemma_with_key_add(a: Seq<Neighbour>, b: Seq<Neighbour>, key: u64)
    ensures
        with_key(a + b, key) == with_key(a, key) + with_key(b, key),
{
    Seq::filter_distributes_over_add(a, b, |n: Neighbour| n.distance.key == key);
}

/// A sequence without the key filters to the empty sequence.
proof fn lemma_with_key_none(s: Seq<Neighbour>, key: u64)
    requires
        forall|j: int| 0 <= j < s.len() ==> (#[trigger] s[j]).distance.key != key,
    ensures
        with_key(s, key) =~= Seq::<Neighbour>::empty(),
{
    let pred = (|n: Neighbour| n.distance.key == key);
    assert(s.all(|n: Neighbour| !pred(n))) by {
        assert forall|j: int| 0 <= j < s.len() implies !pred(s[j]) by {
            assert(s[j].distance.key != key);
        }
    }
    s.lemma_all_neg_filter_empty(pred);
    assert(s.filter(pred).len() == 0);
}

/// A permutation of neighbours with distinct identifiers again has distinct
/// identifiers.
pub proof fn lemma_permutation_keeps_ids_distinct(a: Seq<Neighbour>, b: Seq<Neighbour>)
    requires
        a.to_multiset() == b.to_multiset(),
        crate::hnsw::node::ids_distinct(neighbour_ids(a)),
    ensures
        crate::hnsw::node::ids_distinct(neighbour_ids(b)),
{
    broadcast use vstd::seq_lib::group_to_multiset_ensures;
    broadcast use vstd::multiset::group_multiset_axioms;

    assert forall|i: int, j: int|
        0 <= i < j < neighbour_ids(b).len() implies neighbour_ids(b)[i] != neighbour_ids(b)[j] by {
        if b[i].id == b[j].id {
            if b[i] == b[j] {
                let t = b.remove(i);
                assert(t[j - 1] == b[j]);
                assert(t.contains(b[i]));
                assert(t.to_multiset() == b.to_multiset().remove(b[i]));
                assert(t.to_multiset().count(b[i]) > 0);
                assert(a.to_multiset().count(b[i]) >= 2);
                assert(a.contains(b[i]));
                let p = choose|p: int| 0 <= p < a.len() && a[p] == b[i];
                let u = a.remove(p);
                assert(u.to_multiset() == a.to_multiset().remove(a[p]));
                assert(u.to_multiset().count(b[i]) >= 1);
                assert(u.contains(b[i]));
                let q0 = choose|q0: int| 0 <= q0 < u.len() && u[q0] == b[i];
                if q0 < p {
                    assert(a[q0] == b[i]);
                    assert(neighbour_ids(a)[q0] == neighbour_ids(a)[p]);
                } else {
                    assert(a[q0 + 1] == b[i]);
                    assert(neighbour_ids(a)[q0 + 1] == neighbour_ids(a)[p]);
                }
            } else {
                assert(b.contains(b[i]));
                assert(b.to_multiset().count(b[i]) > 0);
                assert(a.contains(b[i]));
                assert(b.contains(b[j]));
                assert(b.to_multiset().count(b[j]) > 0);
                assert(a.contains(b[j]));
                let p = choose|p: int| 0 <= p < a.len() && a[p] == b[i];
                let q = choose|q: int| 0 <= q < a.len() && a[q] == b[j];
                assert(p != q);
                assert(neighbour_ids(a)[p] == neighbour_ids(a)[q]);
            }
        }
    }
}

/// Sorts the neighbours ascending by distance key.
///
/// The result holds exactly the elements of the input (as a multiset), and
/// the sort is stable: restricted to any one key, the output is the input.
pub(crate) fn sort_by_distance(v: &mut Vec<Neighbour>)
    ensures
        sorted_by_distance(final(v)@),
        final(v)@.to_multiset() == old(v)@.to_multiset(),
        final(v)@.len() == old(v)@.len(),
        forall|x: Neighbour| final(v)@.contains(x) <==> old(v)@.contains(x),
        forall|key: u64| #[trigger] with_key(final(v)@, key) == with_key(old(v)@, key),
{
    broadcast use vstd::seq_lib::group_to_multiset_ensures;
    broadcast use vstd::multiset::group_multiset_axioms;

    let ghost orig = v@;
    let mut out: Vec<Neighbour> = Vec::new();
    while v.len() > 0
        invariant
            out@.to_multiset().add(v@.to_multiset()) =~= orig.to_multiset(),
            sorted_by_distance(out@),
            forall|i: int, j: int|
                0 <= i < out@.len() && 0 <= j < v@.len() ==> #[trigger] out@[i].distance.key
                    <= #[trigger] v@[j].distance.key,
            forall|key: u64| #[trigger] with_key(out@, key) + with_key(v@, key) == with_key(
                orig,
                key,
            ),
        decreases v@.len(),
    {
        let mut m: usize = 0;
        let mut k: usize = 1;
        while k < v.len()
            invariant
                0 <= m < k <= v@.len(),
                v@.len() > 0,
                forall|j: int| 0 <= j < k ==> v@[m as int].distance.key <= #[trigger] v@[j].distance.key,
                forall|j: int| 0 <= j < m ==> v@[m as int].distance.key < #[trigger] v@[j].distance.key,
            decreases v@.len() - k,
        {
            if v[k].distance.key < v[m].distance.key {
                m = k;
            }
            k = k + 1;
        }
        let ghost out0 = out@;
        let ghost v0 = v@;
        let x = v.remove(m);
        out.push(x);
        proof {
            broadcast use vstd::seq_lib::group_to_multiset_ensures;
            broadcast use vstd::multiset::group_multiset_axioms;

            assert(v@ == v0.remove(m as int));
            assert(v0.remove(m as int).to_multiset() == v0.to_multiset().remove(v0[m as int]));
            assert(v0.contains(v0[m as int]));
            assert(v0.to_multiset().count(v0[m as int]) > 0);
            assert(v@.to_multiset() =~= v0.to_multiset().remove(v0[m as int]));
            assert(out@.to_multiset() =~= out0.to_multiset().insert(x));
            assert(out@.to_multiset().add(v@.to_multiset()) =~= out0.to_multiset().add(
                v0.to_multiset(),
            ));
            assert forall|j: int| 0 <= j < v@.len() implies x.distance.key
                <= #[trigger] v@[j].distance.key by {
                if j < m {
                    assert(v@[j] == v0[j]);
                } else {
                    assert(v@[j] == v0[j + 1]);
                }
            }
            assert forall|i: int, j: int|
                0 <= i < out@.len() && 0 <= j < v@.len() implies #[trigger] out@[i].distance.key
                <= #[trigger] v@[j].distance.key by {
                if j < m {
                    assert(v@[j] == v0[j]);
                } else {
                    assert(v@[j] == v0[j + 1]);
                }
            }
            let front = v0.subrange(0, m as int);
            let back = v0.subrange(m as int + 1, v0.len() as int);
            assert(v0 =~= front.push(x) + back);
            assert(v@ =~= front + back);
            assert forall|key: u64| #[trigger] with_key(out@, key) + with_key(v@, key)
                == with_key(orig, key) by {
                lemma_with_key_push(out0, x, key);
                lemma_with_key_push(front, x, key);
                lemma_with_key_add(front.push(x), back, key);
                lemma_with_key_add(front, back, key);
                if x.distance.key == key {
                    lemma_with_key_none(front, key);
                    assert(with_key(v0, key) =~= with_key(front, key).push(x) + with_key(
                        back,
                        key,
                    ));
                    assert(with_key(out@, key) + with_key(v@, key) =~= with_key(out0, key)
                        + with_key(v0, key));
                } else {
                    assert(with_key(v0, key) =~= with_key(front, key) + with_key(back, key));
                    assert(with_key(out@, key) + with_key(v@, key) =~= with_key(out0, key)
                        + with_key(v0, key));
                }
            }
        }
    }
    proof {
        broadcast use vstd::seq_lib::group_to_multiset_ensures;
        broadcast use vstd::multiset::group_multiset_axioms;

        assert(v@.to_multiset().len() == 0);
        assert(out@.to_multiset() =~= orig.to_multiset());
        assert(out@.len() == out@.to_multiset().len());
        assert(orig.len() == orig.to_multiset().len());
        assert forall|x: Neighbour| out@.contains(x) <==> orig.contains(x) by {
            assert(out@.contains(x) <==> out@.to_multiset().count(x) > 0);
            assert(orig.contains(x) <==> orig.to_multiset().count(x) > 0);
        }
        assert forall|key: u64| #[trigger] with_key(out@, key) == with_key(orig, key) by {
            lemma_with_key_none(v@, key);
            assert(with_key(out@, key) + with_key(v@, key) == with_key(orig, key));
            assert(with_key(out@, key) =~= with_key(out@, key) + with_key(v@, key));
        }
    }
    *v = out;
}

} // verus!
