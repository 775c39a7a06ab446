//! Node and trimming helpers for the HNSW graph.

use vstd::prelude::*;

use crate::hnsw::types::EdgeContext;

verus! {

/// A neighbour list never names the same node twice.
pub open spec fn ids_distinct(s: Seq<usize>) -> bool {
    forall|i: int, j: int| 0 <= i < j < s.len() ==> s[i] != s[j]
}

/// A sequence of distinct identifiers below `n` cannot have more than `n`
/// elements.
pub proof fn lemma_distinct_bounded(s: Seq<usize>, n: nat)
    requires
        ids_distinct(s),
        forall|i: int| 0 <= i < s.len() ==> s[i] < n,
    ensures
        s.len() <= n,
    decreases n,
{
    if n == 0 {
        if s.len() > 0 {
            assert(s[0] < 0);
        }
    } else {
        if exists|i: int| 0 <= i < s.len() && s[i] == n - 1 {
            let i = choose|i: int| 0 <= i < s.len() && s[i] == n - 1;
            let t = s.remove(i);
            assert forall|a: int, b: int| 0 <= a < b < t.len() implies t[a] != t[b] by {
                if a < i {
                    assert(t[a] == s[a]);
                } else {
                    assert(t[a] == s[a + 1]);
                }
                if b < i {
                    assert(t[b] == s[b]);
                } else {
                    assert(t[b] == s[b + 1]);
                }
            }
            assert forall|a: int| 0 <= a < t.len() implies t[a] < n - 1 by {
                if a < i {
                    assert(t[a] == s[a]);
                    assert(s[a] != s[i]);
                } else {
                    assert(t[a] == s[a + 1]);
                    assert(s[a + 1] != s[i]);
                }
            }
            lemma_distinct_bounded(t, (n - 1) as nat);
        } else {
            assert forall|a: int| 0 <= a < s.len() implies s[a] < n - 1 by {
                assert(s[a] != n - 1);
            }
            lemma_distinct_bounded(s, (n - 1) as nat);
        }
    }
}

/// Stored representation of a graph node: one neighbour list per layer.
#[derive(Debug, PartialEq)]
pub struct Node {
    neighbours: Vec<Vec<usize>>,
}

impl View for Node {
    type V = Seq<Seq<usize>>;

    closed spec fn view(&self) -> Seq<Seq<usize>> {
        self.neighbours@.map_values(|v: Vec<usize>| v@)
    }
}

impl Node {
    /// The neighbour list at `l`, or the empty list where the node stores no
    /// such layer.
    pub open spec fn layer(&self, l: int) -> Seq<usize> {
        if 0 <= l < self@.len() {
            self@[l]
        } else {
            Seq::empty()
        }
    }

    /// Creates a new node with empty neighbour lists for `level + 1` layers.
    pub fn new(level: usize) -> (n: Self)
        requires
            level < usize::MAX,
        ensures
            n@.len() == level + 1,
            forall|l: int| 0 <= l <= level ==> n.layer(l) == Seq::<usize>::empty(),
    {
        let mut neighbours: Vec<Vec<usize>> = Vec::new();
        let mut i: usize = 0;
        while i < level + 1
            invariant
                level < usize::MAX,
                i <= level + 1,
                neighbours@.len() == i,
                forall|l: int| 0 <= l < i ==> #[trigger] neighbours@[l]@ == Seq::<usize>::empty(),
            decreases level + 1 - i,
        {
            neighbours.push(Vec::new());
            i = i + 1;
        }
        let n = Node { neighbours };
        proof {
            assert forall|l: int| 0 <= l <= level implies n.layer(l) == Seq::<usize>::empty() by {
                assert(n@[l] == neighbours@[l]@);
            }
        }
        n
    }

    /// Number of layers this node stores lists for.
    pub fn layer_count(&self) -> (r: usize)
        ensures
            r == self@.len(),
    {
        self.neighbours.len()
    }

    /// Returns the neighbours for a level, empty if the level is not stored.
    pub fn neighbours(&self, level: usize) -> (r: &[usize])
        ensures
            r@ == self.layer(level as int),
    {
        if level < self.neighbours.len() {
            self.neighbours[level].as_slice()
        } else {
            &[]
        }
    }

    /// Replaces the list at `level`, growing the stored layers with empty
    /// lists if the node did not reach that layer yet.
    pub(crate) fn set_layer(&mut self, level: usize, list: Vec<usize>)
        requires
            level < usize::MAX,
        ensures
            final(self)@.len() == if level < old(self)@.len() {
                old(self)@.len() as int
            } else {
                level + 1
            },
            forall|l: int| l != level ==> final(self).layer(l) == old(self).layer(l),
            final(self).layer(level as int) == list@,
    {
        let ghost pre = self@;
        while self.neighbours.len() < level + 1
            invariant
                level < usize::MAX,
                self@.len() >= pre.len(),
                self@.len() <= level + 1 || self@.len() == pre.len(),
                forall|l: int| 0 <= l < pre.len() ==> #[trigger] self@[l] == pre[l],
                forall|l: int| pre.len() <= l < self@.len() ==> #[trigger] self@[l]
                    == Seq::<usize>::empty(),
            decreases level + 1 - self.neighbours@.len(),
        {
            let ghost before = self@;
            self.neighbours.push(Vec::new());
            proof {
                assert(self@.len() == before.len() + 1);
                assert forall|l: int| 0 <= l < before.len() implies #[trigger] self@[l]
                    == before[l] by {
                    assert(self@[l] == self.neighbours@[l]@);
                }
                assert(self@[before.len() as int] == Seq::<usize>::empty());
            }
        }
        let ghost grown = self@;
        let elem = &mut self.neighbours[level];
        *elem = list;
        proof {
            assert(self@.len() == grown.len());
            assert(self@[level as int] == list@);
            assert forall|l: int| l != level implies self.layer(l) == old(self).layer(l) by {
                if 0 <= l < self@.len() {
                    assert(self@[l] == grown[l]);
                }
            }
        }
    }
}

/// Copies a list of identifiers into an owned vector.
pub(crate) fn copy_ids(v: &[usize]) -> (r: Vec<usize>)
    ensures
        r@ == v@,
{
    let mut r: Vec<usize> = Vec::new();
    let mut i: usize = 0;
    while i < v.len()
        invariant
            i <= v@.len(),
            r@ == v@.subrange(0, i as int),
        decreases v@.len() - i,
    {
        r.push(v[i]);
        proof {
            assert(r@ =~= v@.subrange(0, i + 1));
        }
        i = i + 1;
    }
    proof {
        assert(r@ =~= v@);
    }
    r
}

/// Captures the neighbour candidates for a node that may require trimming.
#[derive(Debug)]
pub(crate) struct TrimJob {
    pub(crate) node: usize,
    pub(crate) ctx: EdgeContext,
    pub(crate) candidates: Vec<usize>,
}

impl TrimJob {
    /// Prioritises the newly inserted node for validation by moving it to the
    /// front.
    pub(crate) fn prioritise(&mut self, new_node: usize)
        ensures
            final(self).node == old(self).node,
            final(self).ctx == old(self).ctx,
            final(self).candidates@.len() == old(self).candidates@.len(),
            forall|x: usize|
                final(self).candidates@.contains(x) <==> old(self).candidates@.contains(x),
            ids_distinct(old(self).candidates@) ==> ids_distinct(final(self).candidates@),
            old(self).candidates@.contains(new_node) ==> final(self).candidates@[0] == new_node,
            !old(self).candidates@.contains(new_node) ==> final(self).candidates@ == old(
                self,
            ).candidates@,
            old(self).candidates@.contains(new_node) ==> exists|i: int|
                0 <= i < old(self).candidates@.len() && old(self).candidates@[i] == new_node && (
                forall|j: int| 0 <= j < i ==> old(self).candidates@[j] != new_node)
                && final(self).candidates@ == old(self).candidates@.update(
                0,
                old(self).candidates@[i],
            ).update(i, old(self).candidates@[0]),
    {
        let ghost pre = self.candidates@;
        let mut index: usize = 0;
        let mut found = false;
        let mut k: usize = 0;
        while k < self.candidates.len()
            invariant
                k <= pre.len(),
                self.candidates@ == pre,
                !found ==> forall|j: int| 0 <= j < k ==> pre[j] != new_node,
                found ==> index < pre.len() && pre[index as int] == new_node && (forall|j: int|
                    0 <= j < index ==> pre[j] != new_node),
            decreases pre.len() - k,
        {
            if !found && self.candidates[k] == new_node {
                index = k;
                found = true;
            }
            k = k + 1;
        }
        if found {
            proof {
                assert(pre.contains(pre[index as int]));
            }
            let a = self.candidates[0];
            let b = self.candidates[index];
            let e0 = &mut self.candidates[0];
            *e0 = b;
            let e1 = &mut self.candidates[index];
            *e1 = a;
            proof {
                let post = self.candidates@;
                assert(post =~= pre.update(0, pre[index as int]).update(index as int, pre[0]));
                assert forall|x: usize| post.contains(x) implies pre.contains(x) by {
                    let w = choose|w: int| 0 <= w < post.len() && post[w] == x;
                    if w == 0 {
                        assert(pre[index as int] == x);
                    } else if w == index {
                        assert(pre[0] == x);
                    } else {
                        assert(pre[w] == x);
                    }
                }
                assert forall|x: usize| pre.contains(x) implies post.contains(x) by {
                    let w = choose|w: int| 0 <= w < pre.len() && pre[w] == x;
                    if w == 0 {
                        assert(post[index as int] == x);
                    } else if w == index {
                        assert(post[0] == x);
                    } else {
                        assert(post[w] == x);
                    }
                }
                if ids_distinct(pre) {
                    assert forall|i: int, j: int|
                        0 <= i < j < post.len() implies post[i] != post[j] by {
                        if index != 0 {
                            if i == 0 && j == index {
                            } else if i == 0 {
                                assert(post[j] == pre[j]);
                            } else if j == index {
                                assert(post[i] == pre[i]);
                            } else if i == index {
                                assert(post[j] == pre[j]);
                            }
                        }
                    }
                }
            }
        } else {
            proof {
                assert(!pre.contains(new_node));
            }
        }
    }
}

/// Outcome of trimming a neighbour list.
#[derive(Debug)]
pub(crate) struct TrimResultInternal {
    pub(crate) node: usize,
    pub(crate) ctx: EdgeContext,
    pub(crate) neighbours: Vec<usize>,
}

impl TrimResultInternal {
    /// Converts the internal representation into the shared result form.
    pub(crate) fn into_public(self) -> (r: crate::hnsw::types::TrimResult)
        ensures
            r.node == self.node,
            r.level == self.ctx.level,
            r.neighbours@ == self.neighbours@,
    {
        crate::hnsw::types::TrimResult {
            node: self.node,
            level: self.ctx.level,
            neighbours: self.neighbours,
        }
    }
}

} // verus!
