//! Per-node sequence marks.

use vstd::prelude::*;

verus! {

/// What the pairs hold for `node`: the value of the first pair that names it.
pub open spec fn lookup<V>(pairs: Seq<(String, V)>, node: Seq<char>) -> Option<V>
    decreases pairs.len(),
{
    if pairs.len() == 0 {
        None
    } else if pairs[0].0@ == node {
        Some(pairs[0].1)
    } else {
        lookup(pairs.skip(1), node)
    }
}

/// A map from node to the highest sequence number known of it.
#[derive(Debug)]
pub struct NodeMarks {
    pairs: Vec<(String, u64)>,
}

impl View for NodeMarks {
    type V = Map<Seq<char>, u64>;

    closed spec fn view(&self) -> Map<Seq<char>, u64> {
        Map::new(
            |n: Seq<char>| lookup(self.pairs@, n) is Some,
            |n: Seq<char>| lookup(self.pairs@, n)->0,
        )
    }
}

/// The mark of `node`, zero where none is known.
pub open spec fn mark_of(marks: Map<Seq<char>, u64>, node: Seq<char>) -> u64 {
    if marks.contains_key(node) {
        marks[node]
    } else {
        0
    }
}

/// A mark is known of `node`, and has reached `seq`.
pub open spec fn reaches(marks: Map<Seq<char>, u64>, node: Seq<char>, seq: u64) -> bool {
    marks.contains_key(node) && marks[node] >= seq
}

/// `marks` with that of `node` raised to at least `mark`.
pub open spec fn raised(marks: Map<Seq<char>, u64>, node: Seq<char>, mark: u64) -> Map<
    Seq<char>,
    u64,
> {
    marks.insert(
        node,
        if mark_of(marks, node) < mark {
            mark
        } else {
            mark_of(marks, node)
        },
    )
}

/// A look-up finds the first pair of the node.
pub proof fn lookup_hit<V>(pairs: Seq<(String, V)>, node: Seq<char>, i: int)
    requires
        0 <= i < pairs.len(),
        pairs[i].0@ == node,
        forall|j: int| 0 <= j < i ==> (#[trigger] pairs[j]).0@ != node,
    ensures
        lookup(pairs, node) == Some(pairs[i].1),
    decreases pairs.len(),
{
    if i > 0 {
        let rest = pairs.skip(1);
        assert(pairs[0].0@ != node);
        assert forall|j: int| 0 <= j < i - 1 implies (#[trigger] rest[j]).0@ != node by {
            assert(rest[j] == pairs[j + 1]);
        }
        lookup_hit(rest, node, i - 1);
    }
}

/// A look-up finds nothing where there is no pair of the node.
pub proof fn lookup_miss<V>(pairs: Seq<(String, V)>, node: Seq<char>)
    requires
        forall|j: int| 0 <= j < pairs.len() ==> (#[trigger] pairs[j]).0@ != node,
    ensures
        lookup(pairs, node) is None,
    decreases pairs.len(),
{
    if pairs.len() > 0 {
        let rest = pairs.skip(1);
        assert(pairs[0].0@ != node);
        assert forall|j: int| 0 <= j < rest.len() implies (#[trigger] rest[j]).0@ != node by {
            assert(rest[j] == pairs[j + 1]);
        }
        lookup_miss(rest, node);
    }
}

/// Replacing the pair of one node changes nothing for another.
pub proof fn lookup_update<V>(pairs: Seq<(String, V)>, i: int, pair: (String, V), other: Seq<char>)
    requires
        0 <= i < pairs.len(),
        pair.0@ == pairs[i].0@,
        other != pairs[i].0@,
    ensures
        lookup(pairs.update(i, pair), other) == lookup(pairs, other),
    decreases pairs.len(),
{
    let changed = pairs.update(i, pair);
    if i == 0 {
        assert(changed.skip(1) =~= pairs.skip(1));
    } else if pairs[0].0@ != other {
        assert(changed.skip(1) =~= pairs.skip(1).update(i - 1, pair));
        lookup_update(pairs.skip(1), i - 1, pair, other);
    }
}

/// A pair at the end is found where there was none of its node.
pub proof fn lookup_push<V>(pairs: Seq<(String, V)>, last: (String, V), other: Seq<char>)
    ensures
        lookup(pairs.push(last), other) == match lookup(pairs, other) {
            Some(m) => Some(m),
            None => if last.0@ == other {
                Some(last.1)
            } else {
                None::<V>
            },
        },
    decreases pairs.len(),
{
    let all = pairs.push(last);
    if pairs.len() == 0 {
        assert(all.skip(1).len() == 0);
        assert(lookup(all.skip(1), other) is None);
        assert(all[0] == last);
    } else if pairs[0].0@ != other {
        assert(all.skip(1) =~= pairs.skip(1).push(last));
        lookup_push(pairs.skip(1), last, other);
    }
}

impl NodeMarks {
    /// No marks.
    pub fn new() -> (r: NodeMarks)
        ensures
            r@ == Map::<Seq<char>, u64>::empty(),
    {
        let r = NodeMarks { pairs: Vec::new() };
        proof {
            assert(r@ =~= Map::<Seq<char>, u64>::empty());
        }
        r
    }

    fn position(&self, node: &str) -> (r: Option<usize>)
        ensures
            match r {
                Some(i) => i < self.pairs@.len() && self.pairs@[i as int].0@ == node@ && lookup(
                    self.pairs@,
                    node@,
                ) == Some(self.pairs@[i as int].1) && (forall|j: int|
                    0 <= j < i ==> (#[trigger] self.pairs@[j]).0@ != node@),
                None => lookup(self.pairs@, node@) is None,
            },
    {
        let wanted = node.to_owned();
        let mut i: usize = 0;
        while i < self.pairs.len()
            invariant
                i <= self.pairs.len(),
                wanted@ == node@,
                forall|j: int| 0 <= j < i ==> (#[trigger] self.pairs@[j]).0@ != node@,
            decreases self.pairs.len() - i,
        {
            if self.pairs[i].0 == wanted {
                proof {
                    lookup_hit(self.pairs@, node@, i as int);
                }
                return Some(i);
            }
            i += 1;
        }
        proof {
            lookup_miss(self.pairs@, node@);
        }
        None
    }

    /// The mark of `node`, if one is known.
    pub fn get(&self, node: &str) -> (r: Option<u64>)
        ensures
            r is Some <==> self@.contains_key(node@),
            r is Some ==> r->0 == self@[node@],
    {
        match self.position(node) {
            Some(i) => Some(self.pairs[i].1),
            None => None,
        }
    }

    /// Sets the mark of `node`.
    pub fn set(&mut self, node: &str, mark: u64)
        ensures
            final(self)@ == old(self)@.insert(node@, mark),
    {
        let ghost before = self.pairs@;
        match self.position(node) {
            Some(i) => {
                let name = self.pairs[i].0.clone();
                self.pairs[i] = (name, mark);
                proof {
                    assert(self.pairs@ =~= before.update(i as int, (before[i as int].0, mark)));
                    lookup_hit(self.pairs@, node@, i as int);
                    assert forall|other: Seq<char>| other != node@ implies lookup(
                        self.pairs@,
                        other,
                    ) == #[trigger] lookup(before, other) by {
                        lookup_update(before, i as int, self.pairs@[i as int], other);
                    }
                }
            },
            None => {
                self.pairs.push((node.to_owned(), mark));
                proof {
                    assert forall|other: Seq<char>| true implies lookup(self.pairs@, other)
                        == match #[trigger] lookup(before, other) {
                        Some(m) => Some(m),
                        None => if other == node@ {
                            Some(mark)
                        } else {
                            None::<u64>
                        },
                    } by {
                        lookup_push(before, self.pairs@.last(), other);
                    }
                }
            },
        }
        proof {
            let want = old(self)@.insert(node@, mark);
            assert(self@ =~= want) by {
                assert forall|n: Seq<char>| self@.contains_key(n) == want.contains_key(n) by {
                    assert(lookup(before, n) is Some || lookup(before, n) is None);
                }
                assert forall|n: Seq<char>| self@.contains_key(n) implies self@[n] == want[n] by {
                    assert(lookup(before, n) is Some || lookup(before, n) is None);
                }
            }
        }
    }

    /// Raises the mark of `node` to at least `mark`.
    pub fn raise(&mut self, node: &str, mark: u64)
        ensures
            final(self)@ == raised(old(self)@, node@, mark),
    {
        let known: u64 = match self.get(node) {
            Some(m) => m,
            None => 0,
        };
        self.set(
            node,
            if known < mark {
                mark
            } else {
                known
            },
        );
    }

    /// Equal marks.
    pub fn duplicate(&self) -> (r: NodeMarks)
        ensures
            r@ == self@,
    {
        let mut pairs: Vec<(String, u64)> = Vec::new();
        let mut i: usize = 0;
        while i < self.pairs.len()
            invariant
                i <= self.pairs.len(),
                pairs@ == self.pairs@.take(i as int),
            decreases self.pairs.len() - i,
        {
            pairs.push((self.pairs[i].0.clone(), self.pairs[i].1));
            i += 1;
            proof {
                assert(pairs@ =~= self.pairs@.take(i as int));
            }
        }
        proof {
            assert(self.pairs@.take(i as int) =~= self.pairs@);
        }
        NodeMarks { pairs }
    }

    /// Every node with its mark, each node once.
    pub fn to_pairs(&self) -> (r: Vec<(String, u64)>)
        ensures
            forall|i: int|
                0 <= i < r.len() ==> self@.contains_key((#[trigger] r@[i]).0@) && self@[r@[i].0@]
                    == r@[i].1,
            forall|n: Seq<char>|
                self@.contains_key(n) ==> exists|i: int|
                    0 <= i < r.len() && (#[trigger] r@[i]).0@ == n,
            forall|i: int, j: int| 0 <= i < j < r.len() ==> r@[i].0@ != r@[j].0@,
    {
        let mut out: Vec<(String, u64)> = Vec::new();
        let mut i: usize = 0;
        while i < self.pairs.len()
            invariant
                i <= self.pairs.len(),
                forall|k: int|
                    0 <= k < out.len() ==> lookup(self.pairs@, (#[trigger] out@[k]).0@) == Some(
                        out@[k].1,
                    ),
                forall|k: int|
                    0 <= k < i ==> has_node(out@, (#[trigger] self.pairs@[k]).0@),
                forall|k: int|
                    0 <= k < out.len() ==> exists|j: int|
                        0 <= j < i && (#[trigger] self.pairs@[j]).0@ == (#[trigger] out@[k]).0@,
                forall|k: int, l: int| 0 <= k < l < out.len() ==> out@[k].0@ != out@[l].0@,
            decreases self.pairs.len() - i,
        {
            let name = self.pairs[i].0.clone();
            let ghost before = out@;
            let at: Option<usize> = self.position(name.as_str());
            if let Some(first) = at {
                if first == i {
                    out.push((name, self.pairs[i].1));
                    proof {
                        assert(out@[before.len() as int].0@ == self.pairs@[i as int].0@);
                        assert forall|k: int| 0 <= k < i implies has_node(
                            out@,
                            (#[trigger] self.pairs@[k]).0@,
                        ) by {
                            let m = choose|m: int|
                                0 <= m < before.len() && (#[trigger] before[m]).0@
                                    == self.pairs@[k].0@;
                            assert(out@[m] == before[m]);
                        }
                    }
                } else {
                    proof {
                        assert(first < i) by {
                            if first > i {
                                assert(self.pairs@[i as int].0@ != name@);
                            }
                        }
                        assert(has_node(out@, self.pairs@[first as int].0@));
                    }
                }
            } else {
                proof {
                    lookup_of_member(self.pairs@, i as int);
                }
            }
            i += 1;
        }
        proof {
            assert forall|n: Seq<char>| self@.contains_key(n) implies exists|k: int|
                0 <= k < out.len() && (#[trigger] out@[k]).0@ == n by {
                lookup_member(self.pairs@, n);
                let k = choose|k: int|
                    0 <= k < self.pairs@.len() && (#[trigger] self.pairs@[k]).0@ == n;
                assert(has_node(out@, self.pairs@[k].0@));
            }
        }
        out
    }
}

impl Default for NodeMarks {
    fn default() -> (r: NodeMarks)
        ensures
            r@ == Map::<Seq<char>, u64>::empty(),
    {
        NodeMarks::new()
    }
}

spec fn has_node(pairs: Seq<(String, u64)>, node: Seq<char>) -> bool {
    exists|i: int| 0 <= i < pairs.len() && (#[trigger] pairs[i]).0@ == node
}

/// Every node that has a pair is found.
pub proof fn lookup_of_member<V>(pairs: Seq<(String, V)>, i: int)
    requires
        0 <= i < pairs.len(),
    ensures
        lookup(pairs, pairs[i].0@) is Some,
    decreases pairs.len(),
{
    if i > 0 && pairs[0].0@ != pairs[i].0@ {
        assert(pairs.skip(1)[i - 1] == pairs[i]);
        lookup_of_member(pairs.skip(1), i - 1);
    }
}

/// A node that is found has a pair.
pub proof fn lookup_member<V>(pairs: Seq<(String, V)>, node: Seq<char>)
    requires
        lookup(pairs, node) is Some,
    ensures
        exists|k: int| 0 <= k < pairs.len() && (#[trigger] pairs[k]).0@ == node,
    decreases pairs.len(),
{
    if pairs[0].0@ != node {
        lookup_member(pairs.skip(1), node);
        let k = choose|k: int|
            0 <= k < pairs.skip(1).len() && (#[trigger] pairs.skip(1)[k]).0@ == node;
        assert(pairs[k + 1].0@ == node);
    }
}

} // verus!
