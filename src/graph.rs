//! The code graph that callers assemble, and the read-only tallies and
//! statistics taken over it.
use vstd::prelude::*;
use crate::text::text_eq;

verus! {

/// A value of an open attribute: null, a boolean, a number (kept as its
/// decimal text, so that no precision is lost), or a string.
#[derive(Clone, Debug, PartialEq, Eq)]
pub enum ExtraValue {
    Null,
    Bool(bool),
    Number(String),
    Text(String),
}

#[derive(Clone, Debug)]
pub struct CodeGraphNode {
    pub id: String,
    pub node_type: String,
    pub name: Option<String>,
    pub path: Option<String>,
    pub language: Option<String>,
    pub lines: Option<usize>,
    pub start_line: Option<usize>,
    pub end_line: Option<usize>,
    pub line: Option<usize>,
    pub source: Option<String>,
    pub extra: Vec<(String, ExtraValue)>,
}

#[derive(Clone, Debug)]
pub struct CodeGraphEdge {
    pub from: String,
    pub to: String,
    pub edge_type: String,
    pub unresolved: Option<bool>,
    pub edge_type_secondary: Option<String>,
    pub extra: Vec<(String, ExtraValue)>,
}

/// A short per-file record.
#[derive(Clone, Debug)]
pub struct CodeGraphFile {
    pub id: usize,
    pub file_type: String,
    pub path: String,
    pub language: String,
    pub lines: usize,
}

/// Nodes and edges as the caller assembled them. Node ids are meant to be
/// unique; an edge may name an id that no node has (an unresolved edge).
#[derive(Clone, Debug)]
pub struct CodeGraph {
    pub nodes: Vec<CodeGraphNode>,
    pub edges: Vec<CodeGraphEdge>,
    pub files: Option<Vec<CodeGraphFile>>,
}

/// The depth reported for every graph: a fixed figure, not measured.
pub const PLACEHOLDER_MAX_DEPTH: usize = 10;

/// The number of connected components reported for every graph: a fixed
/// figure, not measured.
pub const PLACEHOLDER_COMPONENTS: usize = 1;

/// Totals over a graph. The average number of connections per node is
/// `2 * total_edges / total_nodes`, and 0 for a graph without nodes.
#[derive(Clone, Copy, Debug, PartialEq, Eq)]
pub struct GraphStatistics {
    pub total_nodes: usize,
    pub total_edges: usize,
    pub max_depth: usize,
    pub connected_components: usize,
}

/// A tally: each type tag once, with how often it occurs.
pub type Tally = Seq<(Seq<char>, nat)>;

/// The tag `k` already has an entry in `t`.
pub open spec fn has_key(t: Tally, k: Seq<char>) -> bool {
    exists|i: int| 0 <= i < t.len() && (#[trigger] t[i]).0 == k
}

/// No tag has two entries.
pub open spec fn tally_keys_unique(t: Tally) -> bool {
    forall|i: int, j: int| 0 <= i < t.len() && 0 <= j < t.len() && i != j ==> t[i].0 != t[j].0
}

/// One more occurrence of `k`: its entry counts one more, or a new entry
/// with count 1 goes at the end.
pub open spec fn count_one(t: Tally, k: Seq<char>) -> Tally {
    if has_key(t, k) {
        let i = choose|i: int| 0 <= i < t.len() && (#[trigger] t[i]).0 == k;
        t.update(i, (k, t[i].1 + 1))
    } else {
        t.push((k, 1nat))
    }
}

/// The tally of `tags`, taken in order: tags in order of first occurrence.
pub open spec fn tally_of(tags: Seq<Seq<char>>) -> Tally
    decreases tags.len(),
{
    if tags.len() == 0 {
        Seq::empty()
    } else {
        count_one(tally_of(tags.drop_last()), tags.last())
    }
}

/// How often `k` occurs in `tags`.
pub open spec fn occurrences(tags: Seq<Seq<char>>, k: Seq<char>) -> nat
    decreases tags.len(),
{
    if tags.len() == 0 {
        0
    } else {
        occurrences(tags.drop_last(), k) + if tags.last() == k {
            1nat
        } else {
            0nat
        }
    }
}

/// The count that `t` gives `k`: 0 where `k` has no entry.
pub open spec fn count_in(t: Tally, k: Seq<char>) -> nat {
    if has_key(t, k) {
        t[choose|i: int| 0 <= i < t.len() && (#[trigger] t[i]).0 == k].1
    } else {
        0
    }
}

proof fn lemma_count_one(t: Tally, k: Seq<char>, q: Seq<char>)
    requires
        tally_keys_unique(t),
    ensures
        tally_keys_unique(count_one(t, k)),
        count_in(count_one(t, k), q) == count_in(t, q) + if q == k {
            1nat
        } else {
            0nat
        },
{
    let u = count_one(t, k);
    if has_key(t, k) {
        let i = choose|i: int| 0 <= i < t.len() && (#[trigger] t[i]).0 == k;
        assert(u == t.update(i, (k, t[i].1 + 1)));
        assert(u[i].0 == k);
        if q == k {
            let j = choose|j: int| 0 <= j < u.len() && (#[trigger] u[j]).0 == q;
            assert(j == i);
        } else if has_key(t, q) {
            let j = choose|j: int| 0 <= j < t.len() && (#[trigger] t[j]).0 == q;
            assert(u[j].0 == q);
            let j2 = choose|j2: int| 0 <= j2 < u.len() && (#[trigger] u[j2]).0 == q;
            assert(j2 == j);
        } else {
            assert(!has_key(u, q)) by {
                if has_key(u, q) {
                    let j = choose|j: int| 0 <= j < u.len() && (#[trigger] u[j]).0 == q;
                    assert(t[j].0 == q);
                }
            }
        }
    } else {
        assert(u == t.push((k, 1nat)));
        assert(u[t.len() as int].0 == k);
        if q == k {
            assert(has_key(u, q));
            let j = choose|j: int| 0 <= j < u.len() && (#[trigger] u[j]).0 == q;
            assert(j == t.len());
        } else if has_key(t, q) {
            let j = choose|j: int| 0 <= j < t.len() && (#[trigger] t[j]).0 == q;
            assert(u[j].0 == q);
            let j2 = choose|j2: int| 0 <= j2 < u.len() && (#[trigger] u[j2]).0 == q;
            assert(j2 == j);
        } else {
            assert(!has_key(u, q)) by {
                if has_key(u, q) {
                    let j = choose|j: int| 0 <= j < u.len() && (#[trigger] u[j]).0 == q;
                    assert(t[j].0 == q);
                }
            }
        }
    }
}

proof fn lemma_count_one_bound(t: Tally, k: Seq<char>, b: nat)
    requires
        b >= 1,
        tally_keys_unique(t),
        forall|i: int| 0 <= i < t.len() ==> (#[trigger] t[i]).1 < b,
    ensures
        forall|i: int| 0 <= i < count_one(t, k).len() ==> (#[trigger] count_one(t, k)[i]).1 <= b,
{
    let u = count_one(t, k);
    assert forall|j: int| 0 <= j < u.len() implies (#[trigger] u[j]).1 <= b by {
        let q = u[j].0;
        lemma_count_one(t, k, q);
        assert(has_key(u, q));
        let c = choose|c: int| 0 <= c < u.len() && (#[trigger] u[c]).0 == q;
        assert(c == j);
        if has_key(t, q) {
            let d = choose|d: int| 0 <= d < t.len() && (#[trigger] t[d]).0 == q;
            assert(t[d].1 < b);
        }
    }
}

/// Each tag of a tally has one entry, whose count is how often the tag
/// occurs, and no entry counts more than there are tags. So the tally, read
/// as a map from tag to count, does not depend on the order of the tags.
pub proof fn lemma_tally_counts(tags: Seq<Seq<char>>)
    ensures
        tally_keys_unique(tally_of(tags)),
        forall|q: Seq<char>| count_in(tally_of(tags), q) == occurrences(tags, q),
        forall|i: int| 0 <= i < tally_of(tags).len() ==> (#[trigger] tally_of(tags)[i]).1 <= tags.len(),
    decreases tags.len(),
{
    if tags.len() > 0 {
        let t = tally_of(tags.drop_last());
        lemma_tally_counts(tags.drop_last());
        lemma_count_one(t, tags.last(), tags.last());
        assert forall|q: Seq<char>| count_in(tally_of(tags), q) == occurrences(tags, q) by {
            lemma_count_one(t, tags.last(), q);
            assert(count_in(t, q) == occurrences(tags.drop_last(), q));
        }
        lemma_count_one_bound(t, tags.last(), tags.len());
    }
}

/// The plain view of an executable tally.
pub open spec fn tally_view(t: Seq<(String, usize)>) -> Tally {
    t.map_values(|e: (String, usize)| (e.0@, e.1 as nat))
}

/// Counts one more occurrence of `k` in `t`.
fn add_occurrence(t: &mut Vec<(String, usize)>, k: &String, Ghost(bound): Ghost<nat>)
    requires
        tally_keys_unique(tally_view(old(t)@)),
        forall|i: int| 0 <= i < old(t)@.len() ==> (#[trigger] old(t)@[i]).1 < bound,
        bound <= usize::MAX,
    ensures
        tally_view(final(t)@) == count_one(tally_view(old(t)@), k@),
{
    let ghost v = tally_view(t@);
    let mut i: usize = 0;
    while i < t.len()
        invariant
            0 <= i <= t@.len(),
            v == tally_view(t@),
            t@ == old(t)@,
            tally_keys_unique(v),
            forall|j: int| 0 <= j < t@.len() ==> (#[trigger] t@[j]).1 < bound,
            bound <= usize::MAX,
            forall|j: int| 0 <= j < i ==> t@[j].0@ != k@,
        decreases t@.len() - i,
    {
        if text_eq(t[i].0.as_str(), k.as_str()) {
            let n = t[i].1;
            proof {
                assert(t@[i as int].1 < bound);
                assert(v[i as int].0 == k@);
                assert(has_key(v, k@));
                let c = choose|c: int| 0 <= c < v.len() && (#[trigger] v[c]).0 == k@;
                assert(c == i);
            }
            t.set(i, (k.clone(), n + 1));
            proof {
                assert(tally_view(t@) =~= v.update(i as int, (k@, v[i as int].1 + 1)));
            }
            return;
        }
        i += 1;
    }
    proof {
        assert(!has_key(v, k@)) by {
            if has_key(v, k@) {
                let c = choose|c: int| 0 <= c < v.len() && (#[trigger] v[c]).0 == k@;
                assert(t@[c].0@ == k@);
            }
        }
    }
    t.push((k.clone(), 1));
    proof {
        assert(tally_view(t@) =~= v.push((k@, 1nat)));
    }
}

impl CodeGraph {
    /// The type tags of the nodes, in order.
    pub open spec fn node_types(&self) -> Seq<Seq<char>> {
        self.nodes@.map_values(|n: CodeGraphNode| n.node_type@)
    }

    /// The type tags of the edges, in order.
    pub open spec fn edge_types(&self) -> Seq<Seq<char>> {
        self.edges@.map_values(|e: CodeGraphEdge| e.edge_type@)
    }

    /// Each node type with its number of nodes, in order of first appearance.
    pub fn nodes_by_type(&self) -> (r: Vec<(String, usize)>)
        ensures
            tally_view(r@) == tally_of(self.node_types()),
    {
        let mut t: Vec<(String, usize)> = Vec::new();
        let mut i: usize = 0;
        while i < self.nodes.len()
            invariant
                0 <= i <= self.nodes@.len(),
                tally_view(t@) == tally_of(self.node_types().subrange(0, i as int)),
            decreases self.nodes@.len() - i,
        {
            let ghost prefix = self.node_types().subrange(0, i + 1);
            proof {
                assert(prefix.drop_last() =~= self.node_types().subrange(0, i as int));
                lemma_tally_counts(prefix.drop_last());
                assert forall|j: int| 0 <= j < t@.len() implies (#[trigger] t@[j]).1 < i + 1 by {
                    assert(tally_view(t@)[j].1 == t@[j].1);
                }
            }
            add_occurrence(&mut t, &self.nodes[i].node_type, Ghost((i + 1) as nat));
            i += 1;
        }
        assert(self.node_types().subrange(0, i as int) =~= self.node_types());
        t
    }

    /// Each edge type with its number of edges, in order of first appearance.
    pub fn edges_by_type(&self) -> (r: Vec<(String, usize)>)
        ensures
            tally_view(r@) == tally_of(self.edge_types()),
    {
        let mut t: Vec<(String, usize)> = Vec::new();
        let mut i: usize = 0;
        while i < self.edges.len()
            invariant
                0 <= i <= self.edges@.len(),
                tally_view(t@) == tally_of(self.edge_types().subrange(0, i as int)),
            decreases self.edges@.len() - i,
        {
            let ghost prefix = self.edge_types().subrange(0, i + 1);
            proof {
                assert(prefix.drop_last() =~= self.edge_types().subrange(0, i as int));
                lemma_tally_counts(prefix.drop_last());
                assert forall|j: int| 0 <= j < t@.len() implies (#[trigger] t@[j]).1 < i + 1 by {
                    assert(tally_view(t@)[j].1 == t@[j].1);
                }
            }
            add_occurrence(&mut t, &self.edges[i].edge_type, Ghost((i + 1) as nat));
            i += 1;
        }
        assert(self.edge_types().subrange(0, i as int) =~= self.edge_types());
        t
    }

    /// Node and edge totals, with the fixed depth and component figures.
    pub fn statistics(&self) -> (r: GraphStatistics)
        ensures
            r.total_nodes == self.nodes@.len(),
            r.total_edges == self.edges@.len(),
            r.max_depth == PLACEHOLDER_MAX_DEPTH,
            r.connected_components == PLACEHOLDER_COMPONENTS,
    {
        GraphStatistics {
            total_nodes: self.nodes.len(),
            total_edges: self.edges.len(),
            max_depth: PLACEHOLDER_MAX_DEPTH,
            connected_components: PLACEHOLDER_COMPONENTS,
        }
    }
}

/// The average number of connections per node as a fraction
/// (numerator, denominator): `2 * edges / nodes`, and 0 when there are no nodes.
pub open spec fn avg_connections(nodes: nat, edges: nat) -> (int, int) {
    if nodes == 0 {
        (0, 1)
    } else {
        (2 * edges as int, nodes as int)
    }
}

impl GraphStatistics {
    /// The average number of connections per node, as (numerator, denominator).
    pub fn avg_connections_per_node(&self) -> (r: (u128, u128))
        ensures
            (r.0 as int, r.1 as int) == avg_connections(self.total_nodes as nat, self.total_edges as nat),
            r.1 >= 1,
    {
        if self.total_nodes == 0 {
            (0, 1)
        } else {
            (2 * (self.total_edges as u128), self.total_nodes as u128)
        }
    }
}

} // verus!
