//! Descriptions of a code graph: a summary, a derived schema, a catalog of
//! sample queries, and one document that gathers them.
use vstd::prelude::*;
use vstd::string::*;
use crate::graph::{CodeGraph, GraphStatistics, Tally, tally_keys_unique, tally_of, tally_view, PLACEHOLDER_MAX_DEPTH, PLACEHOLDER_COMPONENTS};
use crate::order::{sort_tally, sorted_tally, lemma_sorted_tally_order_free};
use crate::text::{decimal, decimal_text, digit_char, digit_text, join, join_texts, lemma_texts_push, texts};

verus! {

/// What `str::to_uppercase` makes of a text.
pub uninterp spec fn upper_of(s: Seq<char>) -> Seq<char>;

/// Relies on str::to_uppercase: the upper-case form depends on the characters alone.
#[verifier::external_body]
pub(crate) fn uppercase(s: &str) -> (r: String)
    ensures
        r@ == upper_of(s@),
{
    s.to_uppercase()
}

/// One line per tally entry: `- <tag>: <count><suffix>`.
pub open spec fn count_lines(t: Tally, suffix: Seq<char>) -> Seq<char>
    decreases t.len(),
{
    if t.len() == 0 {
        Seq::empty()
    } else {
        count_lines(t.drop_last(), suffix) + "- "@ + t.last().0 + ": "@ + decimal(t.last().1)
            + suffix
    }
}

/// The summary of a graph with node tally `nt`, edge tally `et`, `n` nodes and
/// `e` edges; types are listed in ascending order of tag.
pub open spec fn summary_text(nt: Tally, et: Tally, n: nat, e: nat) -> Seq<char> {
    "# Code Graph Summary\n\n## Nodes\n"@ + count_lines(sorted_tally(nt), " nodes\n"@)
        + "\n## Relationships\n"@ + count_lines(sorted_tally(et), " edges\n"@) + "\n## Total Statistics\n- Total Nodes: "@ + decimal(n)
        + "\n- Total Edges: "@ + decimal(e) + "\n"@
}

/// One schema line per node type, under its upper-case label, with the fixed property list.
pub open spec fn label_lines(t: Tally) -> Seq<char>
    decreases t.len(),
{
    if t.len() == 0 {
        Seq::empty()
    } else {
        label_lines(t.drop_last()) + "- :"@ + upper_of(t.last().0)
            + " (id: String, name: String, path: String, language: String, lines: Integer)\n"@
    }
}

/// One schema line per edge type.
pub open spec fn relationship_lines(t: Tally) -> Seq<char>
    decreases t.len(),
{
    if t.len() == 0 {
        Seq::empty()
    } else {
        relationship_lines(t.drop_last()) + "- :"@ + t.last().0 + "\n"@
    }
}

/// The schema derived from the node and edge types that occur, in ascending
/// order of tag.
pub open spec fn schema_text(nt: Tally, et: Tally) -> Seq<char> {
    "# Neo4j Graph Schema\n\n## Node Labels\n"@ + label_lines(sorted_tally(nt))
        + "\n## Relationship Types\n"@ + relationship_lines(sorted_tally(et))
}

/// The fixed catalog of query templates.
pub open spec fn sample_query_texts() -> Seq<Seq<char>> {
    seq![
        "// Find all files\nMATCH (f:FILE) RETURN f.path, f.language LIMIT 10"@,
        "// Find all functions in a specific file\nMATCH (file:FILE)-[:CONTAINS]->(func:FUNCTION)\nWHERE file.path CONTAINS 'example'\nRETURN func.name, func.lines"@,
        "// Find function call chains\nMATCH path = (f1:FUNCTION)-[:CALLS*1..3]->(f2:FUNCTION)\nRETURN path LIMIT 10"@,
        "// Find all imports for a file\nMATCH (file:FILE)-[:IMPORTS_FROM]->(imported:FILE)\nRETURN file.path, imported.path LIMIT 20"@,
        "// Find classes that extend other classes\nMATCH (child:CLASS)-[:EXTENDS]->(parent:CLASS)\nRETURN child.name, parent.name"@,
        "// Find most connected nodes\nMATCH (n)-[r]-()\nRETURN n.name, n.id, labels(n)[0] as label, count(r) AS connections\nORDER BY connections DESC\nLIMIT 10"@,
        "// Find circular dependencies\nMATCH path = (a:FILE)-[:IMPORTS_FROM*2..5]->(a)\nRETURN path LIMIT 5"@,
        "// Find files with no dependencies\nMATCH (f:FILE)\nWHERE NOT (f)-[:IMPORTS_FROM]-()\nRETURN f.path, f.language"@,
    ]
}

/// `- :<LABEL> (<count> nodes)` for each node type.
pub open spec fn node_type_entries(t: Tally) -> Seq<Seq<char>> {
    Seq::new(t.len(), |i: int| "- :"@ + upper_of(t[i].0) + " ("@ + decimal(t[i].1) + " nodes)"@)
}

/// `- :<type> (<count> relationships)` for each edge type.
pub open spec fn edge_type_entries(t: Tally) -> Seq<Seq<char>> {
    Seq::new(t.len(), |i: int| "- :"@ + t[i].0 + " ("@ + decimal(t[i].1) + " relationships)"@)
}

/// Each query inside a cypher code fence.
pub open spec fn fenced_queries(q: Seq<Seq<char>>) -> Seq<Seq<char>> {
    Seq::new(q.len(), |i: int| "```cypher\n"@ + q[i] + "\n```"@)
}

/// The upper-case label of each node type.
pub open spec fn upper_labels(t: Tally) -> Seq<Seq<char>> {
    Seq::new(t.len(), |i: int| upper_of(t[i].0))
}

/// Each tally's tag.
pub open spec fn tags(t: Tally) -> Seq<Seq<char>> {
    Seq::new(t.len(), |i: int| t[i].0)
}

/// `200 * edges / nodes` rounded to the nearest integer, ties to even: the
/// average connections per node in hundredths. 0 when there are no nodes.
pub open spec fn avg_hundredths(nodes: nat, edges: nat) -> nat {
    if nodes == 0 {
        0
    } else {
        let q = (200 * edges) / nodes;
        let rem = (200 * edges) % nodes;
        if 2 * rem > nodes || (2 * rem == nodes && q % 2 == 1) {
            q + 1
        } else {
            q
        }
    }
}

/// A number of hundredths written with two decimals.
pub open spec fn two_decimals(h: nat) -> Seq<char> {
    decimal(h / 100) + "."@ + seq![digit_char((h % 100) / 10), digit_char(h % 10)]
}

/// The whole description of a graph for a downstream query writer; types
/// are listed in ascending order of tag.
pub open spec fn query_context_text(
    summary: Seq<char>,
    nt: Tally,
    et: Tally,
    queries: Seq<Seq<char>>,
    n: nat,
    e: nat,
) -> Seq<char> {
    "# Neo4j Knowledge Graph Context\n\n## Graph Overview\n"@ + summary
        + "\n\n## Available Node Types\n"@ + join(node_type_entries(sorted_tally(nt)), "\n"@)
        + "\n\n## Available Relationship Types\n"@ + join(edge_type_entries(sorted_tally(et)), "\n"@)
        + "\n\n## Sample Cypher Queries\nYou can query this graph database using these patterns:\n\n"@
        + join(fenced_queries(queries), "\n\n"@) + "\n\n## Statistics\n- Total Nodes: "@ + decimal(n)
        + "\n- Total Edges: "@ + decimal(e) + "\n- Average Connections per Node: "@
        + two_decimals(avg_hundredths(n, e))
        + "\n\n## Query Guidelines\n1. Use MATCH clauses to find patterns\n2. Use WHERE to filter results\n3. Use RETURN to specify what to return\n4. Use LIMIT to control result count\n5. Available node types: "@
        + join(upper_labels(sorted_tally(nt)), ", "@) + "\n6. Available relationship types: "@ + join(tags(sorted_tally(et)), ", "@)
        + "\n\n## Important Notes\n- The graph is stored in Neo4j and can be queried in real-time\n- When the user asks questions about code structure, dependencies, or relationships, generate Cypher queries\n- Always include LIMIT in queries to avoid overwhelming results\n- Use CONTAINS for partial string matching in paths\n- Wrap your Cypher queries in ```cypher blocks\n\nWhen generating queries:\n1. Start with MATCH to find patterns\n2. Add WHERE clauses for filtering\n3. Use RETURN to get specific properties\n4. Add ORDER BY and LIMIT for manageable results\n5. The user can execute queries directly by clicking the \"Execute\" button\n"@
}

/// The reports depend on the (tag, count) pairs of the tallies alone, not on
/// their order: tallies without repeated tags that hold the same pairs give
/// the same summary, schema and query context.
pub proof fn lemma_reports_order_free(nt1: Tally, nt2: Tally, et1: Tally, et2: Tally, n: nat, e: nat)
    requires
        tally_keys_unique(nt1),
        tally_keys_unique(nt2),
        tally_keys_unique(et1),
        tally_keys_unique(et2),
        forall|p: (Seq<char>, nat)| nt1.contains(p) <==> nt2.contains(p),
        forall|p: (Seq<char>, nat)| et1.contains(p) <==> et2.contains(p),
    ensures
        summary_text(nt1, et1, n, e) == summary_text(nt2, et2, n, e),
        schema_text(nt1, et1) == schema_text(nt2, et2),
        query_context_text(summary_text(nt1, et1, n, e), nt1, et1, sample_query_texts(), n, e)
            == query_context_text(summary_text(nt2, et2, n, e), nt2, et2, sample_query_texts(), n, e),
{
    lemma_sorted_tally_order_free(nt1, nt2);
    lemma_sorted_tally_order_free(et1, et2);
}

/// Everything derived from a graph.
pub struct GraphContext {
    pub summary: String,
    pub cypher_schema: String,
    pub sample_queries: Vec<String>,
    pub nodes_by_type: Vec<(String, usize)>,
    pub edges_by_type: Vec<(String, usize)>,
    pub graph_statistics: GraphStatistics,
}

fn append_count_lines(s: &mut String, t: &Vec<(String, usize)>, suffix: &str)
    ensures
        final(s)@ == old(s)@ + count_lines(tally_view(t@), suffix@),
{
    let ghost start = s@;
    let ghost v = tally_view(t@);
    let mut i: usize = 0;
    assert(start + count_lines(v.subrange(0, 0), suffix@) =~= start);
    while i < t.len()
        invariant
            0 <= i <= t@.len(),
            v == tally_view(t@),
            s@ == start + count_lines(v.subrange(0, i as int), suffix@),
        decreases t@.len() - i,
    {
        s.append("- ");
        s.append(t[i].0.as_str());
        s.append(": ");
        let count = decimal_text(t[i].1 as u128);
        s.append(count.as_str());
        s.append(suffix);
        proof {
            assert(v.subrange(0, i + 1).drop_last() =~= v.subrange(0, i as int));
            assert(v.subrange(0, i + 1).last() == v[i as int]);
            assert(s@ =~= start + count_lines(v.subrange(0, i + 1), suffix@));
        }
        i += 1;
    }
    assert(v.subrange(0, i as int) =~= v);
}

fn append_label_lines(s: &mut String, t: &Vec<(String, usize)>)
    ensures
        final(s)@ == old(s)@ + label_lines(tally_view(t@)),
{
    let ghost start = s@;
    let ghost v = tally_view(t@);
    let mut i: usize = 0;
    assert(start + label_lines(v.subrange(0, 0)) =~= start);
    while i < t.len()
        invariant
            0 <= i <= t@.len(),
            v == tally_view(t@),
            s@ == start + label_lines(v.subrange(0, i as int)),
        decreases t@.len() - i,
    {
        s.append("- :");
        let label = uppercase(t[i].0.as_str());
        s.append(label.as_str());
        s.append(" (id: String, name: String, path: String, language: String, lines: Integer)\n");
        proof {
            assert(v.subrange(0, i + 1).drop_last() =~= v.subrange(0, i as int));
            assert(v.subrange(0, i + 1).last() == v[i as int]);
            assert(s@ =~= start + label_lines(v.subrange(0, i + 1)));
        }
        i += 1;
    }
    assert(v.subrange(0, i as int) =~= v);
}

fn append_relationship_lines(s: &mut String, t: &Vec<(String, usize)>)
    ensures
        final(s)@ == old(s)@ + relationship_lines(tally_view(t@)),
{
    let ghost start = s@;
    let ghost v = tally_view(t@);
    let mut i: usize = 0;
    assert(start + relationship_lines(v.subrange(0, 0)) =~= start);
    while i < t.len()
        invariant
            0 <= i <= t@.len(),
            v == tally_view(t@),
            s@ == start + relationship_lines(v.subrange(0, i as int)),
        decreases t@.len() - i,
    {
        s.append("- :");
        s.append(t[i].0.as_str());
        s.append("\n");
        proof {
            assert(v.subrange(0, i + 1).drop_last() =~= v.subrange(0, i as int));
            assert(v.subrange(0, i + 1).last() == v[i as int]);
            assert(s@ =~= start + relationship_lines(v.subrange(0, i + 1)));
        }
        i += 1;
    }
    assert(v.subrange(0, i as int) =~= v);
}

impl GraphStatistics {
    /// The average number of connections per node with two decimals, ties
    /// rounded to even; "0.00" for a graph without nodes.
    pub fn avg_connections_text(&self) -> (r: String)
        ensures
            r@ == two_decimals(avg_hundredths(self.total_nodes as nat, self.total_edges as nat)),
    {
        let n = self.total_nodes as u128;
        let h: u128 = if n == 0 {
            0
        } else {
            let num = 200 * (self.total_edges as u128);
            let q = num / n;
            let rem = num % n;
            if 2 * rem > n || (2 * rem == n && q % 2 == 1) {
                q + 1
            } else {
                q
            }
        };
        proof {
            assert(h <= 200 * (self.total_edges as nat) + 1) by (nonlinear_arith)
                requires
                    n == 0 ==> h == 0,
                    n > 0 ==> h <= (200 * (self.total_edges as nat)) / (n as nat) + 1,
            {
            }
        }
        let mut s = decimal_text(h / 100);
        s.append(".");
        s.append(digit_text((h % 100) / 10));
        s.append(digit_text(h % 10));
        proof {
            reveal_strlit(".");
            assert(s@ =~= two_decimals(avg_hundredths(self.total_nodes as nat, self.total_edges as nat)));
        }
        s
    }
}

/// `- :<LABEL> (<count> nodes)` for each entry of `t`.
fn node_type_entry_texts(t: &Vec<(String, usize)>) -> (r: Vec<String>)
    ensures
        texts(r@) == node_type_entries(tally_view(t@)),
{
    let mut v: Vec<String> = Vec::new();
    let mut i: usize = 0;
    while i < t.len()
        invariant
            0 <= i <= t@.len(),
            texts(v@) == node_type_entries(tally_view(t@)).subrange(0, i as int),
        decreases t@.len() - i,
    {
        let mut s = String::from_str("- :");
        let label = uppercase(t[i].0.as_str());
        s.append(label.as_str());
        s.append(" (");
        let count = decimal_text(t[i].1 as u128);
        s.append(count.as_str());
        s.append(" nodes)");
        let ghost before = v@;
        v.push(s);
        proof {
            lemma_texts_push(before, s);
            assert(node_type_entries(tally_view(t@))[i as int] == s@);
            assert(texts(v@) =~= node_type_entries(tally_view(t@)).subrange(0, i + 1));
        }
        i += 1;
    }
    assert(node_type_entries(tally_view(t@)).subrange(0, i as int) =~= node_type_entries(tally_view(t@)));
    v
}

/// `- :<type> (<count> relationships)` for each entry of `t`.
fn edge_type_entry_texts(t: &Vec<(String, usize)>) -> (r: Vec<String>)
    ensures
        texts(r@) == edge_type_entries(tally_view(t@)),
{
    let mut v: Vec<String> = Vec::new();
    let mut i: usize = 0;
    while i < t.len()
        invariant
            0 <= i <= t@.len(),
            texts(v@) == edge_type_entries(tally_view(t@)).subrange(0, i as int),
        decreases t@.len() - i,
    {
        let mut s = String::from_str("- :");
        s.append(t[i].0.as_str());
        s.append(" (");
        let count = decimal_text(t[i].1 as u128);
        s.append(count.as_str());
        s.append(" relationships)");
        let ghost before = v@;
        v.push(s);
        proof {
            lemma_texts_push(before, s);
            assert(edge_type_entries(tally_view(t@))[i as int] == s@);
            assert(texts(v@) =~= edge_type_entries(tally_view(t@)).subrange(0, i + 1));
        }
        i += 1;
    }
    assert(edge_type_entries(tally_view(t@)).subrange(0, i as int) =~= edge_type_entries(tally_view(t@)));
    v
}

/// Each query inside a cypher code fence.
fn fenced_query_texts(q: &Vec<String>) -> (r: Vec<String>)
    ensures
        texts(r@) == fenced_queries(texts(q@)),
{
    let mut v: Vec<String> = Vec::new();
    let mut i: usize = 0;
    while i < q.len()
        invariant
            0 <= i <= q@.len(),
            texts(v@) == fenced_queries(texts(q@)).subrange(0, i as int),
        decreases q@.len() - i,
    {
        let mut s = String::from_str("```cypher\n");
        s.append(q[i].as_str());
        s.append("\n```");
        let ghost before = v@;
        v.push(s);
        proof {
            lemma_texts_push(before, s);
            assert(fenced_queries(texts(q@))[i as int] == s@);
            assert(texts(v@) =~= fenced_queries(texts(q@)).subrange(0, i + 1));
        }
        i += 1;
    }
    assert(fenced_queries(texts(q@)).subrange(0, i as int) =~= fenced_queries(texts(q@)));
    v
}

/// The upper-case label of each entry of `t`.
fn upper_label_texts(t: &Vec<(String, usize)>) -> (r: Vec<String>)
    ensures
        texts(r@) == upper_labels(tally_view(t@)),
{
    let mut v: Vec<String> = Vec::new();
    let mut i: usize = 0;
    while i < t.len()
        invariant
            0 <= i <= t@.len(),
            texts(v@) == upper_labels(tally_view(t@)).subrange(0, i as int),
        decreases t@.len() - i,
    {
        let label = uppercase(t[i].0.as_str());
        let ghost before = v@;
        v.push(label);
        proof {
            lemma_texts_push(before, label);
            assert(texts(v@) =~= upper_labels(tally_view(t@)).subrange(0, i + 1));
        }
        i += 1;
    }
    assert(upper_labels(tally_view(t@)).subrange(0, i as int) =~= upper_labels(tally_view(t@)));
    v
}

/// The tag of each entry of `t`.
fn tag_texts(t: &Vec<(String, usize)>) -> (r: Vec<String>)
    ensures
        texts(r@) == tags(tally_view(t@)),
{
    let mut v: Vec<String> = Vec::new();
    let mut i: usize = 0;
    while i < t.len()
        invariant
            0 <= i <= t@.len(),
            texts(v@) == tags(tally_view(t@)).subrange(0, i as int),
        decreases t@.len() - i,
    {
        let tag = t[i].0.clone();
        let ghost before = v@;
        v.push(tag);
        proof {
            lemma_texts_push(before, tag);
            assert(texts(v@) =~= tags(tally_view(t@)).subrange(0, i + 1));
        }
        i += 1;
    }
    assert(tags(tally_view(t@)).subrange(0, i as int) =~= tags(tally_view(t@)));
    v
}

impl CodeGraph {
    /// The summary: counts per node type and per edge type, then totals.
    pub fn generate_summary(
        &self,
        nodes_by_type: &Vec<(String, usize)>,
        edges_by_type: &Vec<(String, usize)>,
    ) -> (r: String)
        ensures
            r@ == summary_text(
                tally_view(nodes_by_type@),
                tally_view(edges_by_type@),
                self.nodes@.len(),
                self.edges@.len(),
            ),
    {
        let nodes_sorted = sort_tally(nodes_by_type);
        let edges_sorted = sort_tally(edges_by_type);
        let mut s = String::from_str("# Code Graph Summary\n\n## Nodes\n");
        append_count_lines(&mut s, &nodes_sorted, " nodes\n");
        s.append("\n## Relationships\n");
        append_count_lines(&mut s, &edges_sorted, " edges\n");
        s.append("\n## Total Statistics\n- Total Nodes: ");
        let n = decimal_text(self.nodes.len() as u128);
        s.append(n.as_str());
        s.append("\n- Total Edges: ");
        let e = decimal_text(self.edges.len() as u128);
        s.append(e.as_str());
        s.append("\n");
        s
    }

    /// The schema: one label per node type that occurs, with a fixed
    /// property list, and one line per edge type.
    pub fn generate_cypher_schema(
        &self,
        nodes_by_type: &Vec<(String, usize)>,
        edges_by_type: &Vec<(String, usize)>,
    ) -> (r: String)
        ensures
            r@ == schema_text(tally_view(nodes_by_type@), tally_view(edges_by_type@)),
    {
        let nodes_sorted = sort_tally(nodes_by_type);
        let edges_sorted = sort_tally(edges_by_type);
        let mut s = String::from_str("# Neo4j Graph Schema\n\n## Node Labels\n");
        append_label_lines(&mut s, &nodes_sorted);
        s.append("\n## Relationship Types\n");
        append_relationship_lines(&mut s, &edges_sorted);
        s
    }

    /// The fixed catalog of query templates; it does not depend on the graph.
    pub fn generate_sample_queries(&self) -> (r: Vec<String>)
        ensures
            texts(r@) == sample_query_texts(),
    {
        let mut v: Vec<String> = Vec::new();
        v.push(String::from_str("// Find all files\nMATCH (f:FILE) RETURN f.path, f.language LIMIT 10"));
        v.push(String::from_str("// Find all functions in a specific file\nMATCH (file:FILE)-[:CONTAINS]->(func:FUNCTION)\nWHERE file.path CONTAINS 'example'\nRETURN func.name, func.lines"));
        v.push(String::from_str("// Find function call chains\nMATCH path = (f1:FUNCTION)-[:CALLS*1..3]->(f2:FUNCTION)\nRETURN path LIMIT 10"));
        v.push(String::from_str("// Find all imports for a file\nMATCH (file:FILE)-[:IMPORTS_FROM]->(imported:FILE)\nRETURN file.path, imported.path LIMIT 20"));
        v.push(String::from_str("// Find classes that extend other classes\nMATCH (child:CLASS)-[:EXTENDS]->(parent:CLASS)\nRETURN child.name, parent.name"));
        v.push(String::from_str("// Find most connected nodes\nMATCH (n)-[r]-()\nRETURN n.name, n.id, labels(n)[0] as label, count(r) AS connections\nORDER BY connections DESC\nLIMIT 10"));
        v.push(String::from_str("// Find circular dependencies\nMATCH path = (a:FILE)-[:IMPORTS_FROM*2..5]->(a)\nRETURN path LIMIT 5"));
        v.push(String::from_str("// Find files with no dependencies\nMATCH (f:FILE)\nWHERE NOT (f)-[:IMPORTS_FROM]-()\nRETURN f.path, f.language"));
        assert(texts(v@) =~= sample_query_texts());
        v
    }

    /// Tallies, statistics, summary, schema and sample queries of the graph.
    pub fn generate_context(&self) -> (r: GraphContext)
        ensures
            tally_view(r.nodes_by_type@) == tally_of(self.node_types()),
            tally_view(r.edges_by_type@) == tally_of(self.edge_types()),
            r.summary@ == summary_text(
                tally_of(self.node_types()),
                tally_of(self.edge_types()),
                self.nodes@.len(),
                self.edges@.len(),
            ),
            r.cypher_schema@ == schema_text(tally_of(self.node_types()), tally_of(self.edge_types())),
            texts(r.sample_queries@) == sample_query_texts(),
            r.graph_statistics.total_nodes == self.nodes@.len(),
            r.graph_statistics.total_edges == self.edges@.len(),
            r.graph_statistics.max_depth == PLACEHOLDER_MAX_DEPTH,
            r.graph_statistics.connected_components == PLACEHOLDER_COMPONENTS,
    {
        let nodes_by_type = self.nodes_by_type();
        let edges_by_type = self.edges_by_type();
        let summary = self.generate_summary(&nodes_by_type, &edges_by_type);
        let cypher_schema = self.generate_cypher_schema(&nodes_by_type, &edges_by_type);
        let sample_queries = self.generate_sample_queries();
        GraphContext {
            summary,
            cypher_schema,
            sample_queries,
            nodes_by_type,
            edges_by_type,
            graph_statistics: self.statistics(),
        }
    }

    /// One document that describes the graph for a downstream query writer:
    /// the summary, the node and edge types with their counts, the sample
    /// queries, the totals, and fixed guidance.
    pub fn to_graph_query_context(&self) -> (r: String)
        ensures
            r@ == query_context_text(
                summary_text(
                    tally_of(self.node_types()),
                    tally_of(self.edge_types()),
                    self.nodes@.len(),
                    self.edges@.len(),
                ),
                tally_of(self.node_types()),
                tally_of(self.edge_types()),
                sample_query_texts(),
                self.nodes@.len(),
                self.edges@.len(),
            ),
    {
        let context = self.generate_context();
        let nodes_sorted = sort_tally(&context.nodes_by_type);
        let edges_sorted = sort_tally(&context.edges_by_type);
        let node_list = join_texts(&node_type_entry_texts(&nodes_sorted), "\n");
        let edge_list = join_texts(&edge_type_entry_texts(&edges_sorted), "\n");
        let query_list = join_texts(&fenced_query_texts(&context.sample_queries), "\n\n");
        let labels = join_texts(&upper_label_texts(&nodes_sorted), ", ");
        let edge_names = join_texts(&tag_texts(&edges_sorted), ", ");
        let mut s = String::from_str("# Neo4j Knowledge Graph Context\n\n## Graph Overview\n");
        s.append(context.summary.as_str());
        s.append("\n\n## Available Node Types\n");
        s.append(node_list.as_str());
        s.append("\n\n## Available Relationship Types\n");
        s.append(edge_list.as_str());
        s.append("\n\n## Sample Cypher Queries\nYou can query this graph database using these patterns:\n\n");
        s.append(query_list.as_str());
        s.append("\n\n## Statistics\n- Total Nodes: ");
        let n = decimal_text(context.graph_statistics.total_nodes as u128);
        s.append(n.as_str());
        s.append("\n- Total Edges: ");
        let e = decimal_text(context.graph_statistics.total_edges as u128);
        s.append(e.as_str());
        s.append("\n- Average Connections per Node: ");
        let avg = context.graph_statistics.avg_connections_text();
        s.append(avg.as_str());
        s.append("\n\n## Query Guidelines\n1. Use MATCH clauses to find patterns\n2. Use WHERE to filter results\n3. Use RETURN to specify what to return\n4. Use LIMIT to control result count\n5. Available node types: ");
        s.append(labels.as_str());
        s.append("\n6. Available relationship types: ");
        s.append(edge_names.as_str());
        s.append("\n\n## Important Notes\n- The graph is stored in Neo4j and can be queried in real-time\n- When the user asks questions about code structure, dependencies, or relationships, generate Cypher queries\n- Always include LIMIT in queries to avoid overwhelming results\n- Use CONTAINS for partial string matching in paths\n- Wrap your Cypher queries in ```cypher blocks\n\nWhen generating queries:\n1. Start with MATCH to find patterns\n2. Add WHERE clauses for filtering\n3. Use RETURN to get specific properties\n4. Add ORDER BY and LIMIT for manageable results\n5. The user can execute queries directly by clicking the \"Execute\" button\n");
        s
    }
}

} // verus!
