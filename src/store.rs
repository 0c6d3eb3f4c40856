//! The statements that write a code graph into a graph database: the store
//! is wiped, then every node and every edge is created, in order.
use vstd::prelude::*;
use vstd::string::*;
use crate::graph::{CodeGraph, CodeGraphEdge, CodeGraphNode};
use crate::report::{upper_of, uppercase};
use crate::text::{decimal, decimal_text, join, join_texts, texts};

verus! {

/// A statement parameter value.
#[derive(Clone, Debug, PartialEq, Eq)]
pub enum ParamValue {
    Text(String),
    Int(usize),
}

/// One statement, its named parameters, and the words that open its error
/// message should it fail.
#[derive(Clone, Debug)]
pub struct Statement {
    pub query: String,
    pub params: Vec<(String, ParamValue)>,
    pub failure_prefix: String,
}

/// The rows a query hands back at most.
pub const MAX_QUERY_ROWS: usize = 100;

/// A parameter value's plain form.
pub enum ParamView {
    Text(Seq<char>),
    Int(nat),
}

pub open spec fn param_view(p: ParamValue) -> ParamView {
    match p {
        ParamValue::Text(s) => ParamView::Text(s@),
        ParamValue::Int(n) => ParamView::Int(n as nat),
    }
}

pub open spec fn params_view(v: Seq<(String, ParamValue)>) -> Seq<(Seq<char>, ParamView)> {
    v.map_values(|p: (String, ParamValue)| (p.0@, param_view(p.1)))
}

/// The property list of a node's CREATE statement: id, name and path always,
/// then each optional attribute that the node has.
pub open spec fn node_properties(n: CodeGraphNode) -> Seq<Seq<char>> {
    seq!["id: $id"@, "name: $name"@, "path: $path"@]
        + (if n.language is Some { seq!["language: $language"@] } else { Seq::empty() })
        + (if n.lines is Some { seq!["lines: $lines"@] } else { Seq::empty() })
        + (if n.start_line is Some { seq!["startLine: $startLine"@] } else { Seq::empty() })
        + (if n.end_line is Some { seq!["endLine: $endLine"@] } else { Seq::empty() })
        + (if n.line is Some { seq!["line: $line"@] } else { Seq::empty() })
        + (if n.source is Some { seq!["source: $source"@] } else { Seq::empty() })
}

/// The parameters of a node's CREATE statement: a missing name is
/// "unknown", a missing path is empty, and each optional attribute that the
/// node has follows.
pub open spec fn node_params(n: CodeGraphNode) -> Seq<(Seq<char>, ParamView)> {
    seq![
        ("id"@, ParamView::Text(n.id@)),
        ("name"@, ParamView::Text(
            match n.name {
                Some(s) => s@,
                None => "unknown"@,
            },
        )),
        ("path"@, ParamView::Text(
            match n.path {
                Some(s) => s@,
                None => Seq::empty(),
            },
        )),
    ] + (match n.language {
        Some(s) => seq![("language"@, ParamView::Text(s@))],
        None => Seq::empty(),
    }) + (match n.lines {
        Some(v) => seq![("lines"@, ParamView::Int(v as nat))],
        None => Seq::empty(),
    }) + (match n.start_line {
        Some(v) => seq![("startLine"@, ParamView::Int(v as nat))],
        None => Seq::empty(),
    }) + (match n.end_line {
        Some(v) => seq![("endLine"@, ParamView::Int(v as nat))],
        None => Seq::empty(),
    }) + (match n.line {
        Some(v) => seq![("line"@, ParamView::Int(v as nat))],
        None => Seq::empty(),
    }) + (match n.source {
        Some(s) => seq![("source"@, ParamView::Text(s@))],
        None => Seq::empty(),
    })
}

/// The CREATE statement of a node, labelled with its upper-case type.
pub open spec fn node_query(n: CodeGraphNode) -> Seq<char> {
    "CREATE (n:"@ + upper_of(n.node_type@) + " {"@ + join(node_properties(n), ", "@) + "})"@
}

/// The parameters of an edge's statement: its two endpoints.
pub open spec fn edge_params(e: CodeGraphEdge) -> Seq<(Seq<char>, ParamView)> {
    seq![("from"@, ParamView::Text(e.from@)), ("to"@, ParamView::Text(e.to@))]
}

/// The words that open the error message of a failed node statement.
pub open spec fn node_failure(n: CodeGraphNode) -> Seq<char> {
    "Failed to create node "@ + n.id@
}

/// The words that open the error message of a failed edge statement.
pub open spec fn edge_failure(e: CodeGraphEdge) -> Seq<char> {
    "Failed to create relationship "@ + e.from@ + " -> "@ + e.to@
}

/// The statement that links the two endpoints of an edge by its type.
pub open spec fn edge_query(e: CodeGraphEdge) -> Seq<char> {
    "MATCH (a {id: $from}), (b {id: $to}) CREATE (a)-[:"@ + e.edge_type@ + "]->(b)"@
}

pub open spec fn clear_query() -> Seq<char> {
    "MATCH (n) DETACH DELETE n"@
}

/// `s` is the statement that creates node `n`.
pub open spec fn node_statement_is(s: Statement, n: CodeGraphNode) -> bool {
    &&& s.query@ == node_query(n)
    &&& params_view(s.params@) == node_params(n)
    &&& s.failure_prefix@ == node_failure(n)
}

/// `s` is the statement that creates edge `e`.
pub open spec fn edge_statement_is(s: Statement, e: CodeGraphEdge) -> bool {
    &&& s.query@ == edge_query(e)
    &&& params_view(s.params@) == edge_params(e)
    &&& s.failure_prefix@ == edge_failure(e)
}

fn push_param(params: &mut Vec<(String, ParamValue)>, name: &str, value: ParamValue)
    ensures
        params_view(final(params)@) == params_view(old(params)@).push((name@, param_view(value))),
{
    let ghost before = params@;
    params.push((String::from_str(name), value));
    proof {
        assert(params_view(params@) =~= params_view(before).push((name@, param_view(value))));
    }
}

fn push_text(v: &mut Vec<String>, s: &str)
    ensures
        texts(final(v)@) == texts(old(v)@).push(s@),
{
    let ghost before = v@;
    v.push(String::from_str(s));
    proof {
        assert(texts(v@) =~= texts(before).push(s@));
    }
}

fn push_text_if(v: &mut Vec<String>, present: bool, s: &str)
    ensures
        texts(final(v)@) == texts(old(v)@) + if present {
            seq![s@]
        } else {
            Seq::empty()
        },
{
    if present {
        push_text(v, s);
    }
    assert(texts(v@) =~= texts(old(v)@) + if present {
        seq![s@]
    } else {
        Seq::<Seq<char>>::empty()
    });
}

fn push_opt_text(params: &mut Vec<(String, ParamValue)>, name: &str, value: &Option<String>)
    ensures
        params_view(final(params)@) == params_view(old(params)@) + match *value {
            Some(s) => seq![(name@, ParamView::Text(s@))],
            None => Seq::empty(),
        },
{
    match value {
        Some(s) => push_param(params, name, ParamValue::Text(s.clone())),
        None => {},
    }
    assert(params_view(params@) =~= params_view(old(params)@) + match *value {
        Some(s) => seq![(name@, ParamView::Text(s@))],
        None => Seq::<(Seq<char>, ParamView)>::empty(),
    });
}

fn push_opt_int(params: &mut Vec<(String, ParamValue)>, name: &str, value: Option<usize>)
    ensures
        params_view(final(params)@) == params_view(old(params)@) + match value {
            Some(v) => seq![(name@, ParamView::Int(v as nat))],
            None => Seq::empty(),
        },
{
    match value {
        Some(v) => push_param(params, name, ParamValue::Int(v)),
        None => {},
    }
    assert(params_view(params@) =~= params_view(old(params)@) + match value {
        Some(v) => seq![(name@, ParamView::Int(v as nat))],
        None => Seq::<(Seq<char>, ParamView)>::empty(),
    });
}

impl CodeGraphNode {
    /// The property list of this node's CREATE statement.
    fn property_list(&self) -> (r: Vec<String>)
        ensures
            texts(r@) == node_properties(*self),
    {
        let mut props: Vec<String> = Vec::new();
        push_text(&mut props, "id: $id");
        push_text(&mut props, "name: $name");
        push_text(&mut props, "path: $path");
        assert(texts(props@) =~= seq!["id: $id"@, "name: $name"@, "path: $path"@]);
        push_text_if(&mut props, self.language.is_some(), "language: $language");
        push_text_if(&mut props, self.lines.is_some(), "lines: $lines");
        push_text_if(&mut props, self.start_line.is_some(), "startLine: $startLine");
        push_text_if(&mut props, self.end_line.is_some(), "endLine: $endLine");
        push_text_if(&mut props, self.line.is_some(), "line: $line");
        push_text_if(&mut props, self.source.is_some(), "source: $source");
        props
    }

    /// The parameters of this node's CREATE statement.
    fn param_list(&self) -> (r: Vec<(String, ParamValue)>)
        ensures
            params_view(r@) == node_params(*self),
    {
        let mut params: Vec<(String, ParamValue)> = Vec::new();
        push_param(&mut params, "id", ParamValue::Text(self.id.clone()));
        let name = match &self.name {
            Some(n) => n.clone(),
            None => String::from_str("unknown"),
        };
        push_param(&mut params, "name", ParamValue::Text(name));
        let path = match &self.path {
            Some(p) => p.clone(),
            None => String::new(),
        };
        push_param(&mut params, "path", ParamValue::Text(path));
        assert(params_view(params@) =~= seq![
            ("id"@, ParamView::Text(self.id@)),
            ("name"@, ParamView::Text(
                match self.name {
                    Some(s) => s@,
                    None => "unknown"@,
                },
            )),
            ("path"@, ParamView::Text(
                match self.path {
                    Some(s) => s@,
                    None => Seq::empty(),
                },
            )),
        ]);
        push_opt_text(&mut params, "language", &self.language);
        push_opt_int(&mut params, "lines", self.lines);
        push_opt_int(&mut params, "startLine", self.start_line);
        push_opt_int(&mut params, "endLine", self.end_line);
        push_opt_int(&mut params, "line", self.line);
        push_opt_text(&mut params, "source", &self.source);
        params
    }

    /// The statement that creates this node with its attributes.
    pub fn create_statement(&self) -> (r: Statement)
        ensures
            r.query@ == node_query(*self),
            params_view(r.params@) == node_params(*self),
            r.failure_prefix@ == node_failure(*self),
    {
        let props = self.property_list();
        let mut query = String::from_str("CREATE (n:");
        let label = uppercase(self.node_type.as_str());
        query.append(label.as_str());
        query.append(" {");
        let list = join_texts(&props, ", ");
        query.append(list.as_str());
        query.append("})");
        let params = self.param_list();
        let mut failure_prefix = String::from_str("Failed to create node ");
        failure_prefix.append(self.id.as_str());
        Statement { query, params, failure_prefix }
    }
}

impl CodeGraphEdge {
    /// The statement that links this edge's endpoints.
    pub fn create_statement(&self) -> (r: Statement)
        ensures
            r.query@ == edge_query(*self),
            params_view(r.params@) == edge_params(*self),
            r.failure_prefix@ == edge_failure(*self),
    {
        let mut query = String::from_str("MATCH (a {id: $from}), (b {id: $to}) CREATE (a)-[:");
        query.append(self.edge_type.as_str());
        query.append("]->(b)");
        let mut params: Vec<(String, ParamValue)> = Vec::new();
        push_param(&mut params, "from", ParamValue::Text(self.from.clone()));
        push_param(&mut params, "to", ParamValue::Text(self.to.clone()));
        assert(params_view(params@) =~= seq![
            ("from"@, ParamView::Text(self.from@)),
            ("to"@, ParamView::Text(self.to@)),
        ]);
        let mut failure_prefix = String::from_str("Failed to create relationship ");
        failure_prefix.append(self.from.as_str());
        failure_prefix.append(" -> ");
        failure_prefix.append(self.to.as_str());
        Statement { query, params, failure_prefix }
    }
}

/// The statement that wipes the store.
pub fn clear_statement() -> (r: Statement)
    ensures
        r.query@ == clear_query(),
        r.params@.len() == 0,
        r.failure_prefix@ == "Failed to clear database"@,
{
    Statement {
        query: String::from_str("MATCH (n) DETACH DELETE n"),
        params: Vec::new(),
        failure_prefix: String::from_str("Failed to clear database"),
    }
}

impl CodeGraph {
    /// The statements that store the graph, to be run in order: the wipe,
    /// then one per node, then one per edge. The store is not transactional:
    /// a failure part way leaves what ran before it.
    pub fn store_statements(&self) -> (r: Vec<Statement>)
        ensures
            r@.len() == 1 + self.nodes@.len() + self.edges@.len(),
            r@[0].query@ == clear_query(),
            r@[0].params@.len() == 0,
            r@[0].failure_prefix@ == "Failed to clear database"@,
            forall|i: int| 0 <= i < self.nodes@.len() ==> node_statement_is(#[trigger] r@[1 + i], self.nodes@[i]),
            forall|i: int|
                0 <= i < self.edges@.len() ==> edge_statement_is(
                    #[trigger] r@[1 + self.nodes@.len() + i],
                    self.edges@[i],
                ),
    {
        let mut out: Vec<Statement> = Vec::new();
        out.push(clear_statement());
        let mut i: usize = 0;
        while i < self.nodes.len()
            invariant
                0 <= i <= self.nodes@.len(),
                out@.len() == 1 + i,
                out@[0].query@ == clear_query(),
                out@[0].params@.len() == 0,
                out@[0].failure_prefix@ == "Failed to clear database"@,
                forall|k: int| 0 <= k < i ==> node_statement_is(#[trigger] out@[1 + k], self.nodes@[k]),
            decreases self.nodes@.len() - i,
        {
            out.push(self.nodes[i].create_statement());
            i += 1;
        }
        let mut j: usize = 0;
        while j < self.edges.len()
            invariant
                0 <= j <= self.edges@.len(),
                out@.len() == 1 + self.nodes@.len() + j,
                out@[0].query@ == clear_query(),
                out@[0].params@.len() == 0,
                out@[0].failure_prefix@ == "Failed to clear database"@,
                forall|k: int|
                    0 <= k < self.nodes@.len() ==> node_statement_is(#[trigger] out@[1 + k], self.nodes@[k]),
                forall|k: int|
                    0 <= k < j ==> edge_statement_is(
                        #[trigger] out@[1 + self.nodes@.len() + k],
                        self.edges@[k],
                    ),
            decreases self.edges@.len() - j,
        {
            out.push(self.edges[j].create_statement());
            j += 1;
        }
        out
    }

    /// The message reporting a completed store.
    pub fn store_summary(&self) -> (r: String)
        ensures
            r@ == "Successfully stored "@ + decimal(self.nodes@.len()) + " nodes and "@ + decimal(
                self.edges@.len(),
            ) + " edges in Neo4j"@,
    {
        let mut s = String::from_str("Successfully stored ");
        let n = decimal_text(self.nodes.len() as u128);
        s.append(n.as_str());
        s.append(" nodes and ");
        let e = decimal_text(self.edges.len() as u128);
        s.append(e.as_str());
        s.append(" edges in Neo4j");
        s
    }
}

/// The summary line of a query result with `rows` rows.
pub fn query_summary(rows: usize) -> (r: String)
    ensures
        r@ == "Query returned "@ + decimal(rows as nat) + " rows"@,
{
    let mut s = String::from_str("Query returned ");
    let n = decimal_text(rows as u128);
    s.append(n.as_str());
    s.append(" rows");
    s
}

} // verus!
