use codegraph::order::{sort_tally, tag_precedes};
use codegraph::graph::{CodeGraph, CodeGraphEdge, CodeGraphNode, ExtraValue};
use codegraph::store::{clear_statement, query_summary, ParamValue};
use codegraph::text::decimal_text;

fn gnode(id: &str, ty: &str) -> CodeGraphNode {
    CodeGraphNode {
        id: id.to_string(),
        node_type: ty.to_string(),
        name: None,
        path: None,
        language: None,
        lines: None,
        start_line: None,
        end_line: None,
        line: None,
        source: None,
        extra: Vec::new(),
    }
}

fn gedge(from: &str, to: &str, ty: &str) -> CodeGraphEdge {
    CodeGraphEdge {
        from: from.to_string(),
        to: to.to_string(),
        edge_type: ty.to_string(),
        unresolved: None,
        edge_type_secondary: None,
        extra: Vec::new(),
    }
}

fn graph(nodes: Vec<CodeGraphNode>, edges: Vec<CodeGraphEdge>) -> CodeGraph {
    CodeGraph { nodes, edges, files: None }
}

#[test]
fn empty_graph_average_is_zero() {
    let g = graph(vec![], vec![]);
    let ctx = g.generate_context();
    let stats = ctx.graph_statistics;
    assert_eq!(stats.total_nodes, 0);
    assert_eq!(stats.total_edges, 0);
    let (n, d) = stats.avg_connections_per_node();
    assert_eq!(n as f64 / d as f64, 0.0);
    assert_eq!(stats.avg_connections_text(), "0.00");
    assert!(ctx.nodes_by_type.is_empty());
    assert!(ctx.edges_by_type.is_empty());
}

#[test]
fn two_nodes_one_edge_average_is_one() {
    let g = graph(vec![gnode("a", "file"), gnode("b", "function")], vec![gedge("a", "b", "CONTAINS")]);
    let stats = g.generate_context().graph_statistics;
    let (n, d) = stats.avg_connections_per_node();
    assert_eq!(n as f64 / d as f64, 1.0);
    assert_eq!(stats.avg_connections_text(), "1.00");
    assert_eq!(stats.max_depth, 10);
    assert_eq!(stats.connected_components, 1);
}

#[test]
fn average_rounds_to_two_decimals() {
    let g = graph(vec![gnode("a", "x"), gnode("b", "x"), gnode("c", "x")], vec![gedge("a", "b", "E")]);
    assert_eq!(g.statistics().avg_connections_text(), "0.67");
    let g = graph(vec![gnode("a", "x")], vec![gedge("a", "a", "E"), gedge("a", "a", "E"), gedge("a", "a", "E")]);
    assert_eq!(g.statistics().avg_connections_text(), "6.00");
    let nodes: Vec<CodeGraphNode> = (0..16).map(|i| gnode(&i.to_string(), "x")).collect();
    let g = graph(nodes, vec![gedge("0", "1", "E")]);
    assert_eq!(g.statistics().avg_connections_text(), "0.12");
}

#[test]
fn tally_counts_each_type_once() {
    let g = graph(
        vec![gnode("1", "file"), gnode("2", "function"), gnode("3", "file"), gnode("4", "class")],
        vec![gedge("1", "2", "CONTAINS"), gedge("1", "4", "CONTAINS"), gedge("2", "2", "CALLS")],
    );
    assert_eq!(
        g.nodes_by_type(),
        vec![("file".to_string(), 2), ("function".to_string(), 1), ("class".to_string(), 1)]
    );
    assert_eq!(g.edges_by_type(), vec![("CONTAINS".to_string(), 2), ("CALLS".to_string(), 1)]);
}

#[test]
fn tally_does_not_depend_on_order() {
    let a = graph(vec![gnode("1", "x"), gnode("2", "y"), gnode("3", "x")], vec![]);
    let b = graph(vec![gnode("3", "y"), gnode("2", "x"), gnode("1", "x")], vec![]);
    let mut ta = a.nodes_by_type();
    let mut tb = b.nodes_by_type();
    ta.sort();
    tb.sort();
    assert_eq!(ta, tb);
}

#[test]
fn summary_text_is_exact() {
    let g = graph(vec![gnode("1", "file"), gnode("2", "file")], vec![gedge("1", "2", "IMPORTS_FROM")]);
    let ctx = g.generate_context();
    assert_eq!(
        ctx.summary,
        "# Code Graph Summary\n\n## Nodes\n- file: 2 nodes\n\n## Relationships\n- IMPORTS_FROM: 1 edges\n\n## Total Statistics\n- Total Nodes: 2\n- Total Edges: 1\n"
    );
}

#[test]
fn schema_uses_observed_types_and_fixed_properties() {
    let g = graph(vec![gnode("1", "file"), gnode("2", "function")], vec![gedge("1", "2", "CONTAINS")]);
    let ctx = g.generate_context();
    assert_eq!(
        ctx.cypher_schema,
        "# Neo4j Graph Schema\n\n## Node Labels\n- :FILE (id: String, name: String, path: String, language: String, lines: Integer)\n- :FUNCTION (id: String, name: String, path: String, language: String, lines: Integer)\n\n## Relationship Types\n- :CONTAINS\n"
    );
}

#[test]
fn sample_queries_are_fixed() {
    let empty = graph(vec![], vec![]);
    let full = graph(vec![gnode("1", "weird")], vec![]);
    let a = empty.generate_sample_queries();
    assert_eq!(a.len(), 8);
    assert_eq!(a, full.generate_sample_queries());
    assert_eq!(a[0], "// Find all files\nMATCH (f:FILE) RETURN f.path, f.language LIMIT 10");
}

#[test]
fn query_context_gathers_everything() {
    let g = graph(vec![gnode("1", "file"), gnode("2", "function")], vec![gedge("1", "2", "CONTAINS")]);
    let text = g.to_graph_query_context();
    assert!(text.starts_with("# Neo4j Knowledge Graph Context\n\n## Graph Overview\n# Code Graph Summary\n"));
    assert!(text.contains("## Available Node Types\n- :FILE (1 nodes)\n- :FUNCTION (1 nodes)\n\n"));
    assert!(text.contains("## Available Relationship Types\n- :CONTAINS (1 relationships)\n\n"));
    assert!(text.contains("```cypher\n// Find all files\nMATCH (f:FILE) RETURN f.path, f.language LIMIT 10\n```\n\n```cypher\n"));
    assert!(text.contains("- Total Nodes: 2\n- Total Edges: 1\n- Average Connections per Node: 1.00\n"));
    assert!(text.contains("5. Available node types: FILE, FUNCTION\n6. Available relationship types: CONTAINS\n"));
    assert!(text.ends_with("clicking the \"Execute\" button\n"));
}

#[test]
fn decimal_numerals() {
    assert_eq!(decimal_text(0), "0");
    assert_eq!(decimal_text(7), "7");
    assert_eq!(decimal_text(10), "10");
    assert_eq!(decimal_text(1234567890), "1234567890");
}

#[test]
fn node_statement_lists_present_attributes() {
    let mut n = gnode("f1", "function");
    n.name = Some("main".to_string());
    n.lines = Some(12);
    n.source = Some("fn main() {}".to_string());
    n.extra.push(("k".to_string(), ExtraValue::Bool(true)));
    let s = n.create_statement();
    assert_eq!(s.query, "CREATE (n:FUNCTION {id: $id, name: $name, path: $path, lines: $lines, source: $source})");
    assert_eq!(
        s.params,
        vec![
            ("id".to_string(), ParamValue::Text("f1".to_string())),
            ("name".to_string(), ParamValue::Text("main".to_string())),
            ("path".to_string(), ParamValue::Text(String::new())),
            ("lines".to_string(), ParamValue::Int(12)),
            ("source".to_string(), ParamValue::Text("fn main() {}".to_string())),
        ]
    );
    assert_eq!(s.failure_prefix, "Failed to create node f1");
}

#[test]
fn node_statement_defaults_name() {
    let s = gnode("x", "file").create_statement();
    assert_eq!(s.query, "CREATE (n:FILE {id: $id, name: $name, path: $path})");
    assert_eq!(s.params[1], ("name".to_string(), ParamValue::Text("unknown".to_string())));
}

#[test]
fn edge_statement_and_store_order() {
    let e = gedge("a", "b", "CALLS");
    let s = e.create_statement();
    assert_eq!(s.query, "MATCH (a {id: $from}), (b {id: $to}) CREATE (a)-[:CALLS]->(b)");
    assert_eq!(s.failure_prefix, "Failed to create relationship a -> b");
    let g = graph(vec![gnode("a", "file"), gnode("b", "file")], vec![e]);
    let plan = g.store_statements();
    assert_eq!(plan.len(), 4);
    assert_eq!(plan[0].query, clear_statement().query);
    assert_eq!(plan[0].query, "MATCH (n) DETACH DELETE n");
    assert!(plan[1].query.starts_with("CREATE (n:FILE"));
    assert!(plan[3].query.ends_with("[:CALLS]->(b)"));
    assert_eq!(g.store_summary(), "Successfully stored 2 nodes and 1 edges in Neo4j");
    assert_eq!(query_summary(100), "Query returned 100 rows");
}

#[test]
fn reports_list_types_by_tag() {
    let g = graph(vec![gnode("1", "function"), gnode("2", "class"), gnode("3", "file")], vec![gedge("1", "2", "USES"), gedge("1", "3", "CALLS")]);
    let ctx = g.generate_context();
    assert_eq!(
        ctx.summary,
        "# Code Graph Summary\n\n## Nodes\n- class: 1 nodes\n- file: 1 nodes\n- function: 1 nodes\n\n## Relationships\n- CALLS: 1 edges\n- USES: 1 edges\n\n## Total Statistics\n- Total Nodes: 3\n- Total Edges: 2\n"
    );
    assert!(ctx.cypher_schema.contains("- :CLASS (id"));
    assert!(ctx.cypher_schema.find(":CLASS").unwrap() < ctx.cypher_schema.find(":FUNCTION").unwrap());
    let text = g.to_graph_query_context();
    assert!(text.contains("5. Available node types: CLASS, FILE, FUNCTION\n6. Available relationship types: CALLS, USES\n"));
}

#[test]
fn summary_ignores_tally_order() {
    let g = graph(vec![], vec![]);
    let a = vec![("a".to_string(), 1), ("b".to_string(), 2)];
    let b = vec![("b".to_string(), 2), ("a".to_string(), 1)];
    let e: Vec<(String, usize)> = vec![];
    assert_eq!(g.generate_summary(&a, &e), g.generate_summary(&b, &e));
    assert_eq!(g.generate_cypher_schema(&a, &e), g.generate_cypher_schema(&b, &e));
}

#[test]
fn tag_order() {
    assert!(tag_precedes("a", "b"));
    assert!(tag_precedes("ab", "abc"));
    assert!(!tag_precedes("abc", "ab"));
    assert!(!tag_precedes("x", "x"));
    assert!(tag_precedes("Z", "a"));
    let t = vec![("m".to_string(), 1), ("b".to_string(), 2), ("z".to_string(), 3)];
    assert_eq!(sort_tally(&t), vec![("b".to_string(), 2), ("m".to_string(), 1), ("z".to_string(), 3)]);
}
