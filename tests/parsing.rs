use codegraph::engine::{route, small_leaf_text, ParseRoute, ParserState};
use codegraph::parsed::{count_lines, ParseMetadata, ParsedFile};
use codegraph::registry::LanguageRegistry;
use codegraph::syntax::{ASTNode, SyntaxNode, SyntaxTree, MAX_AST_DEPTH};

fn node(kind: &str, depth: usize, text: Option<&str>) -> SyntaxNode {
    SyntaxNode {
        kind: kind.to_string(),
        text: text.map(|t| t.to_string()),
        start_line: 0,
        start_col: 0,
        end_line: 0,
        end_col: 1,
        start_byte: 0,
        end_byte: 1,
        is_named: true,
        depth,
    }
}

fn max_ast_depth(a: &ASTNode, d: usize) -> usize {
    a.children.iter().map(|c| max_ast_depth(c, d + 1)).max().unwrap_or(d)
}

fn children_empty_at(a: &ASTNode, d: usize, bound: usize) -> bool {
    if d == bound {
        a.children.is_empty()
    } else {
        a.children.iter().all(|c| children_empty_at(c, d + 1, bound))
    }
}

fn leaves(a: &ASTNode, out: &mut Vec<String>) {
    if a.children.is_empty() {
        if let Some(t) = &a.text {
            out.push(t.clone());
        }
    } else {
        assert!(a.text.is_none());
        for c in &a.children {
            leaves(c, out);
        }
    }
}

#[test]
fn registered_extensions_resolve() {
    let reg = LanguageRegistry::new();
    let table = [
        ("js", "javascript"),
        ("jsx", "javascript"),
        ("mjs", "javascript"),
        ("cjs", "javascript"),
        ("ts", "typescript"),
        ("tsx", "tsx"),
        ("py", "python"),
        ("pyw", "python"),
        ("rs", "rust"),
        ("java", "java"),
        ("go", "go"),
        ("c", "c"),
        ("h", "c"),
        ("cpp", "cpp"),
        ("cc", "cpp"),
        ("cxx", "cpp"),
        ("hpp", "cpp"),
        ("hxx", "cpp"),
    ];
    for (ext, lang) in table {
        assert_eq!(reg.language_for_extension(ext), Some(lang.to_string()));
    }
}

#[test]
fn unregistered_extensions_resolve_to_none() {
    let reg = LanguageRegistry::new();
    assert_eq!(reg.language_for_extension("xyz"), None);
    assert_eq!(reg.language_for_extension("PY"), None);
    assert_eq!(reg.language_for_extension(""), None);
}

#[test]
fn detect_language_by_path() {
    let state = ParserState::new();
    assert_eq!(state.detect_language("src/main.rs"), Some("rust".to_string()));
    assert_eq!(state.detect_language("a/b/c.tsx"), Some("tsx".to_string()));
    assert_eq!(state.detect_language("README"), None);
    assert_eq!(state.detect_language("a.PY"), None);
    assert_eq!(state.detect_language("a.py.bak"), None);
    assert_eq!(state.detect_language("dir.v2/Makefile"), None);
    assert_eq!(state.detect_language("Makefile"), None);
    assert_eq!(state.detect_language("src/x.h"), Some("c".to_string()));
    assert_eq!(state.detect_language("notes.xyz"), None);
}

#[test]
fn line_counting_boundaries() {
    assert_eq!(count_lines(""), 0);
    assert_eq!(count_lines("a\n"), 1);
    assert_eq!(count_lines("a\nb"), 2);
    assert_eq!(count_lines("\n"), 1);
    assert_eq!(count_lines("a\n\nb\n"), 3);
}

#[test]
fn python_scenario() {
    let mut state = ParserState::new();
    let r = state.parse_file("a.py", "def f():\n    pass\n");
    assert!(r.success);
    assert_eq!(r.language, "python");
    assert_eq!(r.metadata.lines, 2);
    assert!(!r.metadata.has_syntax_errors);
    assert_eq!(r.metadata.bytes, 18);
    assert!(r.error.is_none());
    let ast = r.ast.expect("tree");
    assert_eq!(ast.node_type, "module");
    assert!(r.metadata.node_count >= 1);
}

#[test]
fn unsupported_scenario() {
    let mut state = ParserState::new();
    let r = state.parse_file("a.xyz", "whatever");
    assert!(!r.success);
    assert_eq!(r.error.as_deref(), Some("Unsupported file extension"));
    assert!(r.ast.is_none());
    assert_eq!(r.language, "unknown");
    assert_eq!(r.metadata, ParseMetadata::empty());
}

#[test]
fn valid_content_parses_in_each_language() {
    let mut state = ParserState::new();
    let samples = [
        ("a.js", "function f() { return 1; }\n"),
        ("a.ts", "let x: number = 1;\n"),
        ("a.tsx", "const a = <div/>;\n"),
        ("a.py", "x = 1\n"),
        ("a.rs", "fn main() {}\n"),
        ("A.java", "class A {}\n"),
        ("a.go", "package main\n"),
        ("a.c", "int main(void) { return 0; }\n"),
        ("a.cpp", "int main() { return 0; }\n"),
    ];
    for (path, content) in samples {
        let r = state.parse_file(path, content);
        assert!(r.success, "{}", path);
        assert!(r.ast.is_some());
        assert!(r.metadata.node_count >= 1);
        assert!(!r.metadata.has_syntax_errors, "{}", path);
    }
}

#[test]
fn syntax_errors_are_reported() {
    let mut state = ParserState::new();
    let r = state.parse_file("a.py", "def (:\n");
    assert!(r.success);
    assert!(r.metadata.has_syntax_errors);
}

#[test]
fn small_leaves_carry_text() {
    let mut state = ParserState::new();
    let r = state.parse_file("a.py", "x = 1\n");
    let ast = r.ast.unwrap();
    let mut out = Vec::new();
    leaves(&ast, &mut out);
    assert_eq!(out, vec!["x".to_string(), "=".to_string(), "1".to_string()]);
}

#[test]
fn deep_nesting_is_truncated_but_measured() {
    let mut state = ParserState::new();
    let content = format!("x = {}1{}\n", "[".repeat(20), "]".repeat(20));
    let r = state.parse_file("deep.py", &content);
    assert!(r.success);
    assert!(r.metadata.tree_depth > MAX_AST_DEPTH);
    let ast = r.ast.unwrap();
    assert_eq!(max_ast_depth(&ast, 0), MAX_AST_DEPTH);
    assert!(children_empty_at(&ast, 0, MAX_AST_DEPTH));
}

#[test]
fn parse_many_keeps_order_and_isolates_failures() {
    let mut state = ParserState::new();
    let files = vec![
        ("one.py".to_string(), "x = 1\n".to_string()),
        ("two.xyz".to_string(), "whatever".to_string()),
        ("three.rs".to_string(), "fn f() {}\n".to_string()),
    ];
    let r = state.parse_many(&files);
    assert_eq!(r.len(), 3);
    assert_eq!(r[0].path, "one.py");
    assert_eq!(r[1].path, "two.xyz");
    assert_eq!(r[2].path, "three.rs");
    assert!(r[0].success);
    assert!(!r[1].success);
    assert!(r[2].success);
}

#[test]
fn from_tree_truncates_a_chain() {
    let mut nodes = Vec::new();
    for d in 0..15 {
        nodes.push(node("n", d, if d == 14 { Some("z") } else { None }));
    }
    let tree = SyntaxTree { nodes };
    let r = ParsedFile::from_tree("f.py", "python", "z", &tree, false);
    assert!(r.success);
    assert_eq!(r.metadata.node_count, 15);
    assert_eq!(r.metadata.tree_depth, 14);
    assert_eq!(r.metadata.lines, 1);
    assert_eq!(r.metadata.bytes, 1);
    let ast = r.ast.unwrap();
    assert_eq!(max_ast_depth(&ast, 0), MAX_AST_DEPTH);
    assert!(children_empty_at(&ast, 0, MAX_AST_DEPTH));
}

#[test]
fn to_ast_rebuilds_siblings_in_order() {
    let tree = SyntaxTree {
        nodes: vec![
            node("root", 0, None),
            node("a", 1, None),
            node("a1", 2, Some("p")),
            node("a2", 2, Some("q")),
            node("b", 1, Some("r")),
        ],
    };
    assert_eq!(tree.node_count(), 5);
    assert_eq!(tree.tree_depth(), 2);
    let ast = tree.to_ast(10);
    assert_eq!(ast.node_type, "root");
    assert_eq!(ast.children.len(), 2);
    assert_eq!(ast.children[0].node_type, "a");
    assert_eq!(ast.children[0].children.len(), 2);
    assert_eq!(ast.children[0].children[1].text.as_deref(), Some("q"));
    assert_eq!(ast.children[1].node_type, "b");
    let cut = tree.to_ast(1);
    assert_eq!(cut.children.len(), 2);
    assert!(cut.children[0].children.is_empty());
}

#[test]
fn failure_results() {
    let r = ParsedFile::parser_unavailable("a.go", "go");
    assert_eq!(r.error.as_deref(), Some("Parser not available for go"));
    assert_eq!(r.language, "go");
    assert!(!r.success && r.ast.is_none());
    let r = ParsedFile::parse_failed("a.go", "go");
    assert_eq!(r.error.as_deref(), Some("Parse failed"));
    let e = ParseMetadata::empty();
    assert_eq!((e.lines, e.bytes, e.node_count, e.tree_depth, e.has_syntax_errors), (0, 0, 0, 0, false));
}

#[test]
fn small_leaf_text_rules() {
    let src = "héllo world".as_bytes();
    assert_eq!(small_leaf_text(src, 0, 6), Some("héllo".to_string()));
    assert_eq!(small_leaf_text(src, 0, 2), None);
    assert_eq!(small_leaf_text(src, 3, 2), None);
    assert_eq!(small_leaf_text(src, 0, 100), None);
    let long = "a".repeat(200);
    assert_eq!(small_leaf_text(long.as_bytes(), 0, 99), Some("a".repeat(99)));
    assert_eq!(small_leaf_text(long.as_bytes(), 0, 100), None);
}

#[test]
fn supported_languages_group_extensions() {
    let state = ParserState::new();
    let groups = state.supported_languages();
    let names: Vec<&str> = groups.iter().map(|g| g.0.as_str()).collect();
    assert_eq!(names, vec!["javascript", "typescript", "tsx", "python", "rust", "java", "go", "c", "cpp"]);
    assert_eq!(groups[0].1, vec!["js", "jsx", "mjs", "cjs"]);
    assert_eq!(groups[8].1, vec!["cpp", "cc", "cxx", "hpp", "hxx"]);
}

#[test]
fn language_parsers_work_apart() {
    let (registry, parsers) = ParserState::new().into_parts();
    assert_eq!(parsers.len(), 9);
    assert_eq!(registry.detect_language("x.go"), Some("go".to_string()));
    let mut go = parsers.into_iter().find(|p| p.language() == "go").unwrap();
    let r = go.parse("x.go", "package main\n");
    assert!(r.success);
    assert_eq!(r.language, "go");
    assert_eq!(r.metadata.lines, 1);
}

#[test]
fn route_decides_before_parsing() {
    let registry = LanguageRegistry::new();
    let loaded = vec!["python".to_string(), "rust".to_string()];
    match route(&registry, &loaded, "a.rs") {
        ParseRoute::Parse(i) => assert_eq!(i, 1),
        ParseRoute::Done(_) => panic!("expected a parser"),
    }
    match route(&registry, &loaded, "a.go") {
        ParseRoute::Done(r) => {
            assert_eq!(r.error.as_deref(), Some("Parser not available for go"));
            assert_eq!(r.language, "go");
        }
        ParseRoute::Parse(_) => panic!("go is not loaded"),
    }
    match route(&registry, &loaded, "Makefile") {
        ParseRoute::Done(r) => {
            assert_eq!(r.error.as_deref(), Some("Unsupported file extension"));
            assert_eq!(r.language, "unknown");
        }
        ParseRoute::Parse(_) => panic!("no extension"),
    }
}

#[test]
fn empty_and_unterminated_content_line_counts() {
    let mut state = ParserState::new();
    assert_eq!(state.parse_file("a.py", "").metadata.lines, 0);
    assert_eq!(state.parse_file("a.py", "a\n").metadata.lines, 1);
    let r = state.parse_file("a.py", "a\nb");
    assert!(r.success);
    assert_eq!((r.metadata.lines, r.metadata.bytes), (2, 3));
}
