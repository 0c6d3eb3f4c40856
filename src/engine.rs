//! The parse engine: one tree-sitter parser per language, dispatched by the
//! registry, and the walk that captures a parsed tree as a `SyntaxTree`.
use vstd::prelude::*;
use vstd::string::*;
use vstd::slice::slice_subrange;
use vstd::utf8::*;
use crate::registry::{LanguageRegistry, extension_table, grouped, groups_view, language_of, language_of_path, plain_part};
use crate::syntax::{SyntaxNode, SyntaxTree, MAX_AST_DEPTH, TEXT_LIMIT, preorder_wf, is_leaf_at, bounded, max_depth, mirrors, preorder, within_depth};
use crate::parsed::{ParsedFile, line_count, unsupported_message, unknown_language, unavailable_message};
use crate::text::{opt_text, text_eq, texts};

verus! {

#[verifier::external_type_specification]
#[verifier::external_body]
pub struct ExParser(tree_sitter::Parser);

#[verifier::external_type_specification]
#[verifier::external_body]
pub struct ExTree(tree_sitter::Tree);

#[verifier::external_type_specification]
#[verifier::external_body]
pub struct ExNode<'a>(tree_sitter::Node<'a>);

#[verifier::external_type_specification]
#[verifier::external_body]
pub struct ExTreeCursor<'a>(tree_sitter::TreeCursor<'a>);

/// Relies on tree_sitter::Parser::new: a parser with no language yet.
#[verifier::external_body]
fn new_parser() -> tree_sitter::Parser {
    tree_sitter::Parser::new()
}

/// Whether the bundled grammar of `grammar` binds to a parser: tree-sitter
/// accepts a grammar whose ABI version lies in the range it supports, which
/// depends on the grammar alone.
pub uninterp spec fn grammar_binds(grammar: Seq<char>) -> bool;

/// Relies on tree_sitter_javascript::language and tree_sitter::Parser::set_language: the grammar
/// binds exactly when its ABI version is one the library accepts.
#[verifier::external_body]
fn bind_javascript(parser: &mut tree_sitter::Parser) -> (r: bool)
    ensures
        r == grammar_binds("javascript"@),
{
    parser.set_language(tree_sitter_javascript::language()).is_ok()
}

/// Relies on tree_sitter_typescript::language_typescript and tree_sitter::Parser::set_language: the grammar
/// binds exactly when its ABI version is one the library accepts.
#[verifier::external_body]
fn bind_typescript(parser: &mut tree_sitter::Parser) -> (r: bool)
    ensures
        r == grammar_binds("typescript"@),
{
    parser.set_language(tree_sitter_typescript::language_typescript()).is_ok()
}

/// Relies on tree_sitter_typescript::language_tsx and tree_sitter::Parser::set_language: the grammar
/// binds exactly when its ABI version is one the library accepts.
#[verifier::external_body]
fn bind_tsx(parser: &mut tree_sitter::Parser) -> (r: bool)
    ensures
        r == grammar_binds("tsx"@),
{
    parser.set_language(tree_sitter_typescript::language_tsx()).is_ok()
}

/// Relies on tree_sitter_python::language and tree_sitter::Parser::set_language: the grammar
/// binds exactly when its ABI version is one the library accepts.
#[verifier::external_body]
fn bind_python(parser: &mut tree_sitter::Parser) -> (r: bool)
    ensures
        r == grammar_binds("python"@),
{
    parser.set_language(tree_sitter_python::language()).is_ok()
}

/// Relies on tree_sitter_rust::language and tree_sitter::Parser::set_language: the grammar
/// binds exactly when its ABI version is one the library accepts.
#[verifier::external_body]
fn bind_rust(parser: &mut tree_sitter::Parser) -> (r: bool)
    ensures
        r == grammar_binds("rust"@),
{
    parser.set_language(tree_sitter_rust::language()).is_ok()
}

/// Relies on tree_sitter_java::language and tree_sitter::Parser::set_language: the grammar
/// binds exactly when its ABI version is one the library accepts.
#[verifier::external_body]
fn bind_java(parser: &mut tree_sitter::Parser) -> (r: bool)
    ensures
        r == grammar_binds("java"@),
{
    parser.set_language(tree_sitter_java::language()).is_ok()
}

/// Relies on tree_sitter_go::language and tree_sitter::Parser::set_language: the grammar
/// binds exactly when its ABI version is one the library accepts.
#[verifier::external_body]
fn bind_go(parser: &mut tree_sitter::Parser) -> (r: bool)
    ensures
        r == grammar_binds("go"@),
{
    parser.set_language(tree_sitter_go::language()).is_ok()
}

/// Relies on tree_sitter_c::language and tree_sitter::Parser::set_language: the grammar
/// binds exactly when its ABI version is one the library accepts.
#[verifier::external_body]
fn bind_c(parser: &mut tree_sitter::Parser) -> (r: bool)
    ensures
        r == grammar_binds("c"@),
{
    parser.set_language(tree_sitter_c::language()).is_ok()
}

/// Relies on tree_sitter_cpp::language and tree_sitter::Parser::set_language: the grammar
/// binds exactly when its ABI version is one the library accepts.
#[verifier::external_body]
fn bind_cpp(parser: &mut tree_sitter::Parser) -> (r: bool)
    ensures
        r == grammar_binds("cpp"@),
{
    parser.set_language(tree_sitter_cpp::language()).is_ok()
}

/// What tree-sitter records of one node of a tree, with the node's depth
/// below the root.
pub struct NodeFacts {
    pub kind: Seq<char>,
    pub is_named: bool,
    pub start_line: nat,
    pub start_col: nat,
    pub end_line: nat,
    pub end_col: nat,
    pub start_byte: nat,
    pub end_byte: nat,
    pub depth: nat,
}

/// The pre-order listing of the tree that tree-sitter builds for `content`
/// with the grammar of `grammar`, its nodes as the tree's cursor visits them
/// (the children `Node::child` gives), each with its depth.
pub uninterp spec fn parsed_listing(grammar: Seq<char>, content: Seq<u8>) -> Seq<NodeFacts>;

/// A pre-order listing of a tree: one root at depth 0, each later node at
/// most one level below the one before it, and below the root.
pub open spec fn listing_wf(s: Seq<NodeFacts>) -> bool {
    &&& s.len() > 0
    &&& s[0].depth == 0
    &&& forall|i: int| 0 < i < s.len() ==> 1 <= #[trigger] s[i].depth <= s[i - 1].depth + 1
}

/// Node `p` has a first child: the next node is one level below it.
pub open spec fn has_first_child(s: Seq<NodeFacts>, p: int) -> bool {
    p + 1 < s.len() && s[p + 1].depth == s[p].depth + 1
}

/// `e` is just past the last node below `p`.
pub open spec fn is_subtree_end(s: Seq<NodeFacts>, p: int, e: int) -> bool {
    &&& p < e <= s.len()
    &&& forall|k: int| p < k < e ==> #[trigger] s[k].depth > s[p].depth
    &&& e == s.len() || s[e].depth <= s[p].depth
}

/// `q` is the parent of `p`: the nearest earlier node one level up.
pub open spec fn is_parent(s: Seq<NodeFacts>, p: int, q: int) -> bool {
    &&& 0 <= q < p
    &&& s[q].depth + 1 == s[p].depth
    &&& forall|k: int| q < k < p ==> #[trigger] s[k].depth >= s[p].depth
}

/// A parsed tree, with the listing of its nodes.
struct ParsedTree {
    tree: tree_sitter::Tree,
    listing: Ghost<Seq<NodeFacts>>,
}

/// A cursor over a parsed tree, at position `pos` of its listing.
struct Walker<'a> {
    cursor: tree_sitter::TreeCursor<'a>,
    listing: Ghost<Seq<NodeFacts>>,
    pos: Ghost<int>,
}

/// A node of a parsed tree, with what its listing records of it.
struct NodeRef<'a> {
    node: tree_sitter::Node<'a>,
    facts: Ghost<NodeFacts>,
}

/// Relies on tree_sitter::Parser::parse: it gives no tree only when the
/// parser has no language, on a timeout, or on cancellation. A
/// `LanguageParser` is only ever made from a parser whose grammar bound (see
/// `add_parser`), and no timeout or cancellation flag is ever set, so a tree
/// always comes back; with no earlier tree given, it is the tree of the
/// content under the grammar, listed by `parsed_listing`.
#[verifier::external_body]
fn run_parser(lp: &mut LanguageParser, content: &str) -> (r: Option<ParsedTree>)
    ensures
        r is Some,
        r matches Some(t) ==> t.listing@ == parsed_listing(old(lp).language@, content.spec_bytes()),
        r matches Some(t) ==> listing_wf(t.listing@),
        final(lp).language == old(lp).language,
{
    lp.parser.parse(content, None).map(|tree| ParsedTree { tree, listing: Ghost(Seq::empty()) })
}

/// Relies on tree_sitter::Tree::walk: a cursor on the root node, the first
/// node of the listing.
#[verifier::external_body]
fn tree_cursor<'a>(t: &'a ParsedTree) -> (r: Walker<'a>)
    ensures
        r.listing@ == t.listing@,
        r.pos@ == 0,
{
    Walker { cursor: t.tree.walk(), listing: Ghost(Seq::empty()), pos: Ghost(0) }
}

/// Relies on tree_sitter::Tree::root_node.
#[verifier::external_body]
fn root_node<'a>(t: &'a ParsedTree) -> tree_sitter::Node<'a> {
    t.tree.root_node()
}

/// Relies on tree_sitter::TreeCursor::node: the node under the cursor.
#[verifier::external_body]
fn cursor_node<'a>(w: &Walker<'a>) -> (r: NodeRef<'a>)
    requires
        0 <= w.pos@ < w.listing@.len(),
    ensures
        r.facts@ == w.listing@[w.pos@],
{
    NodeRef { node: w.cursor.node(), facts: Ghost(arbitrary()) }
}

/// Relies on tree_sitter::TreeCursor::goto_first_child: moves to the first
/// child, or returns false where the node has none.
#[verifier::external_body]
fn goto_first_child(w: &mut Walker) -> (r: bool)
    requires
        0 <= old(w).pos@ < old(w).listing@.len(),
    ensures
        final(w).listing@ == old(w).listing@,
        r == has_first_child(old(w).listing@, old(w).pos@),
        final(w).pos@ == if r {
            old(w).pos@ + 1
        } else {
            old(w).pos@
        },
{
    w.cursor.goto_first_child()
}

/// Relies on tree_sitter::TreeCursor::goto_next_sibling: moves to the next
/// node at the same level under the same parent, or returns false.
#[verifier::external_body]
fn goto_next_sibling(w: &mut Walker) -> (r: bool)
    requires
        0 <= old(w).pos@ < old(w).listing@.len(),
    ensures
        final(w).listing@ == old(w).listing@,
        r == exists|e: int|
            is_subtree_end(old(w).listing@, old(w).pos@, e) && e < old(w).listing@.len()
                && old(w).listing@[e].depth == old(w).listing@[old(w).pos@].depth,
        r ==> is_subtree_end(old(w).listing@, old(w).pos@, final(w).pos@) && final(w).pos@
            < old(w).listing@.len() && old(w).listing@[final(w).pos@].depth
            == old(w).listing@[old(w).pos@].depth,
        !r ==> final(w).pos@ == old(w).pos@,
{
    w.cursor.goto_next_sibling()
}

/// Relies on tree_sitter::TreeCursor::goto_parent: moves to the parent, or
/// returns false on the root.
#[verifier::external_body]
fn goto_parent(w: &mut Walker) -> (r: bool)
    requires
        0 <= old(w).pos@ < old(w).listing@.len(),
    ensures
        final(w).listing@ == old(w).listing@,
        r == (old(w).listing@[old(w).pos@].depth > 0),
        r ==> is_parent(old(w).listing@, old(w).pos@, final(w).pos@),
        !r ==> final(w).pos@ == old(w).pos@,
{
    w.cursor.goto_parent()
}

/// Relies on tree_sitter::Node::kind: the grammar's name for the node.
#[verifier::external_body]
fn node_kind(n: &NodeRef) -> (r: String)
    ensures
        r@ == n.facts@.kind,
{
    n.node.kind().to_string()
}

/// Relies on tree_sitter::Node::is_named.
#[verifier::external_body]
fn node_is_named(n: &NodeRef) -> (r: bool)
    ensures
        r == n.facts@.is_named,
{
    n.node.is_named()
}

/// Relies on tree_sitter::Node::has_error: whether the node is or holds a syntax error.
#[verifier::external_body]
fn node_has_error(node: &tree_sitter::Node) -> bool {
    node.has_error()
}

/// Relies on tree_sitter::Node::start_byte.
#[verifier::external_body]
fn node_start_byte(n: &NodeRef) -> (r: usize)
    ensures
        r as nat == n.facts@.start_byte,
{
    n.node.start_byte()
}

/// Relies on tree_sitter::Node::end_byte.
#[verifier::external_body]
fn node_end_byte(n: &NodeRef) -> (r: usize)
    ensures
        r as nat == n.facts@.end_byte,
{
    n.node.end_byte()
}

/// Relies on tree_sitter::Node::start_position: (row, column).
#[verifier::external_body]
fn node_start_position(n: &NodeRef) -> (r: (usize, usize))
    ensures
        r.0 as nat == n.facts@.start_line && r.1 as nat == n.facts@.start_col,
{
    let p = n.node.start_position();
    (p.row, p.column)
}

/// Relies on tree_sitter::Node::end_position: (row, column).
#[verifier::external_body]
fn node_end_position(n: &NodeRef) -> (r: (usize, usize))
    ensures
        r.0 as nat == n.facts@.end_line && r.1 as nat == n.facts@.end_col,
{
    let p = n.node.end_position();
    (p.row, p.column)
}

/// Relies on std::str::from_utf8: text exactly when the bytes are valid UTF-8.
#[verifier::external_body]
fn utf8_text(bytes: &[u8]) -> (r: Option<String>)
    ensures
        r is Some <==> valid_utf8(bytes@),
        r matches Some(s) ==> s@ == decode_utf8(bytes@),
{
    std::str::from_utf8(bytes).ok().map(|s| s.to_string())
}

/// The text of the byte span `start..end` of `source` when the span lies
/// inside the source, is shorter than `TEXT_LIMIT`, and holds whole characters.
pub open spec fn leaf_text_of(source: Seq<u8>, start: int, end: int) -> Option<Seq<char>> {
    if 0 <= start <= end <= source.len() && end - start < TEXT_LIMIT && valid_utf8(
        source.subrange(start, end),
    ) {
        Some(decode_utf8(source.subrange(start, end)))
    } else {
        None
    }
}

/// Node `i` carries its text exactly when it is a leaf and `leaf_text_of` gives one.
pub open spec fn text_holds_at(s: Seq<SyntaxNode>, source: Seq<u8>, i: int) -> bool {
    opt_text(s[i].text) == if is_leaf_at(s, i) {
        leaf_text_of(source, s[i].start_byte as int, s[i].end_byte as int)
    } else {
        None
    }
}

/// Every small leaf of a listing carries its source text, and no other node does.
pub open spec fn leaf_texts_hold(s: Seq<SyntaxNode>, source: Seq<u8>) -> bool {
    forall|i: int| 0 <= i < s.len() ==> #[trigger] text_holds_at(s, source, i)
}

/// The text of a small leaf, as `leaf_text_of` states it.
pub fn small_leaf_text(source: &[u8], start: usize, end: usize) -> (r: Option<String>)
    ensures
        opt_text(r) == leaf_text_of(source@, start as int, end as int),
{
    if start <= end && end <= source.len() && end - start < TEXT_LIMIT {
        utf8_text(slice_subrange(source, start, end))
    } else {
        None
    }
}

/// A listed node carries what the parsed tree's listing records.
pub open spec fn node_matches(n: SyntaxNode, f: NodeFacts) -> bool {
    &&& n.kind@ == f.kind
    &&& n.is_named == f.is_named
    &&& n.start_line as nat == f.start_line
    &&& n.start_col as nat == f.start_col
    &&& n.end_line as nat == f.end_line
    &&& n.end_col as nat == f.end_col
    &&& n.start_byte as nat == f.start_byte
    &&& n.end_byte as nat == f.end_byte
    &&& n.depth as nat == f.depth
}

/// A captured listing holds the parsed tree's nodes, one for one.
pub open spec fn listing_matches(t: Seq<SyntaxNode>, s: Seq<NodeFacts>) -> bool {
    &&& t.len() == s.len()
    &&& forall|i: int| 0 <= i < t.len() ==> node_matches(#[trigger] t[i], s[i])
}

/// The node under the cursor as a listed node at `depth`; a leaf keeps its
/// text when it is small.
fn capture_node(node: &NodeRef, source: &[u8], depth: usize, leaf: bool) -> (r: SyntaxNode)
    requires
        depth as nat == node.facts@.depth,
    ensures
        node_matches(r, node.facts@),
        opt_text(r.text) == if leaf {
            leaf_text_of(source@, r.start_byte as int, r.end_byte as int)
        } else {
            None
        },
{
    let start_byte = node_start_byte(node);
    let end_byte = node_end_byte(node);
    let (start_line, start_col) = node_start_position(node);
    let (end_line, end_col) = node_end_position(node);
    let text = if leaf {
        small_leaf_text(source, start_byte, end_byte)
    } else {
        None
    };
    SyntaxNode {
        kind: node_kind(node),
        text,
        start_line,
        start_col,
        end_line,
        end_col,
        start_byte,
        end_byte,
        is_named: node_is_named(node),
        depth,
    }
}

/// Node `i` of the captured listing has the text its place in the tree calls for.
spec fn text_settled(n: SyntaxNode, s: Seq<NodeFacts>, i: int, source: Seq<u8>) -> bool {
    opt_text(n.text) == if !has_first_child(s, i) {
        leaf_text_of(source, n.start_byte as int, n.end_byte as int)
    } else {
        None
    }
}

proof fn lemma_depth_below_index(s: Seq<NodeFacts>)
    requires
        listing_wf(s),
    ensures
        forall|i: int| 0 <= i < s.len() ==> #[trigger] s[i].depth <= i,
    decreases s.len(),
{
    if s.len() > 1 {
        let p = s.drop_last();
        assert forall|i: int| 0 < i < p.len() implies 1 <= #[trigger] p[i].depth <= p[i - 1].depth + 1 by {
            assert(p[i] == s[i] && p[i - 1] == s[i - 1]);
        }
        lemma_depth_below_index(p);
        assert forall|i: int| 0 <= i < s.len() implies #[trigger] s[i].depth <= i by {
            if i < p.len() {
                assert(p[i] == s[i]);
            } else {
                assert(p[i - 1] == s[i - 1]);
            }
        }
    }
}

proof fn lemma_end_unique(s: Seq<NodeFacts>, p: int, e1: int, e2: int)
    requires
        is_subtree_end(s, p, e1),
        is_subtree_end(s, p, e2),
    ensures
        e1 == e2,
{
    if e1 < e2 {
        assert(s[e1].depth > s[p].depth);
    } else if e2 < e1 {
        assert(s[e2].depth > s[p].depth);
    }
}

proof fn lemma_climb(s: Seq<NodeFacts>, cur: int, q: int, n: int)
    requires
        is_subtree_end(s, cur, n),
        !(n < s.len() && s[n].depth == s[cur].depth),
        is_parent(s, cur, q),
    ensures
        is_subtree_end(s, q, n),
{
    assert forall|k: int| q < k < n implies #[trigger] s[k].depth > s[q].depth by {
        if k < cur {
            assert(s[k].depth >= s[cur].depth);
        } else if k > cur {
            assert(s[k].depth > s[cur].depth);
        }
    }
}

proof fn lemma_captured(t: Seq<SyntaxNode>, s: Seq<NodeFacts>, source: Seq<u8>)
    requires
        listing_wf(s),
        listing_matches(t, s),
        forall|i: int| 0 <= i < t.len() ==> #[trigger] text_settled(t[i], s, i, source),
    ensures
        preorder_wf(t),
        leaf_texts_hold(t, source),
{
    assert(node_matches(t[0], s[0]));
    assert forall|i: int| 0 < i < t.len() implies 1 <= #[trigger] t[i].depth <= t[i - 1].depth + 1 by {
        assert(node_matches(t[i], s[i]) && node_matches(t[i - 1], s[i - 1]));
    }
    assert forall|i: int| 0 <= i < t.len() implies #[trigger] text_holds_at(t, source, i) by {
        assert(text_settled(t[i], s, i, source));
        assert(node_matches(t[i], s[i]));
        if i + 1 < t.len() {
            assert(node_matches(t[i + 1], s[i + 1]));
        }
    }
    assert forall|i: int| 0 <= i < t.len() && (#[trigger] t[i].text) is Some implies is_leaf_at(
        t,
        i,
    ) && t[i].start_byte <= t[i].end_byte && t[i].end_byte - t[i].start_byte < TEXT_LIMIT by {
        assert(text_holds_at(t, source, i));
    }
}

/// Lists every node of the parsed tree in pre-order, with its depth, exactly
/// as the tree's listing has them; small leaves carry their text from `source`.
fn capture_tree(tree: &ParsedTree, source: &[u8]) -> (r: SyntaxTree)
    requires
        listing_wf(tree.listing@),
    ensures
        r.wf(),
        leaf_texts_hold(r.nodes@, source@),
        listing_matches(r.nodes@, tree.listing@),
{
    let ghost s = tree.listing@;
    proof {
        lemma_depth_below_index(s);
    }
    let mut w = tree_cursor(tree);
    let mut nodes: Vec<SyntaxNode> = Vec::new();
    let mut depth: usize = 0;
    let mut done = false;
    while !done
        invariant
            s == tree.listing@,
            listing_wf(s),
            forall|i: int| 0 <= i < s.len() ==> #[trigger] s[i].depth <= i,
            w.listing@ == s,
            nodes@.len() <= s.len(),
            forall|i: int| 0 <= i < nodes@.len() ==> node_matches(#[trigger] nodes@[i], s[i]),
            forall|i: int| 0 <= i < nodes@.len() ==> #[trigger] text_settled(nodes@[i], s, i, source@),
            !done ==> w.pos@ == nodes@.len() && nodes@.len() < s.len() && depth as nat == s[w.pos@].depth,
            done ==> nodes@.len() == s.len(),
        decreases s.len() - nodes@.len(), if done { 0int } else { 1int },
    {
        let ghost pos = w.pos@;
        let node = cursor_node(&w);
        let descended = goto_first_child(&mut w);
        let captured = capture_node(&node, source, depth, !descended);
        let ghost before = nodes@;
        nodes.push(captured);
        proof {
            assert forall|i: int| 0 <= i < nodes@.len() implies node_matches(#[trigger] nodes@[i], s[i]) by {
                if i < before.len() {
                    assert(nodes@[i] == before[i]);
                }
            }
            assert forall|i: int| 0 <= i < nodes@.len() implies #[trigger] text_settled(nodes@[i], s, i, source@) by {
                if i < before.len() {
                    assert(nodes@[i] == before[i]);
                }
            }
        }
        if descended {
            let count = nodes.len();
            assert(s[pos + 1].depth <= pos + 1);
            assert(count == pos + 1);
            depth = depth + 1;
        } else {
            proof {
                if pos + 1 < s.len() {
                    assert(s[pos + 1].depth <= s[pos].depth + 1);
                }
            }
            loop
                invariant_except_break
                    !done,
                    is_subtree_end(s, w.pos@, nodes@.len() as int),
                invariant
                    s == tree.listing@,
                    listing_wf(s),
                    w.listing@ == s,
                    0 <= w.pos@ < s.len(),
                    depth as nat == s[w.pos@].depth,
                ensures
                    done ==> nodes@.len() == s.len(),
                    !done ==> w.pos@ == nodes@.len() && nodes@.len() < s.len() && depth as nat
                        == s[w.pos@].depth,
                    w.listing@ == s,
                decreases depth,
            {
                let ghost cur = w.pos@;
                if depth == 0 {
                    proof {
                        if nodes@.len() < s.len() {
                            assert(s[nodes@.len() as int].depth >= 1);
                        }
                    }
                    done = true;
                    break;
                }
                if goto_next_sibling(&mut w) {
                    proof {
                        lemma_end_unique(s, cur, w.pos@, nodes@.len() as int);
                    }
                    break;
                }
                if !goto_parent(&mut w) {
                    done = true;
                    break;
                }
                proof {
                    lemma_climb(s, cur, w.pos@, nodes@.len() as int);
                }
                depth = depth - 1;
            }
        }
    }
    proof {
        lemma_captured(nodes@, s, source@);
    }
    SyntaxTree { nodes }
}

/// A successful parse of `content` with the grammar of `grammar`: the
/// metadata is measured over the full listing of the tree that tree-sitter
/// builds (every node counted, its true depth), the nested tree mirrors that
/// listing down to `MAX_AST_DEPTH`, and small leaves carry their text.
pub open spec fn successful_parse(r: ParsedFile, grammar: Seq<char>, content: Seq<u8>) -> bool {
    &&& r.success
    &&& r.error is None
    &&& r.metadata.lines == line_count(content)
    &&& r.metadata.bytes == content.len()
    &&& r.ast matches Some(a) && bounded(a, 0, MAX_AST_DEPTH as int) && exists|t: Seq<SyntaxNode>|
        listing_matches(t, parsed_listing(grammar, content)) && preorder_wf(t) && leaf_texts_hold(
            t,
            content,
        ) && mirrors(preorder(a, 0), within_depth(t, MAX_AST_DEPTH as int))
            && r.metadata.node_count == t.len() && r.metadata.tree_depth == max_depth(t)
}

/// A failed parse with the given reason and language: no tree, empty metadata.
pub open spec fn failed_parse(r: ParsedFile, reason: Seq<char>, language: Seq<char>) -> bool {
    &&& !r.success
    &&& r.ast is None
    &&& r.metadata.is_empty()
    &&& r.error matches Some(e) && e@ == reason
    &&& r.language@ == language
}

/// The result of parsing `content` under `path` with parsers loaded for
/// `loaded`: an unregistered extension is unsupported; a registered
/// language without a loaded parser is unavailable; otherwise the parse succeeds.
pub open spec fn parse_result(r: ParsedFile, path: Seq<char>, content: Seq<u8>, loaded: Seq<Seq<char>>) -> bool {
    &&& r.wf()
    &&& r.path@ == path
    &&& match language_of_path(path) {
        None => failed_parse(r, unsupported_message(), unknown_language()),
        Some(l) => if loaded.contains(l) {
            r.language@ == l && successful_parse(r, l, content)
        } else {
            failed_parse(r, unavailable_message(l), l)
        },
    }
}

/// A parser bound to the grammar of one language.
pub struct LanguageParser {
    language: String,
    parser: tree_sitter::Parser,
}

impl LanguageParser {
    /// The language this parser reads.
    pub closed spec fn language_view(&self) -> Seq<char> {
        self.language@
    }

    /// The language this parser reads.
    pub fn language(&self) -> (r: &str)
        ensures
            r@ == self.language_view(),
    {
        self.language.as_str()
    }

    /// Parses `content` as this parser's language. Only this call uses the
    /// parser while it runs; parsers of other languages stay free.
    pub fn parse(&mut self, path: &str, content: &str) -> (r: ParsedFile)
        ensures
            r.wf(),
            r.path@ == path@,
            r.language@ == old(self).language_view(),
            final(self).language_view() == old(self).language_view(),
            successful_parse(r, old(self).language_view(), content.spec_bytes()),
    {
        let parsed = run_parser(self, content);
        let tree = match parsed {
            Some(t) => t,
            None => {
                return ParsedFile::parse_failed(path, self.language.as_str());
            },
        };
        let syntax = capture_tree(&tree, content.as_bytes());
        let root = root_node(&tree);
        let has_errors = node_has_error(&root);
        let r = ParsedFile::from_tree(path, self.language.as_str(), content, &syntax, has_errors);
        proof {
            let a = r.ast.unwrap();
            assert(listing_matches(syntax.nodes@, parsed_listing(self.language@, content.spec_bytes()))
                && preorder_wf(syntax.nodes@) && leaf_texts_hold(syntax.nodes@, content.spec_bytes())
                && mirrors(preorder(a, 0), within_depth(syntax.nodes@, MAX_AST_DEPTH as int))
                && r.metadata.node_count == syntax.nodes@.len() && r.metadata.tree_depth == max_depth(
                syntax.nodes@,
            ));
        }
        r
    }
}

/// The languages that a grammar is bundled for, in loading order.
pub open spec fn grammar_names() -> Seq<Seq<char>> {
    seq![
        "javascript"@,
        "typescript"@,
        "tsx"@,
        "python"@,
        "rust"@,
        "java"@,
        "go"@,
        "c"@,
        "cpp"@,
    ]
}

/// The grammars of `g` that bind, in order.
pub open spec fn binding_grammars(g: Seq<Seq<char>>) -> Seq<Seq<char>>
    decreases g.len(),
{
    if g.len() == 0 {
        Seq::empty()
    } else {
        let r = binding_grammars(g.drop_last());
        if grammar_binds(g.last()) {
            r.push(g.last())
        } else {
            r
        }
    }
}

/// The languages of a list of parsers, in order.
pub open spec fn parser_languages(v: Seq<LanguageParser>) -> Seq<Seq<char>> {
    v.map_values(|p: LanguageParser| p.language_view())
}

/// How a path is to be parsed: a result already settled (unsupported or
/// unavailable), or the position of the loaded parser to run.
pub enum ParseRoute {
    Done(ParsedFile),
    Parse(usize),
}

/// Decides how `path` is parsed when parsers are loaded for the languages
/// `loaded`, in that order: by the registered language of its extension, and
/// the first loaded parser for it.
pub fn route(registry: &LanguageRegistry, loaded: &Vec<String>, path: &str) -> (r: ParseRoute)
    ensures
        match r {
            ParseRoute::Done(f) => !f.success && parse_result(f, path@, Seq::empty(), texts(loaded@)),
            ParseRoute::Parse(i) => i < loaded@.len() && language_of_path(path@) == Some(
                loaded@[i as int]@,
            ),
        },
{
    proof {
        crate::parsed::lemma_messages_differ(path@);
    }
    let language = match registry.detect_language(path) {
        Some(l) => l,
        None => {
            return ParseRoute::Done(ParsedFile::unsupported(path));
        },
    };
    let mut i: usize = 0;
    while i < loaded.len()
        invariant
            0 <= i <= loaded@.len(),
            language_of_path(path@) == Some(language@),
            forall|j: int| 0 <= j < i ==> loaded@[j]@ != language@,
        decreases loaded@.len() - i,
    {
        if text_eq(loaded[i].as_str(), language.as_str()) {
            return ParseRoute::Parse(i);
        }
        i += 1;
    }
    proof {
        assert(!texts(loaded@).contains(language@)) by {
            if texts(loaded@).contains(language@) {
                let j = choose|j: int| 0 <= j < texts(loaded@).len() && texts(loaded@)[j] == language@;
                assert(loaded@[j]@ == language@);
            }
        }
    }
    ParseRoute::Done(ParsedFile::parser_unavailable(path, language.as_str()))
}

/// The registry together with one parser per language whose grammar binds.
pub struct ParserState {
    registry: LanguageRegistry,
    parsers: Vec<LanguageParser>,
}

impl ParserState {
    /// The languages whose parsers are loaded, in loading order.
    pub closed spec fn loaded_languages(&self) -> Seq<Seq<char>> {
        parser_languages(self.parsers@)
    }

    /// The registry's (extension, language) table.
    pub closed spec fn table(&self) -> Seq<(Seq<char>, Seq<char>)> {
        self.registry.table()
    }

    /// The full extension table, and a parser for each bundled grammar that
    /// binds, in the order of `grammar_names`; a grammar that does not bind
    /// leaves its language out and the others unaffected.
    pub fn new() -> (r: ParserState)
        ensures
            r.table() == extension_table(),
            r.loaded_languages() == binding_grammars(grammar_names()),
    {
        let ghost g = grammar_names();
        let mut parsers: Vec<LanguageParser> = Vec::new();
        assert(parser_languages(parsers@) =~= binding_grammars(g.subrange(0, 0)));
        let mut p = new_parser();
        let b = bind_javascript(&mut p);
        ParserState::add_parser(&mut parsers, "javascript", p, b);
        proof { lemma_binding_step(g, 1); }
        let mut p = new_parser();
        let b = bind_typescript(&mut p);
        ParserState::add_parser(&mut parsers, "typescript", p, b);
        proof { lemma_binding_step(g, 2); }
        let mut p = new_parser();
        let b = bind_tsx(&mut p);
        ParserState::add_parser(&mut parsers, "tsx", p, b);
        proof { lemma_binding_step(g, 3); }
        let mut p = new_parser();
        let b = bind_python(&mut p);
        ParserState::add_parser(&mut parsers, "python", p, b);
        proof { lemma_binding_step(g, 4); }
        let mut p = new_parser();
        let b = bind_rust(&mut p);
        ParserState::add_parser(&mut parsers, "rust", p, b);
        proof { lemma_binding_step(g, 5); }
        let mut p = new_parser();
        let b = bind_java(&mut p);
        ParserState::add_parser(&mut parsers, "java", p, b);
        proof { lemma_binding_step(g, 6); }
        let mut p = new_parser();
        let b = bind_go(&mut p);
        ParserState::add_parser(&mut parsers, "go", p, b);
        proof { lemma_binding_step(g, 7); }
        let mut p = new_parser();
        let b = bind_c(&mut p);
        ParserState::add_parser(&mut parsers, "c", p, b);
        proof { lemma_binding_step(g, 8); }
        let mut p = new_parser();
        let b = bind_cpp(&mut p);
        ParserState::add_parser(&mut parsers, "cpp", p, b);
        proof {
            lemma_binding_step(g, 9);
            assert(g.subrange(0, 9) =~= g);
        }
        ParserState { registry: LanguageRegistry::new(), parsers }
    }

    /// Adds the parser for `name` when its grammar bound (`bound`); otherwise
    /// the language is left out and the others are unaffected.
    fn add_parser(parsers: &mut Vec<LanguageParser>, name: &str, parser: tree_sitter::Parser, bound: bool)
        ensures
            parser_languages(final(parsers)@) == parser_languages(old(parsers)@) + if bound {
                seq![name@]
            } else {
                Seq::empty()
            },
    {
        let ghost before = parsers@;
        if bound {
            parsers.push(LanguageParser { language: String::from_str(name), parser });
        }
        assert(parser_languages(parsers@) =~= parser_languages(before) + if bound {
            seq![name@]
        } else {
            Seq::<Seq<char>>::empty()
        });
    }

    /// The language that the extension of `path` is registered with: none
    /// for a path without extension or with an unregistered one.
    pub fn detect_language(&self, path: &str) -> (r: Option<String>)
        ensures
            opt_text(r) == language_of_path(path@),
            !path@.contains('.') ==> r is None,
            forall|stem: Seq<char>, ext: Seq<char>|
                plain_part(stem) && plain_part(ext) && path@ == stem + seq!['.'] + ext ==> language_of_path(
                    path@,
                ) == language_of(ext),
            forall|dir: Seq<char>, stem: Seq<char>, ext: Seq<char>|
                plain_part(stem) && plain_part(ext) && path@ == dir + seq!['/'] + stem + seq!['.'] + ext
                    ==> language_of_path(path@) == language_of(ext),
            !path@.contains('.') ==> language_of_path(path@) is None,
    {
        self.registry.detect_language(path)
    }

    /// The registry and the loaded parsers, apart, so that each parser can be
    /// guarded on its own.
    pub fn into_parts(self) -> (r: (LanguageRegistry, Vec<LanguageParser>))
        ensures
            r.0.table() == self.table(),
            parser_languages(r.1@) == self.loaded_languages(),
    {
        let ParserState { registry, parsers } = self;
        (registry, parsers)
    }

    /// Each supported language with its registered extensions.
    pub fn supported_languages(&self) -> (r: Vec<(String, Vec<String>)>)
        ensures
            groups_view(r@) == grouped(extension_table()),
    {
        self.registry.supported_languages()
    }

    /// The position of the first loaded parser for `language`.
    fn parser_index(&self, language: &str) -> (r: Option<usize>)
        ensures
            r is None <==> !self.loaded_languages().contains(language@),
            r matches Some(i) ==> i < self.parsers@.len() && self.parsers@[i as int].language_view()
                == language@,
    {
        let mut i: usize = 0;
        while i < self.parsers.len()
            invariant
                0 <= i <= self.parsers@.len(),
                forall|j: int| 0 <= j < i ==> self.parsers@[j].language_view() != language@,
            decreases self.parsers@.len() - i,
        {
            if text_eq(self.parsers[i].language.as_str(), language) {
                proof {
                    assert(self.loaded_languages()[i as int] == language@);
                }
                return Some(i);
            }
            i += 1;
        }
        proof {
            assert(!self.loaded_languages().contains(language@)) by {
                if self.loaded_languages().contains(language@) {
                    let j = choose|j: int| 0 <= j < self.loaded_languages().len() && self.loaded_languages()[j] == language@;
                    assert(self.parsers@[j].language_view() == language@);
                }
            }
        }
        None
    }

    /// Parses `content` with the parser of the language that `path`'s
    /// extension names. Every outcome is reported in the result, never raised.
    pub fn parse_file(&mut self, path: &str, content: &str) -> (r: ParsedFile)
        ensures
            parse_result(r, path@, content.spec_bytes(), old(self).loaded_languages()),
            forall|stem: Seq<char>, ext: Seq<char>|
                plain_part(stem) && plain_part(ext) && path@ == stem + seq!['.'] + ext ==> language_of_path(
                    path@,
                ) == language_of(ext),
            forall|dir: Seq<char>, stem: Seq<char>, ext: Seq<char>|
                plain_part(stem) && plain_part(ext) && path@ == dir + seq!['/'] + stem + seq!['.'] + ext
                    ==> language_of_path(path@) == language_of(ext),
            !path@.contains('.') ==> language_of_path(path@) is None,
            final(self).loaded_languages() == old(self).loaded_languages(),
            final(self).table() == old(self).table(),
    {
        proof {
            crate::parsed::lemma_messages_differ(path@);
        }
        let language = match self.detect_language(path) {
            Some(l) => l,
            None => {
                return ParsedFile::unsupported(path);
            },
        };
        let index = match self.parser_index(language.as_str()) {
            Some(i) => i,
            None => {
                return ParsedFile::parser_unavailable(path, language.as_str());
            },
        };
        let ghost before = self.parsers@;
        let r = self.parsers[index].parse(path, content);
        proof {
            assert(parser_languages(self.parsers@) =~= parser_languages(before));
            assert(parser_languages(before)[index as int] == language@);
        }
        r
    }

    /// Parses each `(path, content)` pair in order; one file's failure does
    /// not stop the others.
    pub fn parse_many(&mut self, files: &Vec<(String, String)>) -> (r: Vec<ParsedFile>)
        ensures
            r@.len() == files@.len(),
            forall|i: int|
                0 <= i < files@.len() ==> parse_result(
                    #[trigger] r@[i],
                    files@[i].0@,
                    encode_utf8(files@[i].1@),
                    old(self).loaded_languages(),
                ),
            final(self).loaded_languages() == old(self).loaded_languages(),
            final(self).table() == old(self).table(),
    {
        let mut results: Vec<ParsedFile> = Vec::new();
        let mut i: usize = 0;
        while i < files.len()
            invariant
                0 <= i <= files@.len(),
                results@.len() == i,
                self.loaded_languages() == old(self).loaded_languages(),
                self.table() == old(self).table(),
                forall|k: int|
                    0 <= k < i ==> parse_result(
                        #[trigger] results@[k],
                        files@[k].0@,
                        encode_utf8(files@[k].1@),
                        old(self).loaded_languages(),
                    ),
            decreases files@.len() - i,
        {
            let parsed = self.parse_file(files[i].0.as_str(), files[i].1.as_str());
            results.push(parsed);
            i += 1;
        }
        results
    }
}

proof fn lemma_binding_step(g: Seq<Seq<char>>, k: int)
    requires
        1 <= k <= g.len(),
    ensures
        binding_grammars(g.subrange(0, k)) == binding_grammars(g.subrange(0, k - 1)) + if grammar_binds(g[k - 1]) {
            seq![g[k - 1]]
        } else {
            Seq::empty()
        },
{
    assert(g.subrange(0, k).drop_last() =~= g.subrange(0, k - 1));
    if grammar_binds(g[k - 1]) {
        assert(binding_grammars(g.subrange(0, k - 1)).push(g[k - 1]) =~= binding_grammars(g.subrange(0, k - 1)) + seq![g[k - 1]]);
    } else {
        assert(binding_grammars(g.subrange(0, k - 1)) + Seq::<Seq<char>>::empty() =~= binding_grammars(g.subrange(0, k - 1)));
    }
}

} // verus!
