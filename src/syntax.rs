//! Syntax trees: the full tree as a flat pre-order sequence, and the
//! depth-bounded nested tree that callers receive.
use vstd::prelude::*;

verus! {

/// Levels of nesting kept in a converted tree; nodes at this depth keep no children.
pub const MAX_AST_DEPTH: usize = 10;

/// Leaves whose byte span is below this size carry their source text.
pub const TEXT_LIMIT: usize = 100;

/// One node of a full syntax tree, listed in pre-order with its depth below the root.
#[derive(Clone, Debug)]
pub struct SyntaxNode {
    pub kind: String,
    pub text: Option<String>,
    pub start_line: usize,
    pub start_col: usize,
    pub end_line: usize,
    pub end_col: usize,
    pub start_byte: usize,
    pub end_byte: usize,
    pub is_named: bool,
    pub depth: usize,
}

/// A full syntax tree: every node, in pre-order.
#[derive(Clone, Debug)]
pub struct SyntaxTree {
    pub nodes: Vec<SyntaxNode>,
}

/// A node of the tree handed to callers; children are in source order.
#[derive(Debug)]
pub struct ASTNode {
    pub node_type: String,
    pub text: Option<String>,
    pub start_line: usize,
    pub start_col: usize,
    pub end_line: usize,
    pub end_col: usize,
    pub start_byte: usize,
    pub end_byte: usize,
    pub is_named: bool,
    pub children: Vec<ASTNode>,
}

/// Node `i` has no children: the next node in pre-order is not below it.
pub open spec fn is_leaf_at(s: Seq<SyntaxNode>, i: int) -> bool {
    i + 1 >= s.len() || s[i + 1].depth <= s[i].depth
}

/// A well-formed pre-order listing: one root at depth 0, each later node at
/// most one level below its predecessor, and text only on small leaves.
pub open spec fn preorder_wf(s: Seq<SyntaxNode>) -> bool {
    &&& s.len() > 0
    &&& s[0].depth == 0
    &&& forall|i: int| 0 < i < s.len() ==> 1 <= #[trigger] s[i].depth <= s[i - 1].depth + 1
    &&& forall|i: int|
        0 <= i < s.len() && (#[trigger] s[i].text) is Some ==> is_leaf_at(s, i)
            && s[i].start_byte <= s[i].end_byte && s[i].end_byte - s[i].start_byte < TEXT_LIMIT
}

/// The deepest level that any node of `s` reaches (0 for an empty listing).
pub open spec fn max_depth(s: Seq<SyntaxNode>) -> nat
    decreases s.len(),
{
    if s.len() == 0 {
        0
    } else {
        let m = max_depth(s.drop_last());
        if s.last().depth > m {
            s.last().depth as nat
        } else {
            m
        }
    }
}

/// The nodes of `s` at depth `max` or above, in order.
pub open spec fn within_depth(s: Seq<SyntaxNode>, max: int) -> Seq<SyntaxNode>
    decreases s.len(),
{
    if s.len() == 0 {
        Seq::empty()
    } else {
        let r = within_depth(s.drop_last(), max);
        if s.last().depth <= max {
            r.push(s.last())
        } else {
            r
        }
    }
}

/// The nodes of a nested tree in pre-order, each with its depth, the root at `d`.
pub open spec fn preorder(a: ASTNode, d: int) -> Seq<(ASTNode, int)>
    decreases a,
{
    seq![(a, d)] + preorder_all(a.children@, d + 1)
}

/// The pre-order listings of a sequence of sibling trees, one after another.
pub open spec fn preorder_all(cs: Seq<ASTNode>, d: int) -> Seq<(ASTNode, int)>
    decreases cs,
{
    if cs.len() == 0 {
        Seq::empty()
    } else {
        preorder_all(cs.subrange(0, cs.len() - 1), d) + preorder(cs[cs.len() - 1], d)
    }
}

/// A nested node carries the data of a listed node.
pub open spec fn same_header(a: ASTNode, n: SyntaxNode) -> bool {
    &&& a.node_type == n.kind
    &&& a.text == n.text
    &&& a.start_line == n.start_line
    &&& a.start_col == n.start_col
    &&& a.end_line == n.end_line
    &&& a.end_col == n.end_col
    &&& a.start_byte == n.start_byte
    &&& a.end_byte == n.end_byte
    &&& a.is_named == n.is_named
}

/// A pre-order listing of nested nodes matches a flat listing, node by node and depth by depth.
pub open spec fn mirrors(p: Seq<(ASTNode, int)>, s: Seq<SyntaxNode>) -> bool {
    &&& p.len() == s.len()
    &&& forall|k: int|
        0 <= k < p.len() ==> #[trigger] p[k].1 == s[k].depth && same_header(p[k].0, s[k])
}

/// No node lies below depth `max`, and nodes at depth `max` have no children.
pub open spec fn bounded(a: ASTNode, d: int, max: int) -> bool
    decreases a,
{
    &&& d <= max
    &&& (d == max ==> a.children@.len() == 0)
    &&& forall|i: int| 0 <= i < a.children@.len() ==> bounded(#[trigger] a.children@[i], d + 1, max)
}

proof fn lemma_within_depth_concat(a: Seq<SyntaxNode>, b: Seq<SyntaxNode>, max: int)
    ensures
        within_depth(a + b, max) == within_depth(a, max) + within_depth(b, max),
    decreases b.len(),
{
    if b.len() == 0 {
        assert(a + b =~= a);
        assert(within_depth(a, max) + within_depth(b, max) =~= within_depth(a, max));
    } else {
        assert((a + b).drop_last() =~= a + b.drop_last());
        lemma_within_depth_concat(a, b.drop_last(), max);
        if b.last().depth <= max {
            assert(within_depth(a, max) + within_depth(b.drop_last(), max).push(b.last())
                =~= (within_depth(a, max) + within_depth(b.drop_last(), max)).push(b.last()));
        }
    }
}

proof fn lemma_mirrors_concat(
    pa: Seq<(ASTNode, int)>,
    sa: Seq<SyntaxNode>,
    pb: Seq<(ASTNode, int)>,
    sb: Seq<SyntaxNode>,
)
    requires
        mirrors(pa, sa),
        mirrors(pb, sb),
    ensures
        mirrors(pa + pb, sa + sb),
{
    assert forall|k: int| 0 <= k < (pa + pb).len() implies #[trigger] (pa + pb)[k].1 == (sa
        + sb)[k].depth && same_header((pa + pb)[k].0, (sa + sb)[k]) by {
        if k < pa.len() {
            assert(pa[k].1 == sa[k].depth);
        } else {
            assert(pb[k - pa.len()].1 == sb[k - pa.len()].depth);
        }
    }
}

proof fn lemma_within_depth_one(n: SyntaxNode, max: int)
    ensures
        within_depth(seq![n], max) == (if n.depth <= max { seq![n] } else { Seq::empty() }),
{
    assert(seq![n].drop_last() =~= Seq::<SyntaxNode>::empty());
    assert(seq![n].last() == n);
    assert(within_depth(Seq::<SyntaxNode>::empty(), max) == Seq::<SyntaxNode>::empty());
    assert(Seq::<SyntaxNode>::empty().push(n) =~= seq![n]);
}

/// `max_depth` is the depth of some node, and no node lies deeper.
pub proof fn lemma_max_depth_is_deepest(s: Seq<SyntaxNode>)
    ensures
        forall|i: int| 0 <= i < s.len() ==> #[trigger] s[i].depth <= max_depth(s),
        s.len() > 0 ==> exists|i: int| 0 <= i < s.len() && #[trigger] s[i].depth == max_depth(s),
    decreases s.len(),
{
    if s.len() > 0 {
        let p = s.drop_last();
        lemma_max_depth_is_deepest(p);
        assert forall|i: int| 0 <= i < s.len() implies #[trigger] s[i].depth <= max_depth(s) by {
            if i < p.len() {
                assert(s[i] == p[i]);
            }
        }
        if s.last().depth > max_depth(p) {
            assert(s[s.len() - 1].depth == max_depth(s));
        } else if p.len() > 0 {
            let i = choose|i: int| 0 <= i < p.len() && #[trigger] p[i].depth == max_depth(p);
            assert(s[i] == p[i]);
        } else {
            assert(s[0].depth == max_depth(s));
        }
    }
}

proof fn lemma_within_depth_bounded(s: Seq<SyntaxNode>, max: int)
    ensures
        forall|k: int| 0 <= k < within_depth(s, max).len() ==> #[trigger] within_depth(s, max)[k].depth <= max,
    decreases s.len(),
{
    if s.len() > 0 {
        lemma_within_depth_bounded(s.drop_last(), max);
    }
}

/// Depth truncation: for a tree that nests deeper than `max`, a nested tree
/// that lists the nodes down to `max` (as `to_ast` returns it) holds no node
/// below `max`, nodes at `max` keep no children, and the full tree's depth
/// (as `tree_depth` reports it) is still the true, deeper one.
pub proof fn lemma_truncation(s: Seq<SyntaxNode>, a: ASTNode, max: int)
    requires
        preorder_wf(s),
        exists|i: int| 0 <= i < s.len() && #[trigger] s[i].depth > max,
        mirrors(preorder(a, 0), within_depth(s, max)),
        bounded(a, 0, max),
    ensures
        max_depth(s) > max,
        forall|k: int| 0 <= k < preorder(a, 0).len() ==> #[trigger] preorder(a, 0)[k].1 <= max,
        forall|k: int|
            0 <= k < preorder(a, 0).len() && #[trigger] preorder(a, 0)[k].1 == max
                ==> preorder(a, 0)[k].0.children@.len() == 0,
{
    lemma_preorder_bounded(a, 0, max);
    lemma_max_depth_is_deepest(s);
    lemma_within_depth_bounded(s, max);
    let i = choose|i: int| 0 <= i < s.len() && #[trigger] s[i].depth > max;
    assert(s[i].depth <= max_depth(s));
    assert forall|k: int| 0 <= k < preorder(a, 0).len() implies #[trigger] preorder(a, 0)[k].1 <= max by {
        assert(preorder(a, 0)[k].1 == within_depth(s, max)[k].depth);
    }
    assert forall|k: int|
        0 <= k < preorder(a, 0).len() && #[trigger] preorder(a, 0)[k].1 == max
            implies preorder(a, 0)[k].0.children@.len() == 0 by {
        assert(bounded(preorder(a, 0)[k].0, preorder(a, 0)[k].1, max));
    }
}

proof fn lemma_preorder_bounded(a: ASTNode, d: int, max: int)
    requires
        bounded(a, d, max),
    ensures
        forall|k: int| 0 <= k < preorder(a, d).len() ==> bounded(#[trigger] preorder(a, d)[k].0, preorder(a, d)[k].1, max),
    decreases a,
{
    lemma_preorder_all_bounded(a.children@, d + 1, max);
    let p = preorder(a, d);
    let rest = preorder_all(a.children@, d + 1);
    assert(p == seq![(a, d)] + rest);
    assert forall|k: int| 0 <= k < p.len() implies bounded(#[trigger] p[k].0, p[k].1, max) by {
        if k > 0 {
            assert(p[k] == rest[k - 1]);
        }
    }
}

proof fn lemma_preorder_all_bounded(cs: Seq<ASTNode>, d: int, max: int)
    requires
        forall|i: int| 0 <= i < cs.len() ==> bounded(#[trigger] cs[i], d, max),
    ensures
        forall|k: int| 0 <= k < preorder_all(cs, d).len() ==> bounded(#[trigger] preorder_all(cs, d)[k].0, preorder_all(cs, d)[k].1, max),
    decreases cs,
{
    if cs.len() > 0 {
        let init = cs.subrange(0, cs.len() - 1);
        let last = cs[cs.len() - 1];
        assert forall|i: int| 0 <= i < init.len() implies bounded(#[trigger] init[i], d, max) by {
            assert(init[i] == cs[i]);
        }
        lemma_preorder_all_bounded(init, d, max);
        lemma_preorder_bounded(last, d, max);
        let p = preorder_all(cs, d);
        let a = preorder_all(init, d);
        let b = preorder(last, d);
        assert(p == a + b);
        assert forall|k: int| 0 <= k < p.len() implies bounded(#[trigger] p[k].0, p[k].1, max) by {
            if k < a.len() {
                assert(p[k] == a[k]);
            } else {
                assert(p[k] == b[k - a.len()]);
            }
        }
    }
}

impl SyntaxTree {
    /// The tree's nodes, in pre-order.
    pub open spec fn view(&self) -> Seq<SyntaxNode> {
        self.nodes@
    }

    pub open spec fn wf(&self) -> bool {
        preorder_wf(self.nodes@)
    }

    /// The number of nodes in the tree.
    pub fn node_count(&self) -> (r: usize)
        ensures
            r == self.nodes@.len(),
    {
        self.nodes.len()
    }

    /// The depth of the deepest node, the root being at depth 0.
    pub fn tree_depth(&self) -> (r: usize)
        ensures
            r == max_depth(self.nodes@),
    {
        let mut m: usize = 0;
        let mut i: usize = 0;
        while i < self.nodes.len()
            invariant
                0 <= i <= self.nodes@.len(),
                m == max_depth(self.nodes@.subrange(0, i as int)),
            decreases self.nodes@.len() - i,
        {
            assert(self.nodes@.subrange(0, i + 1).drop_last() =~= self.nodes@.subrange(0, i as int));
            if self.nodes[i].depth > m {
                m = self.nodes[i].depth;
            }
            i += 1;
        }
        assert(self.nodes@.subrange(0, i as int) =~= self.nodes@);
        m
    }

    /// The nested tree of the nodes at depth `max_depth` or above: every
    /// such node appears once, in the same pre-order and at the same depth,
    /// and nodes at depth `max_depth` keep no children.
    pub fn to_ast(&self, max_depth: usize) -> (r: ASTNode)
        requires
            self.wf(),
        ensures
            mirrors(preorder(r, 0), within_depth(self.nodes@, max_depth as int)),
            bounded(r, 0, max_depth as int),
    {
        let (r, end) = build_subtree(&self.nodes, 0, max_depth);
        assert(self.nodes@.subrange(0, end as int) =~= self.nodes@);
        r
    }
}

/// Builds the nested tree rooted at node `i`, and returns it with the index
/// just past the last node below `i`.
fn build_subtree(nodes: &Vec<SyntaxNode>, i: usize, max: usize) -> (r: (ASTNode, usize))
    requires
        preorder_wf(nodes@),
        i < nodes@.len(),
        nodes@[i as int].depth <= max,
    ensures
        i < r.1 <= nodes@.len(),
        forall|k: int| i < k < r.1 ==> #[trigger] nodes@[k].depth > nodes@[i as int].depth,
        r.1 < nodes@.len() ==> nodes@[r.1 as int].depth <= nodes@[i as int].depth,
        mirrors(
            preorder(r.0, nodes@[i as int].depth as int),
            within_depth(nodes@.subrange(i as int, r.1 as int), max as int),
        ),
        bounded(r.0, nodes@[i as int].depth as int, max as int),
    decreases nodes@.len() - i,
{
    let len = nodes.len();
    let d = nodes[i].depth;
    let mut children: Vec<ASTNode> = Vec::new();
    let mut j: usize = i + 1;
    proof {
        assert(nodes@.subrange(i + 1, j as int) =~= Seq::<SyntaxNode>::empty());
    }
    while j < len && nodes[j].depth > d
        invariant
            len == nodes@.len(),
            preorder_wf(nodes@),
            i < j <= nodes@.len(),
            d == nodes@[i as int].depth,
            d <= max,
            forall|k: int| i < k < j ==> #[trigger] nodes@[k].depth > d,
            d < max && j < nodes@.len() && nodes@[j as int].depth > d ==> nodes@[j as int].depth
                == d + 1,
            mirrors(
                preorder_all(children@, d + 1),
                within_depth(nodes@.subrange(i + 1, j as int), max as int),
            ),
            d == max ==> children@.len() == 0,
            forall|c: int|
                0 <= c < children@.len() ==> bounded(#[trigger] children@[c], d + 1, max as int),
        decreases nodes@.len() - j,
    {
        let ghost old_children = children@;
        if d < max {
            let (c, next) = build_subtree(nodes, j, max);
            children.push(c);
            proof {
                lemma_append_child(nodes@, i as int, j as int, next as int, old_children, c, children@, d + 1, max as int);
            }
            j = next;
        } else {
            proof {
                lemma_skip_deep(nodes@, i as int, j as int, max as int);
            }
            j += 1;
        }
    }
    let n = &nodes[i];
    let ast = ASTNode {
        node_type: n.kind.clone(),
        text: clone_text(&n.text),
        start_line: n.start_line,
        start_col: n.start_col,
        end_line: n.end_line,
        end_col: n.end_col,
        start_byte: n.start_byte,
        end_byte: n.end_byte,
        is_named: n.is_named,
        children,
    };
    proof {
        lemma_close_subtree(nodes@, i as int, j as int, ast, max as int);
    }
    (ast, j)
}

proof fn lemma_append_child(
    s: Seq<SyntaxNode>,
    i: int,
    j: int,
    next: int,
    old_children: Seq<ASTNode>,
    c: ASTNode,
    children: Seq<ASTNode>,
    d: int,
    max: int,
)
    requires
        0 <= i < j < next <= s.len(),
        children == old_children.push(c),
        mirrors(preorder_all(old_children, d), within_depth(s.subrange(i + 1, j), max)),
        mirrors(preorder(c, d), within_depth(s.subrange(j, next), max)),
    ensures
        mirrors(preorder_all(children, d), within_depth(s.subrange(i + 1, next), max)),
{
    assert(children.subrange(0, children.len() - 1) =~= old_children);
    assert(children[children.len() - 1] == c);
    assert(preorder_all(children, d) == preorder_all(old_children, d) + preorder(c, d));
    assert(s.subrange(i + 1, next) =~= s.subrange(i + 1, j) + s.subrange(j, next));
    lemma_within_depth_concat(s.subrange(i + 1, j), s.subrange(j, next), max);
    lemma_mirrors_concat(
        preorder_all(old_children, d),
        within_depth(s.subrange(i + 1, j), max),
        preorder(c, d),
        within_depth(s.subrange(j, next), max),
    );
}

proof fn lemma_skip_deep(s: Seq<SyntaxNode>, i: int, j: int, max: int)
    requires
        0 <= i < j < s.len(),
        s[j].depth > max,
    ensures
        within_depth(s.subrange(i + 1, j + 1), max) == within_depth(s.subrange(i + 1, j), max),
{
    assert(s.subrange(i + 1, j + 1) =~= s.subrange(i + 1, j) + seq![s[j]]);
    lemma_within_depth_concat(s.subrange(i + 1, j), seq![s[j]], max);
    lemma_within_depth_one(s[j], max);
    assert(within_depth(s.subrange(i + 1, j), max) + Seq::<SyntaxNode>::empty()
        =~= within_depth(s.subrange(i + 1, j), max));
}

proof fn lemma_close_subtree(s: Seq<SyntaxNode>, i: int, j: int, ast: ASTNode, max: int)
    requires
        0 <= i < j <= s.len(),
        s[i].depth <= max,
        same_header(ast, s[i]),
        mirrors(preorder_all(ast.children@, s[i].depth + 1), within_depth(s.subrange(i + 1, j), max)),
    ensures
        mirrors(preorder(ast, s[i].depth as int), within_depth(s.subrange(i, j), max)),
{
    let d = s[i].depth as int;
    assert(s.subrange(i, j) =~= seq![s[i]] + s.subrange(i + 1, j));
    lemma_within_depth_concat(seq![s[i]], s.subrange(i + 1, j), max);
    lemma_within_depth_one(s[i], max);
    assert(mirrors(seq![(ast, d)], seq![s[i]]));
    lemma_mirrors_concat(
        seq![(ast, d)],
        seq![s[i]],
        preorder_all(ast.children@, d + 1),
        within_depth(s.subrange(i + 1, j), max),
    );
}

fn clone_text(t: &Option<String>) -> (r: Option<String>)
    ensures
        r == *t,
{
    match t {
        Some(s) => Some(s.clone()),
        None => None,
    }
}

} // verus!
