//! The outcome of parsing one file: its metadata and nested tree, or the
//! reason it could not be parsed.
use vstd::prelude::*;
use vstd::string::*;
use crate::syntax::{ASTNode, SyntaxTree, MAX_AST_DEPTH, bounded, max_depth, mirrors, preorder, within_depth};

verus! {

/// Counts measured over a file and its full syntax tree.
#[derive(Clone, Copy, Debug, PartialEq, Eq)]
pub struct ParseMetadata {
    pub lines: usize,
    pub bytes: usize,
    pub node_count: usize,
    pub tree_depth: usize,
    pub has_syntax_errors: bool,
}

/// The result of parsing one file. A failed parse carries no tree.
#[derive(Debug)]
pub struct ParsedFile {
    pub path: String,
    pub language: String,
    pub success: bool,
    pub error: Option<String>,
    pub ast: Option<ASTNode>,
    pub metadata: ParseMetadata,
}

pub open spec fn unsupported_message() -> Seq<char> {
    "Unsupported file extension"@
}

pub open spec fn parse_failed_message() -> Seq<char> {
    "Parse failed"@
}

pub open spec fn unavailable_message(language: Seq<char>) -> Seq<char> {
    "Parser not available for "@ + language
}

/// The language reported for a path whose extension is not registered.
pub open spec fn unknown_language() -> Seq<char> {
    "unknown"@
}

/// The unsupported-extension message differs from the other two reasons.
pub proof fn lemma_messages_differ(language: Seq<char>)
    ensures
        unsupported_message() != unavailable_message(language),
        unsupported_message() != parse_failed_message(),
{
    reveal_strlit("Unsupported file extension");
    reveal_strlit("Parser not available for ");
    reveal_strlit("Parse failed");
    assert(unsupported_message()[0] != unavailable_message(language)[0]);
    assert(unsupported_message()[0] != parse_failed_message()[0]);
}

/// The number of newline bytes in `b`.
pub open spec fn newline_count(b: Seq<u8>) -> nat
    decreases b.len(),
{
    if b.len() == 0 {
        0
    } else {
        newline_count(b.drop_last()) + if b.last() == 10u8 {
            1nat
        } else {
            0nat
        }
    }
}

/// The number of lines of a text: one per newline, plus one for a last line
/// that does not end in a newline. The empty text has no lines.
pub open spec fn line_count(b: Seq<u8>) -> nat {
    newline_count(b) + if b.len() > 0 && b.last() != 10u8 {
        1nat
    } else {
        0nat
    }
}

proof fn lemma_newline_count_bound(b: Seq<u8>)
    ensures
        newline_count(b) <= b.len(),
    decreases b.len(),
{
    if b.len() > 0 {
        lemma_newline_count_bound(b.drop_last());
    }
}

/// The number of lines of `content`, counted as `line_count` says.
pub fn count_lines(content: &str) -> (r: usize)
    ensures
        r == line_count(content.spec_bytes()),
{
    let b = content.as_bytes();
    let mut n: usize = 0;
    let mut i: usize = 0;
    while i < b.len()
        invariant
            0 <= i <= b@.len(),
            n == newline_count(b@.subrange(0, i as int)),
            n <= i,
        decreases b@.len() - i,
    {
        assert(b@.subrange(0, i + 1).drop_last() =~= b@.subrange(0, i as int));
        if b[i] == 10u8 {
            n += 1;
        }
        i += 1;
    }
    assert(b@.subrange(0, i as int) =~= b@);
    if b.len() > 0 && b[b.len() - 1] != 10u8 {
        proof {
            lemma_newline_count_bound(b@.drop_last());
        }
        n + 1
    } else {
        n
    }
}

impl ParseMetadata {
    /// All counts zero and no syntax errors: the metadata of a failed parse.
    pub fn empty() -> (r: ParseMetadata)
        ensures
            r.lines == 0,
            r.bytes == 0,
            r.node_count == 0,
            r.tree_depth == 0,
            !r.has_syntax_errors,
    {
        ParseMetadata { lines: 0, bytes: 0, node_count: 0, tree_depth: 0, has_syntax_errors: false }
    }

    pub open spec fn is_empty(&self) -> bool {
        self.lines == 0 && self.bytes == 0 && self.node_count == 0 && self.tree_depth == 0
            && !self.has_syntax_errors
    }
}

impl ParsedFile {
    /// A failed parse never carries a tree.
    pub open spec fn wf(&self) -> bool {
        !self.success ==> self.ast is None
    }

    /// The failed result for `path` with the given language and reason.
    pub fn failure(path: &str, language: String, error: String) -> (r: ParsedFile)
        ensures
            r.wf(),
            r.path@ == path@,
            r.language == language,
            !r.success,
            r.error == Some(error),
            r.ast is None,
            r.metadata.is_empty(),
    {
        ParsedFile {
            path: String::from_str(path),
            language,
            success: false,
            error: Some(error),
            ast: None,
            metadata: ParseMetadata::empty(),
        }
    }

    /// The result for a path whose extension is not registered.
    pub fn unsupported(path: &str) -> (r: ParsedFile)
        ensures
            r.wf(),
            r.path@ == path@,
            r.language@ == unknown_language(),
            !r.success,
            r.error matches Some(e) && e@ == unsupported_message(),
            r.ast is None,
            r.metadata.is_empty(),
    {
        ParsedFile::failure(
            path,
            String::from_str("unknown"),
            String::from_str("Unsupported file extension"),
        )
    }

    /// The result for a language whose grammar could not be loaded.
    pub fn parser_unavailable(path: &str, language: &str) -> (r: ParsedFile)
        ensures
            r.wf(),
            r.path@ == path@,
            r.language@ == language@,
            !r.success,
            r.error matches Some(e) && e@ == unavailable_message(language@),
            r.ast is None,
            r.metadata.is_empty(),
    {
        let message = String::from_str("Parser not available for ").concat(language);
        ParsedFile::failure(path, String::from_str(language), message)
    }

    /// The result when the parser produced no tree.
    pub fn parse_failed(path: &str, language: &str) -> (r: ParsedFile)
        ensures
            r.wf(),
            r.path@ == path@,
            r.language@ == language@,
            !r.success,
            r.error matches Some(e) && e@ == parse_failed_message(),
            r.ast is None,
            r.metadata.is_empty(),
    {
        ParsedFile::failure(path, String::from_str(language), String::from_str("Parse failed"))
    }

    /// The successful result for `content`, whose full syntax tree is `tree`:
    /// the metadata is measured over the whole tree, the nested tree keeps
    /// the nodes down to `MAX_AST_DEPTH`.
    pub fn from_tree(
        path: &str,
        language: &str,
        content: &str,
        tree: &SyntaxTree,
        has_syntax_errors: bool,
    ) -> (r: ParsedFile)
        requires
            tree.wf(),
        ensures
            r.wf(),
            r.path@ == path@,
            r.language@ == language@,
            r.success,
            r.error is None,
            r.ast matches Some(a) && mirrors(
                preorder(a, 0),
                within_depth(tree.nodes@, MAX_AST_DEPTH as int),
            ) && bounded(a, 0, MAX_AST_DEPTH as int),
            r.metadata.lines == line_count(content.spec_bytes()),
            r.metadata.bytes == content.spec_bytes().len(),
            r.metadata.node_count == tree.nodes@.len(),
            r.metadata.node_count >= 1,
            r.metadata.tree_depth == max_depth(tree.nodes@),
            r.metadata.has_syntax_errors == has_syntax_errors,
    {
        let ast = tree.to_ast(MAX_AST_DEPTH);
        let metadata = ParseMetadata {
            lines: count_lines(content),
            bytes: content.as_bytes().len(),
            node_count: tree.node_count(),
            tree_depth: tree.tree_depth(),
            has_syntax_errors,
        };
        ParsedFile {
            path: String::from_str(path),
            language: String::from_str(language),
            success: true,
            error: None,
            ast: Some(ast),
            metadata,
        }
    }
}

} // verus!
