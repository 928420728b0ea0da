//! Syntax trees from tree-sitter, read into a flat list of nodes in document
//! order that the rest of the analysis works on.
use vstd::prelude::*;

use crate::language::LanguageKind;
use vstd::string::StringSliceAdditionalSpecFns;

verus! {

#[verifier::external_type_specification]
#[verifier::external_body]
pub struct ExParser(tree_sitter::Parser);

#[verifier::external_type_specification]
#[verifier::external_body]
pub struct ExLanguage(tree_sitter::Language);

#[verifier::external_type_specification]
#[verifier::external_body]
pub struct ExLanguageError(tree_sitter::LanguageError);

#[verifier::external_type_specification]
#[verifier::external_body]
pub struct ExTree(tree_sitter::Tree);

#[verifier::external_type_specification]
#[verifier::external_body]
pub struct ExNode<'a>(tree_sitter::Node<'a>);

#[verifier::external_type_specification]
#[verifier::external_body]
pub struct ExTreeCursor<'a>(tree_sitter::TreeCursor<'a>);

/// `tree_sitter_rust::LANGUAGE`, the Rust grammar.
#[verifier::external_body]
fn rust_grammar() -> tree_sitter::Language {
    tree_sitter_rust::LANGUAGE.into()
}

/// `tree_sitter_javascript::LANGUAGE`, the JavaScript grammar.
#[verifier::external_body]
fn javascript_grammar() -> tree_sitter::Language {
    tree_sitter_javascript::LANGUAGE.into()
}

/// `tree_sitter_typescript::LANGUAGE_TYPESCRIPT`, the TypeScript grammar.
#[verifier::external_body]
fn typescript_grammar() -> tree_sitter::Language {
    tree_sitter_typescript::LANGUAGE_TYPESCRIPT.into()
}

/// `tree_sitter_typescript::LANGUAGE_TSX`, the TSX grammar.
#[verifier::external_body]
fn tsx_grammar() -> tree_sitter::Language {
    tree_sitter_typescript::LANGUAGE_TSX.into()
}

/// `tree_sitter_python::LANGUAGE`, the Python grammar.
#[verifier::external_body]
fn python_grammar() -> tree_sitter::Language {
    tree_sitter_python::LANGUAGE.into()
}

/// `tree_sitter_go::LANGUAGE`, the Go grammar.
#[verifier::external_body]
fn go_grammar() -> tree_sitter::Language {
    tree_sitter_go::LANGUAGE.into()
}

impl LanguageKind {
    /// The tree-sitter grammar of a language. Vue files are split into blocks
    /// first and have no grammar of their own.
    pub fn parser_language(self) -> tree_sitter::Language
        requires
            self != LanguageKind::Vue,
    {
        match self {
            LanguageKind::Rust => rust_grammar(),
            LanguageKind::JavaScript => javascript_grammar(),
            LanguageKind::TypeScript => typescript_grammar(),
            LanguageKind::Tsx => tsx_grammar(),
            LanguageKind::Python => python_grammar(),
            LanguageKind::Go => go_grammar(),
            LanguageKind::Vue => {
                // excluded by the precondition
                proof {
                    assert(false);
                }
                go_grammar()
            },
        }
    }
}

/// `tree_sitter::Parser::new`: a parser with no language.
#[verifier::external_body]
fn new_parser() -> tree_sitter::Parser {
    tree_sitter::Parser::new()
}

/// `tree_sitter::Parser::set_language`: fails when the grammar was generated
/// for an incompatible tree-sitter version. Which outcome comes is not stated.
#[verifier::external_body]
fn set_parser_language(
    parser: &mut tree_sitter::Parser,
    language: &tree_sitter::Language,
) -> Result<(), tree_sitter::LanguageError> {
    parser.set_language(language)
}

/// The `Display` text of `tree_sitter::LanguageError`; what it says is not
/// stated.
#[verifier::external_body]
fn language_error_text(err: &tree_sitter::LanguageError) -> String {
    format!("{err}")
}

/// `tree_sitter::Parser::parse` with no previous tree: `None` when the parser
/// has no language or the parse was cancelled. Which outcome comes is not
/// stated.
#[verifier::external_body]
fn parse_text(parser: &mut tree_sitter::Parser, text: &str) -> Option<tree_sitter::Tree> {
    parser.parse(text, None)
}

/// `tree_sitter::Tree::root_node`.
#[verifier::external_body]
fn tree_root<'a>(tree: &'a tree_sitter::Tree) -> tree_sitter::Node<'a> {
    tree.root_node()
}

/// `tree_sitter::Tree::walk`: a cursor on the root node.
#[verifier::external_body]
fn tree_walk<'a>(tree: &'a tree_sitter::Tree) -> tree_sitter::TreeCursor<'a> {
    tree.walk()
}

/// `tree_sitter::Node::has_error`: whether the subtree holds a syntax error.
#[verifier::external_body]
fn node_has_error(node: &tree_sitter::Node) -> bool {
    node.has_error()
}

/// `tree_sitter::Node::descendant_count`: the visible nodes of the subtree,
/// the node itself included, so at least one. The count is a `u32` in
/// tree-sitter.
#[verifier::external_body]
fn node_descendant_count(node: &tree_sitter::Node) -> (r: usize)
    ensures
        1 <= r <= u32::MAX,
{
    node.descendant_count()
}

/// `tree_sitter::TreeCursor::goto_descendant`: moves the cursor to the
/// descendant with the given document-order index.
#[verifier::external_body]
fn cursor_goto_descendant(cursor: &mut tree_sitter::TreeCursor, index: usize) {
    cursor.goto_descendant(index)
}

/// `tree_sitter::TreeCursor::node`: the node under the cursor.
#[verifier::external_body]
fn cursor_node<'a>(cursor: &tree_sitter::TreeCursor<'a>) -> tree_sitter::Node<'a> {
    cursor.node()
}

/// `tree_sitter::TreeCursor::depth`: how far below the root the cursor is.
#[verifier::external_body]
fn cursor_depth(cursor: &tree_sitter::TreeCursor) -> u32 {
    cursor.depth()
}

/// `tree_sitter::Node::id`: a number that tells the nodes of a tree apart.
#[verifier::external_body]
fn node_id(node: &tree_sitter::Node) -> usize {
    node.id()
}

/// `tree_sitter::Node::kind`: the grammar's name for the node's type.
#[verifier::external_body]
fn node_kind(node: &tree_sitter::Node) -> String {
    node.kind().to_string()
}

/// `tree_sitter::Node::is_named`.
#[verifier::external_body]
fn node_is_named(node: &tree_sitter::Node) -> bool {
    node.is_named()
}

/// The row of `tree_sitter::Node::start_position`, counted from 0; a `u32` in
/// tree-sitter.
#[verifier::external_body]
fn node_start_row(node: &tree_sitter::Node) -> (r: usize)
    ensures
        r <= u32::MAX,
{
    node.start_position().row
}

/// The row of `tree_sitter::Node::end_position`, counted from 0; a `u32` in
/// tree-sitter.
#[verifier::external_body]
fn node_end_row(node: &tree_sitter::Node) -> (r: usize)
    ensures
        r <= u32::MAX,
{
    node.end_position().row
}

/// `tree_sitter::Node::start_byte`; a `u32` in tree-sitter.
#[verifier::external_body]
fn node_start_byte(node: &tree_sitter::Node) -> (r: usize)
    ensures
        r <= u32::MAX,
{
    node.start_byte()
}

/// `tree_sitter::Node::end_byte`; a `u32` in tree-sitter.
#[verifier::external_body]
fn node_end_byte(node: &tree_sitter::Node) -> (r: usize)
    ensures
        r <= u32::MAX,
{
    node.end_byte()
}

/// `tree_sitter::Node::child_by_field_name`: the first child in the given
/// field.
#[verifier::external_body]
fn node_child_by_field<'a>(node: &tree_sitter::Node<'a>, field: &str) -> Option<
    tree_sitter::Node<'a>,
> {
    node.child_by_field_name(field)
}

/// A node of a syntax tree, as the analysis reads it. The nodes of a tree are
/// listed in document order; a node's subtree is the run of nodes after it
/// that are deeper than it.
#[derive(Debug)]
pub struct SyntaxNode {
    /// Tells the nodes of one tree apart.
    pub id: usize,
    pub kind: String,
    pub is_named: bool,
    /// 0 for the root.
    pub depth: usize,
    /// Rows and byte offsets as tree-sitter gives them, rows counted from 0.
    pub start_row: usize,
    pub end_row: usize,
    pub start_byte: usize,
    pub end_byte: usize,
    /// The ids of the children in the fields `name`, `function` and `callee`.
    pub name_field: Option<usize>,
    pub function_field: Option<usize>,
    pub callee_field: Option<usize>,
}

/// The rows of every node are at most `u32::MAX`.
pub open spec fn rows_fit_u32(nodes: Seq<SyntaxNode>) -> bool {
    forall|i: int|
        0 <= i < nodes.len() ==> (#[trigger] nodes[i]).start_row <= u32::MAX && nodes[i].end_row
            <= u32::MAX
}

fn field_child_id(node: &tree_sitter::Node, field: &str) -> Option<usize> {
    match node_child_by_field(node, field) {
        Some(child) => Some(node_id(&child)),
        None => None,
    }
}

/// A list of a tree's nodes that starts with the root, at depth 0.
pub open spec fn root_first(nodes: Seq<SyntaxNode>) -> bool {
    nodes.len() >= 1 && nodes[0].depth == 0
}

/// A node of a tree as the analysis reads it, at the given depth.
fn read_node(node: &tree_sitter::Node, depth: usize) -> (r: SyntaxNode)
    ensures
        r.depth == depth,
        r.start_row <= u32::MAX,
        r.end_row <= u32::MAX,
{
    SyntaxNode {
        id: node_id(node),
        kind: node_kind(node),
        is_named: node_is_named(node),
        depth,
        start_row: node_start_row(node),
        end_row: node_end_row(node),
        start_byte: node_start_byte(node),
        end_byte: node_end_byte(node),
        name_field: field_child_id(node, "name"),
        function_field: field_child_id(node, "function"),
        callee_field: field_child_id(node, "callee"),
    }
}

/// The visible nodes of a tree in document order, with their depths below
/// the root: the root first, at depth 0, then each of its descendants in
/// turn.
pub fn syntax_nodes(tree: &tree_sitter::Tree) -> (r: Vec<SyntaxNode>)
    ensures
        root_first(r@),
        rows_fit_u32(r@),
        r@.len() <= u32::MAX,
{
    let root = tree_root(tree);
    let count = node_descendant_count(&root);
    let mut out: Vec<SyntaxNode> = Vec::new();
    out.push(read_node(&root, 0));
    let mut cursor = tree_walk(tree);
    for i in 1..count
        invariant
            root_first(out@),
            rows_fit_u32(out@),
            out@.len() == i,
            count <= u32::MAX,
    {
        cursor_goto_descendant(&mut cursor, i);
        let node = cursor_node(&cursor);
        let depth = cursor_depth(&cursor);
        out.push(read_node(&node, depth as usize));
    }
    out
}

/// A parse that produced a tree: its nodes and whether the tree holds a
/// syntax error.
pub struct ParsedSyntax {
    pub nodes: Vec<SyntaxNode>,
    pub has_error: bool,
}

/// Why no tree came out of a parse.
pub enum ParseFailure {
    /// The grammar does not fit this tree-sitter version; the text says why.
    Language(String),
    /// The parser returned no usable tree.
    NoTree,
}

/// The rows of every node are at most `n`.
pub open spec fn rows_within(nodes: Seq<SyntaxNode>, n: int) -> bool {
    forall|i: int|
        0 <= i < nodes.len() ==> (#[trigger] nodes[i]).start_row <= n && nodes[i].end_row <= n
}

/// Parses text with the grammar of a language. A row counts the line breaks
/// before a position of the text, so no row exceeds the text's length in
/// bytes; a tree whose rows do (tree-sitter gives none) is not used.
pub fn parse_syntax(language: LanguageKind, content: &str) -> (r: Result<ParsedSyntax, ParseFailure>)
    requires
        language != LanguageKind::Vue,
    ensures
        r matches Ok(p) ==> root_first(p.nodes@) && rows_fit_u32(p.nodes@) && p.nodes@.len()
            <= u32::MAX && rows_within(p.nodes@, content.spec_bytes().len() as int),
{
    let mut parser = new_parser();
    let grammar = language.parser_language();
    match set_parser_language(&mut parser, &grammar) {
        Ok(()) => {},
        Err(e) => {
            return Err(ParseFailure::Language(language_error_text(&e)));
        },
    }
    let tree = match parse_text(&mut parser, content) {
        Some(t) => t,
        None => {
            return Err(ParseFailure::NoTree);
        },
    };
    let root = tree_root(&tree);
    let has_error = node_has_error(&root);
    let nodes = syntax_nodes(&tree);
    let limit = content.as_bytes().len();
    let n = nodes.len();
    for i in 0..n
        invariant
            n == nodes@.len(),
            limit == content.spec_bytes().len(),
            rows_within(nodes@.take(i as int), limit as int),
    {
        if nodes[i].start_row > limit || nodes[i].end_row > limit {
            return Err(ParseFailure::NoTree);
        }
        assert(nodes@.take(i + 1) =~= nodes@.take(i as int).push(nodes@[i as int]));
    }
    assert(nodes@.take(n as int) =~= nodes@);
    Ok(ParsedSyntax { nodes, has_error })
}

} // verus!
