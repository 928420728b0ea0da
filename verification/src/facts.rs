//! Facts read from the nodes of a syntax tree: the text of a node, the names
//! of declarations, imports, exports and calls, and fingerprints of larger
//! nodes for clone detection.
use vstd::prelude::*;

use crate::model::{
    CallFact, CallView, ExportFact, ExportView, ImportFact, ImportView, Span, SymbolFact,
    SymbolView,
};
use crate::language::{language_name, LanguageKind};
use crate::model::{
    ast_span_views, call_views, export_views, import_views, node_summary_views, symbol_views,
    AstSpanRecord, AstSpanView, FileSummary, NodeSummary, NodeSummaryView,
};
use crate::normalize::{
    dedup_spec, dedup_vec, hash_string, hash_string_spec, nonempty_normalized, normalized_lines,
    strip_quotes, strip_quotes_spec,
};
use crate::syntax::SyntaxNode;
use crate::text::{
    ascii_lower_seq, char_is_digit, chars_eq, contains, contains_exec, from_chars, is_digit,
    join_strings_with, join_with, lines, opt_view, starts_with, starts_with_exec, str_is,
    string_views, to_ascii_lowercase, to_chars, trim, trim_exec,
};
use vstd::string::StringSliceAdditionalSpecFns;
use vstd::utf8::{decode_utf8, encode_utf8, valid_utf8};

verus! {

broadcast use vstd::utf8::encode_utf8_decode_utf8;

// ---------------------------------------------------------------------------
// Text of a node
// ---------------------------------------------------------------------------

/// `std::str::from_utf8(bytes).ok()`: the string slice with exactly these
/// bytes, when they are valid UTF-8.
#[verifier::external_body]
fn utf8_str(bytes: &[u8]) -> (r: Option<&str>)
    ensures
        r is Some <==> valid_utf8(bytes@),
        r matches Some(s) ==> s.spec_bytes() == bytes@,
{
    std::str::from_utf8(bytes).ok()
}

/// The source text a node covers, when its byte range lies in the source and
/// holds valid UTF-8.
pub open spec fn raw_text(src: Seq<u8>, n: SyntaxNode) -> Option<Seq<char>> {
    if n.start_byte <= n.end_byte && n.end_byte <= src.len() && valid_utf8(
        src.subrange(n.start_byte as int, n.end_byte as int),
    ) {
        Some(decode_utf8(src.subrange(n.start_byte as int, n.end_byte as int)))
    } else {
        None
    }
}

/// The source text of a node, or nothing.
pub open spec fn raw_text_or_empty(src: Seq<u8>, n: SyntaxNode) -> Seq<char> {
    match raw_text(src, n) {
        Some(t) => t,
        None => seq![],
    }
}

/// The trimmed text of a node, when it is not empty.
pub open spec fn node_text_spec(src: Seq<u8>, n: SyntaxNode) -> Option<Seq<char>> {
    match raw_text(src, n) {
        Some(t) => if trim(t).len() > 0 {
            Some(trim(t))
        } else {
            None
        },
        None => None,
    }
}

/// The source text of a node.
pub fn node_raw_text(src: &[u8], n: &SyntaxNode) -> (r: Option<Vec<char>>)
    ensures
        match r {
            Some(v) => raw_text(src@, *n) == Some(v@),
            None => raw_text(src@, *n) is None,
        },
{
    if !(n.start_byte <= n.end_byte && n.end_byte <= src.len()) {
        return None;
    }
    let slice = &src[n.start_byte..n.end_byte];
    match utf8_str(slice) {
        Some(s) => {
            let v = to_chars(s);
            assert(decode_utf8(encode_utf8(s@)) == s@);
            Some(v)
        },
        None => None,
    }
}

/// The trimmed text of a node, when it is not empty.
pub fn node_text(src: &[u8], n: &SyntaxNode) -> (r: Option<Vec<char>>)
    ensures
        match r {
            Some(v) => node_text_spec(src@, *n) == Some(v@),
            None => node_text_spec(src@, *n) is None,
        },
{
    match node_raw_text(src, n) {
        Some(t) => {
            let tt = trim_exec(t.as_slice());
            if tt.len() > 0 {
                Some(tt)
            } else {
                None
            }
        },
        None => None,
    }
}

// ---------------------------------------------------------------------------
// The shape of the node list
// ---------------------------------------------------------------------------

/// The end of the subtree of node `i`, looking from position `k` on: the
/// first later node that is not deeper than node `i`.
pub open spec fn subtree_end_from(ns: Seq<SyntaxNode>, i: int, k: int) -> int
    decreases ns.len() - k,
{
    if k < 0 || k >= ns.len() {
        ns.len() as int
    } else if ns[k].depth <= ns[i].depth {
        k
    } else {
        subtree_end_from(ns, i, k + 1)
    }
}

/// Node `i` and its descendants are the nodes `i..subtree_end(ns, i)`.
pub open spec fn subtree_end(ns: Seq<SyntaxNode>, i: int) -> int {
    subtree_end_from(ns, i, i + 1)
}

/// Node `j` is a child of node `i`.
pub open spec fn is_child(ns: Seq<SyntaxNode>, i: int, j: int) -> bool {
    i < j < subtree_end(ns, i) && ns[j].depth == ns[i].depth + 1
}

/// Where the search for the end of a subtree stops, stated without recursion.
pub proof fn lemma_subtree_end_from(ns: Seq<SyntaxNode>, i: int, k: int)
    requires
        0 <= i < k <= ns.len(),
    ensures
        k <= subtree_end_from(ns, i, k) <= ns.len(),
        forall|m: int| k <= m < subtree_end_from(ns, i, k) ==> ns[m].depth > ns[i].depth,
        subtree_end_from(ns, i, k) < ns.len() ==> ns[subtree_end_from(ns, i, k)].depth
            <= ns[i].depth,
    decreases ns.len() - k,
{
    if k < ns.len() && ns[k].depth > ns[i].depth {
        lemma_subtree_end_from(ns, i, k + 1);
    }
}

/// The first child `j' >= j` of node `i` that satisfies `p`.
pub open spec fn first_child_from(ns: Seq<SyntaxNode>, i: int, j: int, p: spec_fn(int) -> bool) -> Option<
    int,
>
    decreases ns.len() - j,
{
    if j < 0 || j >= ns.len() || j >= subtree_end(ns, i) {
        None
    } else if is_child(ns, i, j) && p(j) {
        Some(j)
    } else {
        first_child_from(ns, i, j + 1, p)
    }
}

/// The first node whose id is `id`, from position `k` on.
pub open spec fn index_of_id_from(ns: Seq<SyntaxNode>, id: usize, k: int) -> Option<int>
    decreases ns.len() - k,
{
    if k < 0 || k >= ns.len() {
        None
    } else if ns[k].id == id {
        Some(k)
    } else {
        index_of_id_from(ns, id, k + 1)
    }
}

/// The trimmed text of the node with the given id.
pub open spec fn text_of_id(ns: Seq<SyntaxNode>, src: Seq<u8>, id: usize) -> Option<Seq<char>> {
    match index_of_id_from(ns, id, 0) {
        Some(k) => node_text_spec(src, ns[k]),
        None => None,
    }
}

/// The trimmed text of the node with the given id.
pub fn node_text_of_id(ns: &[SyntaxNode], src: &[u8], id: usize) -> (r: Option<Vec<char>>)
    ensures
        match r {
            Some(v) => text_of_id(ns@, src@, id) == Some(v@),
            None => text_of_id(ns@, src@, id) is None,
        },
{
    let n = ns.len();
    let mut k: usize = 0;
    while k < n
        invariant
            k <= n == ns@.len(),
            index_of_id_from(ns@, id, 0) == index_of_id_from(ns@, id, k as int),
        decreases n - k,
    {
        if ns[k].id == id {
            return node_text(src, &ns[k]);
        }
        k += 1;
    }
    None
}

/// Walks the children of node `i` from position `j` on: the position where
/// the walk stops is the subtree end.
proof fn lemma_child_step(ns: Seq<SyntaxNode>, i: int, j: int)
    requires
        0 <= i < j < ns.len(),
        subtree_end(ns, i) == subtree_end_from(ns, i, j),
        ns[j].depth > ns[i].depth,
    ensures
        subtree_end(ns, i) == subtree_end_from(ns, i, j + 1),
        j < subtree_end(ns, i),
{
    lemma_subtree_end_from(ns, i, j + 1);
}

// ---------------------------------------------------------------------------
// Names, strings and callees
// ---------------------------------------------------------------------------

/// A child that can name its parent: an identifier with text.
pub open spec fn is_name_child(ns: Seq<SyntaxNode>, src: Seq<u8>, j: int) -> bool {
    contains(ns[j].kind@, "identifier"@) && node_text_spec(src, ns[j]) is Some
}

/// The predicate of a name child, as a closure over positions.
pub open spec fn name_child_pred(ns: Seq<SyntaxNode>, src: Seq<u8>) -> spec_fn(int) -> bool {
    |j: int| is_name_child(ns, src, j)
}

/// The name of a node: the text of its `name` field, or else of its first
/// identifier child with text.
pub open spec fn extract_name_spec(ns: Seq<SyntaxNode>, src: Seq<u8>, i: int) -> Option<Seq<char>> {
    match ns[i].name_field {
        Some(id) => text_of_id(ns, src, id),
        None => match first_child_from(ns, i, i + 1, name_child_pred(ns, src)) {
            Some(j) => node_text_spec(src, ns[j]),
            None => None,
        },
    }
}

/// The name of node `i`: the text of its `name` field, or else of its first
/// identifier child with text.
pub fn extract_name(ns: &[SyntaxNode], src: &[u8], i: usize) -> (r: Option<Vec<char>>)
    requires
        i < ns@.len(),
    ensures
        match r {
            Some(v) => extract_name_spec(ns@, src@, i as int) == Some(v@),
            None => extract_name_spec(ns@, src@, i as int) is None,
        },
{
    if let Some(id) = ns[i].name_field {
        return node_text_of_id(ns, src, id);
    }
    let ident = to_chars("identifier");
    let n = ns.len();
    let d = ns[i].depth;
    let mut j = i + 1;
    let ghost p = name_child_pred(ns@, src@);
    while j < n && ns[j].depth > d
        invariant
            i < j <= n == ns@.len(),
            d == ns@[i as int].depth,
            ident@ == "identifier"@,
            subtree_end(ns@, i as int) == subtree_end_from(ns@, i as int, j as int),
            p == name_child_pred(ns@, src@),
            ns@[i as int].name_field is None,
            first_child_from(ns@, i as int, i + 1, p) == first_child_from(ns@, i as int, j as int, p),
        decreases n - j,
    {
        proof {
            lemma_child_step(ns@, i as int, j as int);
        }
        if ns[j].depth == d + 1 && contains_exec(to_chars(ns[j].kind.as_str()).as_slice(), ident.as_slice()) {
            let t = node_text(src, &ns[j]);
            if t.is_some() {
                assert(p(j as int));
                return t;
            }
        }
        j += 1;
    }
    proof {
        lemma_subtree_end_from(ns@, i as int, j as int);
    }
    None
}

/// The predicate of a string child, as a closure over positions.
pub open spec fn string_child_pred(ns: Seq<SyntaxNode>) -> spec_fn(int) -> bool {
    |j: int| contains(ns[j].kind@, "string"@)
}

/// The text of the first string child of a node, its quotes stripped.
pub open spec fn string_like_spec(ns: Seq<SyntaxNode>, src: Seq<u8>, i: int) -> Option<Seq<char>> {
    match first_child_from(ns, i, i + 1, string_child_pred(ns)) {
        Some(j) => match node_text_spec(src, ns[j]) {
            Some(t) => Some(strip_quotes_spec(t)),
            None => None,
        },
        None => None,
    }
}

/// The text of the first string child of node `i`, its quotes stripped.
pub fn extract_string_like(ns: &[SyntaxNode], src: &[u8], i: usize) -> (r: Option<String>)
    requires
        i < ns@.len(),
    ensures
        match r {
            Some(v) => string_like_spec(ns@, src@, i as int) == Some(v@),
            None => string_like_spec(ns@, src@, i as int) is None,
        },
{
    let word = to_chars("string");
    let n = ns.len();
    let d = ns[i].depth;
    let mut j = i + 1;
    let ghost p = string_child_pred(ns@);
    while j < n && ns[j].depth > d
        invariant
            i < j <= n == ns@.len(),
            d == ns@[i as int].depth,
            word@ == "string"@,
            subtree_end(ns@, i as int) == subtree_end_from(ns@, i as int, j as int),
            p == string_child_pred(ns@),
            first_child_from(ns@, i as int, i + 1, p) == first_child_from(ns@, i as int, j as int, p),
        decreases n - j,
    {
        proof {
            lemma_child_step(ns@, i as int, j as int);
        }
        if ns[j].depth == d + 1 && contains_exec(to_chars(ns[j].kind.as_str()).as_slice(), word.as_slice()) {
            assert(p(j as int));
            return match node_text(src, &ns[j]) {
                Some(t) => Some(strip_quotes(from_chars(t.as_slice()).as_str())),
                None => None,
            };
        }
        j += 1;
    }
    proof {
        lemma_subtree_end_from(ns@, i as int, j as int);
    }
    None
}

/// A child that can name what a call calls.
pub open spec fn is_callee_kind(kind: Seq<char>) -> bool {
    contains(kind, "identifier"@) || kind == "member_expression"@ || kind == "field_expression"@
        || kind == "selector_expression"@
}

/// The predicate of a callee child, as a closure over positions.
pub open spec fn callee_child_pred(ns: Seq<SyntaxNode>) -> spec_fn(int) -> bool {
    |j: int| is_callee_kind(ns[j].kind@)
}

/// What a call calls: the text of its `function` field, else of its `callee`
/// field, else of its first identifier or member-access child.
pub open spec fn callee_name_spec(ns: Seq<SyntaxNode>, src: Seq<u8>, i: int) -> Option<Seq<char>> {
    match ns[i].function_field {
        Some(id) => text_of_id(ns, src, id),
        None => match ns[i].callee_field {
            Some(id) => text_of_id(ns, src, id),
            None => match first_child_from(ns, i, i + 1, callee_child_pred(ns)) {
                Some(j) => node_text_spec(src, ns[j]),
                None => None,
            },
        },
    }
}

fn is_callee_kind_exec(kind: &String) -> (r: bool)
    ensures
        r == is_callee_kind(kind@),
{
    let ident = to_chars("identifier");
    contains_exec(to_chars(kind.as_str()).as_slice(), ident.as_slice()) || *kind == String::from_str(
        "member_expression",
    ) || *kind == String::from_str("field_expression") || *kind == String::from_str(
        "selector_expression",
    )
}

/// What the call at node `i` calls.
pub fn extract_callee_name(ns: &[SyntaxNode], src: &[u8], i: usize) -> (r: Option<Vec<char>>)
    requires
        i < ns@.len(),
    ensures
        match r {
            Some(v) => callee_name_spec(ns@, src@, i as int) == Some(v@),
            None => callee_name_spec(ns@, src@, i as int) is None,
        },
{
    if let Some(id) = ns[i].function_field {
        return node_text_of_id(ns, src, id);
    }
    if let Some(id) = ns[i].callee_field {
        return node_text_of_id(ns, src, id);
    }
    let n = ns.len();
    let d = ns[i].depth;
    let mut j = i + 1;
    let ghost p = callee_child_pred(ns@);
    while j < n && ns[j].depth > d
        invariant
            i < j <= n == ns@.len(),
            d == ns@[i as int].depth,
            subtree_end(ns@, i as int) == subtree_end_from(ns@, i as int, j as int),
            p == callee_child_pred(ns@),
            ns@[i as int].function_field is None,
            ns@[i as int].callee_field is None,
            first_child_from(ns@, i as int, i + 1, p) == first_child_from(ns@, i as int, j as int, p),
        decreases n - j,
    {
        proof {
            lemma_child_step(ns@, i as int, j as int);
        }
        if ns[j].depth == d + 1 && is_callee_kind_exec(&ns[j].kind) {
            assert(p(j as int));
            return node_text(src, &ns[j]);
        }
        j += 1;
    }
    proof {
        lemma_subtree_end_from(ns@, i as int, j as int);
    }
    None
}

/// `"public"` when the node's text holds `pub ` or `public ` or starts with
/// `export `, else `"local"`.
pub open spec fn visibility_spec(src: Seq<u8>, n: SyntaxNode) -> Seq<char> {
    let t = raw_text_or_empty(src, n);
    if contains(t, "pub "@) || contains(t, "public "@) || starts_with(t, "export "@) {
        "public"@
    } else {
        "local"@
    }
}

/// `"public"` or `"local"`, from the text of a declaration.
pub fn classify_visibility(src: &[u8], n: &SyntaxNode) -> (r: String)
    ensures
        r@ == visibility_spec(src@, *n),
{
    let text = match node_raw_text(src, n) {
        Some(t) => t,
        None => Vec::new(),
    };
    let t = text.as_slice();
    if contains_exec(t, to_chars("pub ").as_slice()) || contains_exec(t, to_chars("public ").as_slice())
        || starts_with_exec(t, to_chars("export ").as_slice()) {
        String::from_str("public")
    } else {
        String::from_str("local")
    }
}


// ---------------------------------------------------------------------------
// Kinds of nodes
// ---------------------------------------------------------------------------

/// Whether a node kind equals the given text.
pub fn kind_is(kind: &String, lit: &str) -> (r: bool)
    ensures
        r == (kind@ == lit@),
{
    *kind == String::from_str(lit)
}

/// The node kinds that declare a symbol.
pub open spec fn matches_symbol_kind_spec(kind: Seq<char>) -> bool {
    ||| kind == "function_item"@
    ||| kind == "function_declaration"@
    ||| kind == "function_definition"@
    ||| kind == "function"@
    ||| kind == "method_definition"@
    ||| kind == "method_declaration"@
    ||| kind == "generator_function_declaration"@
    ||| kind == "arrow_function"@
    ||| kind == "class_declaration"@
    ||| kind == "class_definition"@
    ||| kind == "struct_item"@
    ||| kind == "enum_item"@
    ||| kind == "trait_item"@
    ||| kind == "impl_item"@
    ||| kind == "interface_declaration"@
    ||| kind == "type_alias_declaration"@
    ||| kind == "lexical_declaration"@
    ||| kind == "variable_declaration"@
    ||| kind == "const_item"@
    ||| kind == "static_item"@
}

/// Whether a node kind declares a symbol.
pub fn matches_symbol_kind(kind: &str) -> (r: bool)
    ensures
        r == matches_symbol_kind_spec(kind@),
{
    let k = String::from_str(kind);
    kind_is(&k, "function_item") || kind_is(&k, "function_declaration") || kind_is(
        &k,
        "function_definition",
    ) || kind_is(&k, "function") || kind_is(&k, "method_definition") || kind_is(
        &k,
        "method_declaration",
    ) || kind_is(&k, "generator_function_declaration") || kind_is(&k, "arrow_function")
        || kind_is(&k, "class_declaration") || kind_is(&k, "class_definition") || kind_is(
        &k,
        "struct_item",
    ) || kind_is(&k, "enum_item") || kind_is(&k, "trait_item") || kind_is(&k, "impl_item")
        || kind_is(&k, "interface_declaration") || kind_is(&k, "type_alias_declaration")
        || kind_is(&k, "lexical_declaration") || kind_is(&k, "variable_declaration") || kind_is(
        &k,
        "const_item",
    ) || kind_is(&k, "static_item")
}

/// The class of symbol that a declaring node kind stands for: the first of
/// function, class, struct, enum, interface, impl, type alias, constant and
/// declaration whose word the kind holds, else the kind itself.
pub open spec fn symbol_class(kind: Seq<char>) -> Seq<char> {
    if contains(kind, "function"@) || contains(kind, "method"@) || kind == "arrow_function"@ {
        "function"@
    } else if contains(kind, "class"@) {
        "class"@
    } else if contains(kind, "struct"@) {
        "struct"@
    } else if contains(kind, "enum"@) {
        "enum"@
    } else if contains(kind, "trait"@) || contains(kind, "interface"@) {
        "interface"@
    } else if contains(kind, "impl"@) {
        "impl"@
    } else if contains(kind, "type_alias"@) {
        "type_alias"@
    } else if contains(kind, "const"@) || contains(kind, "static"@) {
        "constant"@
    } else if contains(kind, "declaration"@) {
        "declaration"@
    } else {
        kind
    }
}

/// The class of symbol that a node kind stands for.
pub fn classify_symbol_kind(kind: &str) -> (r: String)
    ensures
        r@ == symbol_class(kind@),
{
    let k = to_chars(kind);
    let ks = k.as_slice();
    if contains_exec(ks, to_chars("function").as_slice()) || contains_exec(
        ks,
        to_chars("method").as_slice(),
    ) || str_is(kind, to_chars("arrow_function").as_slice()) {
        String::from_str("function")
    } else if contains_exec(ks, to_chars("class").as_slice()) {
        String::from_str("class")
    } else if contains_exec(ks, to_chars("struct").as_slice()) {
        String::from_str("struct")
    } else if contains_exec(ks, to_chars("enum").as_slice()) {
        String::from_str("enum")
    } else if contains_exec(ks, to_chars("trait").as_slice()) || contains_exec(
        ks,
        to_chars("interface").as_slice(),
    ) {
        String::from_str("interface")
    } else if contains_exec(ks, to_chars("impl").as_slice()) {
        String::from_str("impl")
    } else if contains_exec(ks, to_chars("type_alias").as_slice()) {
        String::from_str("type_alias")
    } else if contains_exec(ks, to_chars("const").as_slice()) || contains_exec(
        ks,
        to_chars("static").as_slice(),
    ) {
        String::from_str("constant")
    } else if contains_exec(ks, to_chars("declaration").as_slice()) {
        String::from_str("declaration")
    } else {
        String::from_str(kind)
    }
}

/// The node kinds of import statements.
pub open spec fn is_import_kind(kind: Seq<char>) -> bool {
    ||| kind == "use_declaration"@
    ||| kind == "import_statement"@
    ||| kind == "import_declaration"@
    ||| kind == "import_from_statement"@
    ||| kind == "namespace_import"@
}

fn is_import_kind_exec(kind: &String) -> (r: bool)
    ensures
        r == is_import_kind(kind@),
{
    kind_is(kind, "use_declaration") || kind_is(kind, "import_statement") || kind_is(
        kind,
        "import_declaration",
    ) || kind_is(kind, "import_from_statement") || kind_is(kind, "namespace_import")
}

/// The node kinds that export or mark something public.
pub open spec fn is_export_kind(kind: Seq<char>) -> bool {
    contains(kind, "export"@) || kind == "public_field_definition"@ || kind
        == "visibility_modifier"@
}

fn is_export_kind_exec(kind: &String) -> (r: bool)
    ensures
        r == is_export_kind(kind@),
{
    contains_exec(to_chars(kind.as_str()).as_slice(), to_chars("export").as_slice()) || kind_is(
        kind,
        "public_field_definition",
    ) || kind_is(kind, "visibility_modifier")
}

/// The node kinds of calls.
pub open spec fn is_call_kind(kind: Seq<char>) -> bool {
    kind == "call_expression"@ || kind == "call"@ || kind == "invocation_expression"@
}

fn is_call_kind_exec(kind: &String) -> (r: bool)
    ensures
        r == is_call_kind(kind@),
{
    kind_is(kind, "call_expression") || kind_is(kind, "call") || kind_is(
        kind,
        "invocation_expression",
    )
}

/// The kinds of a file's or a block's root, which are never clone candidates.
pub open spec fn is_root_kind(kind: Seq<char>) -> bool {
    ||| kind == "source_file"@
    ||| kind == "program"@
    ||| kind == "module"@
    ||| kind == "script"@
    ||| kind == "chunk"@
    ||| kind == "statement_block"@
    ||| kind == "block"@
}

fn is_root_kind_exec(kind: &String) -> (r: bool)
    ensures
        r == is_root_kind(kind@),
{
    kind_is(kind, "source_file") || kind_is(kind, "program") || kind_is(kind, "module")
        || kind_is(kind, "script") || kind_is(kind, "chunk") || kind_is(kind, "statement_block")
        || kind_is(kind, "block")
}

/// The rows of every node leave room for `extra` more lines after them in a
/// `usize`.
pub open spec fn rows_below(ns: Seq<SyntaxNode>, extra: int) -> bool {
    forall|i: int|
        0 <= i < ns.len() ==> (#[trigger] ns[i]).start_row + 1 + extra <= usize::MAX
            && ns[i].end_row + 1 + extra <= usize::MAX
}

/// The lines a node covers, counted from 1.
pub open spec fn span_of_spec(n: SyntaxNode) -> Span {
    Span { start_line: (n.start_row + 1) as usize, end_line: (n.end_row + 1) as usize }
}

/// The lines a node covers, counted from 1.
pub fn span_of(n: &SyntaxNode) -> (r: Span)
    requires
        n.start_row < usize::MAX,
        n.end_row < usize::MAX,
    ensures
        r == span_of_spec(*n),
{
    Span { start_line: n.start_row + 1, end_line: n.end_row + 1 }
}


// ---------------------------------------------------------------------------
// Facts of one node
// ---------------------------------------------------------------------------

/// The position just past the subtree of node `i`.
pub fn subtree_end_exec(ns: &[SyntaxNode], i: usize) -> (r: usize)
    requires
        i < ns@.len(),
    ensures
        r == subtree_end(ns@, i as int),
        i < r <= ns@.len(),
{
    let n = ns.len();
    let d = ns[i].depth;
    let mut j = i + 1;
    while j < n && ns[j].depth > d
        invariant
            i < j <= n == ns@.len(),
            d == ns@[i as int].depth,
            subtree_end(ns@, i as int) == subtree_end_from(ns@, i as int, j as int),
        decreases n - j,
    {
        proof {
            lemma_child_step(ns@, i as int, j as int);
        }
        j += 1;
    }
    j
}

/// The kinds of nodes whose text an import lists as an imported name.
pub open spec fn is_import_name_kind(kind: Seq<char>) -> bool {
    contains(kind, "identifier"@) || kind == "namespace_import"@ || kind == "import_specifier"@
}

/// The texts of the nodes `a..b` whose kind names an import, in order.
pub open spec fn import_names_in(ns: Seq<SyntaxNode>, src: Seq<u8>, a: int, b: int) -> Seq<
    Seq<char>,
>
    decreases b - a,
{
    if b <= a {
        seq![]
    } else {
        let rest = import_names_in(ns, src, a, b - 1);
        if is_import_name_kind(ns[b - 1].kind@) && node_text_spec(src, ns[b - 1]) is Some {
            rest.push(node_text_spec(src, ns[b - 1])->0)
        } else {
            rest
        }
    }
}

/// The texts of the import names in the subtree of node `i`, in document
/// order.
pub fn collect_import_names(ns: &[SyntaxNode], src: &[u8], i: usize) -> (r: Vec<String>)
    requires
        i < ns@.len(),
    ensures
        string_views(r@) == import_names_in(ns@, src@, i as int, subtree_end(ns@, i as int)),
{
    let end = subtree_end_exec(ns, i);
    let mut out: Vec<String> = Vec::new();
    let mut m = i;
    let namespace_import = String::from_str("namespace_import");
    let import_specifier = String::from_str("import_specifier");
    while m < end
        invariant
            i <= m <= end <= ns@.len(),
            namespace_import@ == "namespace_import"@,
            import_specifier@ == "import_specifier"@,
            string_views(out@) == import_names_in(ns@, src@, i as int, m as int),
        decreases end - m,
    {
        let kind = &ns[m].kind;
        if contains_exec(to_chars(kind.as_str()).as_slice(), to_chars("identifier").as_slice())
            || *kind == namespace_import || *kind == import_specifier {
            match node_text(src, &ns[m]) {
                Some(t) => {
                    let ghost before = string_views(out@);
                    out.push(from_chars(t.as_slice()));
                    assert(string_views(out@) =~= before.push(t@));
                },
                None => {},
            }
        }
        m += 1;
    }
    out
}

/// The symbol that node `i` declares, if its kind declares one.
pub open spec fn symbol_at(ns: Seq<SyntaxNode>, src: Seq<u8>, i: int) -> Option<SymbolView> {
    if matches_symbol_kind_spec(ns[i].kind@) {
        Some(
            SymbolView {
                name: match extract_name_spec(ns, src, i) {
                    Some(t) => t,
                    None => "<anonymous>"@,
                },
                kind: symbol_class(ns[i].kind@),
                visibility: visibility_spec(src, ns[i]),
                span: span_of_spec(ns[i]),
            },
        )
    } else {
        None
    }
}

/// The import that node `i` makes, if it is an import statement.
pub open spec fn import_at(ns: Seq<SyntaxNode>, src: Seq<u8>, i: int) -> Option<ImportView> {
    if is_import_kind(ns[i].kind@) {
        Some(
            ImportView {
                source: string_like_spec(ns, src, i),
                imported_names: dedup_spec(import_names_in(ns, src, i, subtree_end(ns, i))),
                span: span_of_spec(ns[i]),
            },
        )
    } else {
        None
    }
}

/// The export that node `i` makes, if its kind exports.
pub open spec fn export_at(ns: Seq<SyntaxNode>, src: Seq<u8>, i: int) -> Option<ExportView> {
    if is_export_kind(ns[i].kind@) {
        Some(
            ExportView {
                name: extract_name_spec(ns, src, i),
                kind: ns[i].kind@,
                span: span_of_spec(ns[i]),
            },
        )
    } else {
        None
    }
}

/// The call that node `i` makes, if it is a call.
pub open spec fn call_at(ns: Seq<SyntaxNode>, src: Seq<u8>, i: int) -> Option<CallView> {
    if is_call_kind(ns[i].kind@) {
        Some(
            CallView {
                callee: callee_name_spec(ns, src, i),
                kind: ns[i].kind@,
                span: span_of_spec(ns[i]),
            },
        )
    } else {
        None
    }
}

/// The view of an optional fact.
pub open spec fn opt_fact_view<T: View>(o: Option<T>) -> Option<T::V> {
    match o {
        Some(x) => Some(x@),
        None => None,
    }
}

/// The symbol that node `i` declares.
pub fn extract_symbol(ns: &[SyntaxNode], src: &[u8], i: usize) -> (r: Option<SymbolFact>)
    requires
        i < ns@.len(),
        rows_below(ns@, 0),
    ensures
        opt_fact_view(r) == symbol_at(ns@, src@, i as int),
{
    let kind = ns[i].kind.as_str();
    if !matches_symbol_kind(kind) {
        return None;
    }
    let name = match extract_name(ns, src, i) {
        Some(t) => from_chars(t.as_slice()),
        None => String::from_str("<anonymous>"),
    };
    let f = SymbolFact {
        name,
        kind: classify_symbol_kind(kind),
        visibility: classify_visibility(src, &ns[i]),
        span: span_of(&ns[i]),
    };
    assert(f@ =~= symbol_at(ns@, src@, i as int)->0);
    Some(f)
}

/// The import that node `i` makes.
pub fn extract_import(ns: &[SyntaxNode], src: &[u8], i: usize) -> (r: Option<ImportFact>)
    requires
        i < ns@.len(),
        rows_below(ns@, 0),
    ensures
        opt_fact_view(r) == import_at(ns@, src@, i as int),
{
    if !is_import_kind_exec(&ns[i].kind) {
        return None;
    }
    let source = extract_string_like(ns, src, i);
    let names = collect_import_names(ns, src, i);
    let f = ImportFact { source, imported_names: dedup_vec(names), span: span_of(&ns[i]) };
    assert(f@ =~= import_at(ns@, src@, i as int)->0);
    Some(f)
}

/// The export that node `i` makes.
pub fn extract_export(ns: &[SyntaxNode], src: &[u8], i: usize) -> (r: Option<ExportFact>)
    requires
        i < ns@.len(),
        rows_below(ns@, 0),
    ensures
        opt_fact_view(r) == export_at(ns@, src@, i as int),
{
    if !is_export_kind_exec(&ns[i].kind) {
        return None;
    }
    let name = match extract_name(ns, src, i) {
        Some(t) => Some(from_chars(t.as_slice())),
        None => None,
    };
    let f = ExportFact { name, kind: ns[i].kind.clone(), span: span_of(&ns[i]) };
    assert(f@ =~= export_at(ns@, src@, i as int)->0);
    Some(f)
}

/// The call that node `i` makes.
pub fn extract_call(ns: &[SyntaxNode], src: &[u8], i: usize) -> (r: Option<CallFact>)
    requires
        i < ns@.len(),
        rows_below(ns@, 0),
    ensures
        opt_fact_view(r) == call_at(ns@, src@, i as int),
{
    if !is_call_kind_exec(&ns[i].kind) {
        return None;
    }
    let callee = match extract_callee_name(ns, src, i) {
        Some(t) => Some(from_chars(t.as_slice())),
        None => None,
    };
    let f = CallFact { callee, kind: ns[i].kind.clone(), span: span_of(&ns[i]) };
    assert(f@ =~= call_at(ns@, src@, i as int)->0);
    Some(f)
}


// ---------------------------------------------------------------------------
// Fingerprints of a subtree
// ---------------------------------------------------------------------------

/// A subtree that starts inside the subtree of node `i` ends inside it too.
pub proof fn lemma_subtree_nested(ns: Seq<SyntaxNode>, i: int, j: int)
    requires
        0 <= i < j < subtree_end(ns, i),
        subtree_end(ns, i) <= ns.len(),
    ensures
        j < subtree_end(ns, j) <= subtree_end(ns, i),
{
    lemma_subtree_end_from(ns, i, i + 1);
    lemma_subtree_end_from(ns, j, j + 1);
    lemma_subtree_nested_from(ns, i, j, j + 1);
}

proof fn lemma_subtree_nested_from(ns: Seq<SyntaxNode>, i: int, j: int, k: int)
    requires
        0 <= i < j < k <= subtree_end(ns, i),
        subtree_end(ns, i) <= ns.len(),
        ns[j].depth > ns[i].depth,
    ensures
        subtree_end_from(ns, j, k) <= subtree_end(ns, i),
    decreases ns.len() - k,
{
    lemma_subtree_end_from(ns, i, i + 1);
    if k < ns.len() && ns[k].depth > ns[j].depth {
        if k == subtree_end(ns, i) {
            assert(ns[k].depth <= ns[i].depth);
        } else {
            lemma_subtree_nested_from(ns, i, j, k + 1);
        }
    }
}

/// The kinds of the named nodes of the subtree of node `i` in document
/// order; the subtree of a node that is not named is left out whole.
pub open spec fn structural_kinds(ns: Seq<SyntaxNode>, i: int) -> Seq<Seq<char>>
    decreases ns.len() - i, 1int,
{
    if i < 0 || i >= ns.len() || !ns[i].is_named {
        seq![]
    } else {
        seq![ns[i].kind@] + structural_children(ns, i, i + 1)
    }
}

/// `structural_kinds` of the children of node `i` from position `j` on.
pub open spec fn structural_children(ns: Seq<SyntaxNode>, i: int, j: int) -> Seq<Seq<char>>
    decreases ns.len() - j + 1, 0int,
{
    if i < 0 || j <= i || j >= ns.len() || j >= subtree_end(ns, i) {
        seq![]
    } else {
        proof {
            lemma_subtree_end_from(ns, j, j + 1);
        }
        structural_kinds(ns, j) + structural_children(ns, i, subtree_end(ns, j))
    }
}

/// The token class of a leaf: `ID`, `STR`, `NUM`, `COMMENT`, or its kind.
pub open spec fn leaf_class(kind: Seq<char>, text: Seq<char>) -> Seq<char> {
    let lowered = ascii_lower_seq(kind);
    if contains(lowered, "identifier"@) || lowered == "property_identifier"@ || lowered
        == "field_identifier"@ {
        "ID"@
    } else if contains(lowered, "string"@) {
        "STR"@
    } else if contains(lowered, "number"@) || (forall|k: int|
        0 <= k < text.len() ==> is_digit(#[trigger] text[k])) {
        "NUM"@
    } else if contains(lowered, "comment"@) {
        "COMMENT"@
    } else {
        kind
    }
}

/// Classifies a leaf token by its kind and text.
pub fn classify_leaf(kind: &str, text: &str) -> (r: String)
    ensures
        r@ == leaf_class(kind@, text@),
{
    let lowered = to_ascii_lowercase(to_chars(kind).as_slice());
    let lw = lowered.as_slice();
    if contains_exec(lw, to_chars("identifier").as_slice()) || chars_eq(
        lw,
        to_chars("property_identifier").as_slice(),
    ) || chars_eq(lw, to_chars("field_identifier").as_slice()) {
        return String::from_str("ID");
    }
    if contains_exec(lw, to_chars("string").as_slice()) {
        return String::from_str("STR");
    }
    let t = to_chars(text);
    let mut all_digits = true;
    let n = t.len();
    for k in 0..n
        invariant
            n == t@.len(),
            t@ == text@,
            all_digits == (forall|m: int| 0 <= m < k ==> is_digit(#[trigger] t@[m])),
    {
        if !char_is_digit(t[k]) {
            all_digits = false;
        }
    }
    if contains_exec(lw, to_chars("number").as_slice()) || all_digits {
        return String::from_str("NUM");
    }
    if contains_exec(lw, to_chars("comment").as_slice()) {
        return String::from_str("COMMENT");
    }
    String::from_str(kind)
}

/// The token classes of the named leaves of the subtree of node `i` whose
/// trimmed text is not empty, in document order; the subtree of a node that
/// is not named is left out whole.
pub open spec fn token_classes(ns: Seq<SyntaxNode>, src: Seq<u8>, i: int) -> Seq<Seq<char>>
    decreases ns.len() - i, 1int,
{
    if i < 0 || i >= ns.len() || !ns[i].is_named {
        seq![]
    } else if subtree_end(ns, i) == i + 1 {
        let t = trim(raw_text_or_empty(src, ns[i]));
        if t.len() > 0 {
            seq![leaf_class(ns[i].kind@, t)]
        } else {
            seq![]
        }
    } else {
        token_children(ns, src, i, i + 1)
    }
}

/// `token_classes` of the children of node `i` from position `j` on.
pub open spec fn token_children(ns: Seq<SyntaxNode>, src: Seq<u8>, i: int, j: int) -> Seq<
    Seq<char>,
>
    decreases ns.len() - j + 1, 0int,
{
    if i < 0 || j <= i || j >= ns.len() || j >= subtree_end(ns, i) {
        seq![]
    } else {
        proof {
            lemma_subtree_end_from(ns, j, j + 1);
        }
        token_classes(ns, src, j) + token_children(ns, src, i, subtree_end(ns, j))
    }
}

/// Appends `structural_kinds` of node `i`.
pub fn collect_structural_kinds(ns: &[SyntaxNode], i: usize, out: &mut Vec<String>)
    requires
        i < ns@.len(),
    ensures
        string_views(final(out)@) == string_views(old(out)@) + structural_kinds(ns@, i as int),
    decreases ns@.len() - i,
{
    if !ns[i].is_named {
        assert(string_views(old(out)@) + structural_kinds(ns@, i as int) =~= string_views(old(out)@));
        return;
    }
    let ghost target = string_views(old(out)@) + structural_kinds(ns@, i as int);
    let ghost before = string_views(out@);
    out.push(ns[i].kind.clone());
    assert(string_views(out@) =~= before.push(ns@[i as int].kind@));
    let end = subtree_end_exec(ns, i);
    let mut j = i + 1;
    assert(string_views(out@) + structural_children(ns@, i as int, j as int) =~= target);
    while j < end
        invariant
            i < j <= end,
            end == subtree_end(ns@, i as int),
            end <= ns@.len(),
            string_views(out@) + structural_children(ns@, i as int, j as int) == target,
        decreases end - j,
    {
        proof {
            lemma_subtree_nested(ns@, i as int, j as int);
        }
        let ghost mid = string_views(out@);
        collect_structural_kinds(ns, j, out);
        let e = subtree_end_exec(ns, j);
        assert(string_views(out@) + structural_children(ns@, i as int, e as int) =~= mid
            + structural_children(ns@, i as int, j as int));
        j = e;
    }
}

/// Appends `token_classes` of node `i`.
pub fn collect_token_classes(ns: &[SyntaxNode], src: &[u8], i: usize, out: &mut Vec<String>)
    requires
        i < ns@.len(),
    ensures
        string_views(final(out)@) == string_views(old(out)@) + token_classes(ns@, src@, i as int),
    decreases ns@.len() - i,
{
    if !ns[i].is_named {
        assert(string_views(old(out)@) + token_classes(ns@, src@, i as int) =~= string_views(
            old(out)@,
        ));
        return;
    }
    let end = subtree_end_exec(ns, i);
    if end == i + 1 {
        let raw = match node_raw_text(src, &ns[i]) {
            Some(t) => t,
            None => Vec::new(),
        };
        let t = trim_exec(raw.as_slice());
        if t.len() > 0 {
            let text = from_chars(t.as_slice());
            let c = classify_leaf(ns[i].kind.as_str(), text.as_str());
            let ghost before = string_views(out@);
            out.push(c);
            assert(string_views(out@) =~= before + token_classes(ns@, src@, i as int));
        } else {
            assert(string_views(out@) + token_classes(ns@, src@, i as int) =~= string_views(
                out@,
            ));
        }
        return;
    }
    let ghost target = string_views(old(out)@) + token_classes(ns@, src@, i as int);
    let mut j = i + 1;
    while j < end
        invariant
            i < j <= end,
            end == subtree_end(ns@, i as int),
            end <= ns@.len(),
            string_views(out@) + token_children(ns@, src@, i as int, j as int) == target,
        decreases end - j,
    {
        proof {
            lemma_subtree_nested(ns@, i as int, j as int);
        }
        let ghost mid = string_views(out@);
        collect_token_classes(ns, src, j, out);
        let e = subtree_end_exec(ns, j);
        assert(string_views(out@) + token_children(ns@, src@, i as int, e as int) =~= mid
            + token_children(ns@, src@, i as int, j as int));
        j = e;
    }
}


/// The first `n` lines, or all of them when there are fewer.
pub open spec fn first_lines(ls: Seq<Seq<char>>, n: int) -> Seq<Seq<char>> {
    if ls.len() <= n {
        ls
    } else {
        ls.take(n)
    }
}

/// A copy of the first `n` strings, or of all of them when there are fewer.
pub fn take_strings(v: &Vec<String>, n: usize) -> (r: Vec<String>)
    ensures
        string_views(r@) == first_lines(string_views(v@), n as int),
{
    let mut out: Vec<String> = Vec::new();
    let m = if v.len() < n {
        v.len()
    } else {
        n
    };
    for k in 0..m
        invariant
            m <= v@.len(),
            m <= n,
            string_views(out@) == string_views(v@).take(k as int),
    {
        let ghost before = string_views(out@);
        out.push(v[k].clone());
        assert(string_views(out@) =~= before.push(v@[k as int]@));
        assert(string_views(v@).take(k + 1) =~= string_views(v@).take(k as int).push(
            v@[k as int]@,
        ));
    }
    assert(v@.len() <= n ==> string_views(v@).take(m as int) =~= string_views(v@));
    out
}

/// The first three non-empty normalised lines of a node's text.
pub open spec fn preview_spec(src: Seq<u8>, n: SyntaxNode) -> Seq<Seq<char>> {
    first_lines(nonempty_normalized(lines(raw_text_or_empty(src, n))), 3)
}

/// Whether a node may stand for a clone: a named node below the root whose
/// kind is not that of a whole file or block.
pub open spec fn is_candidate_spec(n: SyntaxNode) -> bool {
    n.is_named && n.depth > 0 && !is_root_kind(n.kind@)
}

/// Whether a node may stand for a clone.
pub fn is_candidate_node(n: &SyntaxNode) -> (r: bool)
    ensures
        r == is_candidate_spec(*n),
{
    n.is_named && n.depth > 0 && !is_root_kind_exec(&n.kind)
}

/// The number of lines a node covers.
pub open spec fn line_count_spec(n: SyntaxNode) -> int {
    (if n.end_row >= n.start_row {
        n.end_row - n.start_row
    } else {
        0
    }) + 1
}

/// The number of bytes a node covers.
pub open spec fn char_count_spec(n: SyntaxNode) -> int {
    if n.end_byte >= n.start_byte {
        n.end_byte - n.start_byte
    } else {
        0
    }
}

/// The clone-detection record of node `i`, with its line count.
pub open spec fn ast_span_at(
    ns: Seq<SyntaxNode>,
    src: Seq<u8>,
    path: Seq<char>,
    language: LanguageKind,
    i: int,
) -> AstSpanView {
    ast_span_with(ns, src, path, language, i, line_count_spec(ns[i]) as usize)
}

/// The clone-detection record of node `i`, with the given line count.
pub open spec fn ast_span_with(
    ns: Seq<SyntaxNode>,
    src: Seq<u8>,
    path: Seq<char>,
    language: LanguageKind,
    i: int,
    line_count: usize,
) -> AstSpanView {
    AstSpanView {
        path,
        language: language_name(language),
        node_kind: ns[i].kind@,
        start_line: (ns[i].start_row + 1) as usize,
        end_line: (ns[i].end_row + 1) as usize,
        line_count,
        structural_hash: hash_string_spec(join_with(structural_kinds(ns, i), '|')),
        token_hash: hash_string_spec(join_with(token_classes(ns, src, i), '|')),
        structural_kinds: structural_kinds(ns, i),
        preview: preview_spec(src, ns[i]),
    }
}

/// The clone-detection record of node `i`, when it is a candidate that spans
/// at least `min_lines` lines and `min_chars` bytes.
pub open spec fn span_record_at(
    ns: Seq<SyntaxNode>,
    src: Seq<u8>,
    path: Seq<char>,
    language: LanguageKind,
    min_lines: usize,
    min_chars: usize,
    i: int,
) -> Option<AstSpanView> {
    if is_candidate_spec(ns[i]) && line_count_spec(ns[i]) >= min_lines && char_count_spec(ns[i])
        >= min_chars {
        Some(ast_span_at(ns, src, path, language, i))
    } else {
        None
    }
}

/// Builds the clone-detection record of node `i`.
pub fn build_ast_span(
    ns: &[SyntaxNode],
    src: &[u8],
    path: &str,
    language: LanguageKind,
    i: usize,
    line_count: usize,
) -> (r: AstSpanRecord)
    requires
        i < ns@.len(),
        rows_below(ns@, 0),
    ensures
        r@ == ast_span_with(ns@, src@, path@, language, i as int, line_count),
{
    let mut structural: Vec<String> = Vec::new();
    collect_structural_kinds(ns, i, &mut structural);
    let mut tokens: Vec<String> = Vec::new();
    collect_token_classes(ns, src, i, &mut tokens);
    assert(string_views(structural@) =~= structural_kinds(ns@, i as int));
    assert(string_views(tokens@) =~= token_classes(ns@, src@, i as int));
    let raw = match node_raw_text(src, &ns[i]) {
        Some(t) => t,
        None => Vec::new(),
    };
    let text = from_chars(raw.as_slice());
    let lines = normalized_lines(text.as_str());
    let preview = take_strings(&lines, 3);
    let structural_text = join_strings_with(&structural, '|');
    let token_text = join_strings_with(&tokens, '|');
    let r = AstSpanRecord {
        path: String::from_str(path),
        language: String::from_str(language.as_str()),
        node_kind: ns[i].kind.clone(),
        start_line: ns[i].start_row + 1,
        end_line: ns[i].end_row + 1,
        line_count,
        structural_hash: hash_string(structural_text.as_str()),
        token_hash: hash_string(token_text.as_str()),
        structural_kinds: structural,
        preview,
    };
    assert(r@ =~= ast_span_with(ns@, src@, path@, language, i as int, line_count));
    r
}


// ---------------------------------------------------------------------------
// Facts of a whole tree
// ---------------------------------------------------------------------------

/// The values that `f` gives for the positions `0..k`, in order, skipping
/// `None`.
pub open spec fn gather<T>(f: spec_fn(int) -> Option<T>, k: int) -> Seq<T>
    decreases k,
{
    if k <= 0 {
        seq![]
    } else {
        match f(k - 1) {
            Some(x) => gather(f, k - 1).push(x),
            None => gather(f, k - 1),
        }
    }
}

/// The top-level node at position `i`: a named child of the root.
pub open spec fn top_level_at(ns: Seq<SyntaxNode>, i: int) -> Option<NodeSummaryView> {
    if ns[i].depth == 1 && ns[i].is_named {
        Some(
            NodeSummaryView {
                kind: ns[i].kind@,
                start_line: (ns[i].start_row + 1) as usize,
                end_line: (ns[i].end_row + 1) as usize,
            },
        )
    } else {
        None
    }
}

pub open spec fn top_level_fn(ns: Seq<SyntaxNode>) -> spec_fn(int) -> Option<NodeSummaryView> {
    |i: int| top_level_at(ns, i)
}

pub open spec fn symbol_fn(ns: Seq<SyntaxNode>, src: Seq<u8>) -> spec_fn(int) -> Option<SymbolView> {
    |i: int| symbol_at(ns, src, i)
}

pub open spec fn import_fn(ns: Seq<SyntaxNode>, src: Seq<u8>) -> spec_fn(int) -> Option<ImportView> {
    |i: int| import_at(ns, src, i)
}

pub open spec fn export_fn(ns: Seq<SyntaxNode>, src: Seq<u8>) -> spec_fn(int) -> Option<ExportView> {
    |i: int| export_at(ns, src, i)
}

pub open spec fn call_fn(ns: Seq<SyntaxNode>, src: Seq<u8>) -> spec_fn(int) -> Option<CallView> {
    |i: int| call_at(ns, src, i)
}

pub open spec fn span_fn(
    ns: Seq<SyntaxNode>,
    src: Seq<u8>,
    path: Seq<char>,
    language: LanguageKind,
    min_lines: usize,
    min_chars: usize,
) -> spec_fn(int) -> Option<AstSpanView> {
    |i: int| span_record_at(ns, src, path, language, min_lines, min_chars, i)
}

/// The number of named nodes among the first `k`.
pub open spec fn named_count(ns: Seq<SyntaxNode>, k: int) -> int
    decreases k,
{
    if k <= 0 {
        0
    } else {
        named_count(ns, k - 1) + if ns[k - 1].is_named {
            1int
        } else {
            0int
        }
    }
}

/// The greatest depth of a named node among the first `k`, or 0.
pub open spec fn max_named_depth(ns: Seq<SyntaxNode>, k: int) -> int
    decreases k,
{
    if k <= 0 {
        0
    } else {
        let m = max_named_depth(ns, k - 1);
        if ns[k - 1].is_named && ns[k - 1].depth > m {
            ns[k - 1].depth as int
        } else {
            m
        }
    }
}

proof fn lemma_named_count_bound(ns: Seq<SyntaxNode>, k: int)
    requires
        0 <= k,
    ensures
        0 <= named_count(ns, k) <= k,
    decreases k,
{
    if k > 0 {
        lemma_named_count_bound(ns, k - 1);
    }
}

/// Walks the nodes of a tree in document order and gathers the facts of each:
/// the count and depth of named nodes, the top-level nodes, the symbols,
/// imports, exports and calls, and the records of clone candidates that span
/// at least `min_lines` lines and `min_chars` bytes.
pub fn collect_file_facts(
    ns: &[SyntaxNode],
    src: &[u8],
    path: &str,
    language: LanguageKind,
    min_lines: usize,
    min_chars: usize,
    summary: &mut FileSummary,
    top_level_nodes: &mut Vec<NodeSummary>,
    symbols: &mut Vec<SymbolFact>,
    imports: &mut Vec<ImportFact>,
    exports: &mut Vec<ExportFact>,
    calls: &mut Vec<CallFact>,
    ast_spans: &mut Vec<AstSpanRecord>,
)
    requires
        rows_below(ns@, 0),
        old(summary).total_named_nodes + ns@.len() <= usize::MAX,
    ensures
        final(summary).total_named_nodes == old(summary).total_named_nodes + named_count(
            ns@,
            ns@.len() as int,
        ),
        final(summary).max_depth == if max_named_depth(ns@, ns@.len() as int) > old(
            summary,
        ).max_depth {
            max_named_depth(ns@, ns@.len() as int)
        } else {
            old(summary).max_depth as int
        },
        node_summary_views(final(top_level_nodes)@) == node_summary_views(old(top_level_nodes)@)
            + gather(top_level_fn(ns@), ns@.len() as int),
        symbol_views(final(symbols)@) == symbol_views(old(symbols)@) + gather(
            symbol_fn(ns@, src@),
            ns@.len() as int,
        ),
        import_views(final(imports)@) == import_views(old(imports)@) + gather(
            import_fn(ns@, src@),
            ns@.len() as int,
        ),
        export_views(final(exports)@) == export_views(old(exports)@) + gather(
            export_fn(ns@, src@),
            ns@.len() as int,
        ),
        call_views(final(calls)@) == call_views(old(calls)@) + gather(
            call_fn(ns@, src@),
            ns@.len() as int,
        ),
        ast_span_views(final(ast_spans)@) == ast_span_views(old(ast_spans)@) + gather(
            span_fn(ns@, src@, path@, language, min_lines, min_chars),
            ns@.len() as int,
        ),
{
    let n = ns.len();
    let ghost s0 = *summary;
    let ghost t0 = node_summary_views(top_level_nodes@);
    let ghost y0 = symbol_views(symbols@);
    let ghost i0 = import_views(imports@);
    let ghost e0 = export_views(exports@);
    let ghost c0 = call_views(calls@);
    let ghost a0 = ast_span_views(ast_spans@);
    let ghost tf = top_level_fn(ns@);
    let ghost yf = symbol_fn(ns@, src@);
    let ghost imf = import_fn(ns@, src@);
    let ghost ef = export_fn(ns@, src@);
    let ghost cf = call_fn(ns@, src@);
    let ghost af = span_fn(ns@, src@, path@, language, min_lines, min_chars);
    assert(t0 + gather(tf, 0) =~= t0);
    assert(y0 + gather(yf, 0) =~= y0);
    assert(i0 + gather(imf, 0) =~= i0);
    assert(e0 + gather(ef, 0) =~= e0);
    assert(c0 + gather(cf, 0) =~= c0);
    assert(a0 + gather(af, 0) =~= a0);
    for k in 0..n
        invariant
            n == ns@.len(),
            rows_below(ns@, 0),
            s0.total_named_nodes + n <= usize::MAX,
            summary.total_named_nodes == s0.total_named_nodes + named_count(ns@, k as int),
            summary.max_depth == if max_named_depth(ns@, k as int) > s0.max_depth {
                max_named_depth(ns@, k as int)
            } else {
                s0.max_depth as int
            },
            tf == top_level_fn(ns@),
            yf == symbol_fn(ns@, src@),
            imf == import_fn(ns@, src@),
            ef == export_fn(ns@, src@),
            cf == call_fn(ns@, src@),
            af == span_fn(ns@, src@, path@, language, min_lines, min_chars),
            node_summary_views(top_level_nodes@) == t0 + gather(tf, k as int),
            symbol_views(symbols@) == y0 + gather(yf, k as int),
            import_views(imports@) == i0 + gather(imf, k as int),
            export_views(exports@) == e0 + gather(ef, k as int),
            call_views(calls@) == c0 + gather(cf, k as int),
            ast_span_views(ast_spans@) == a0 + gather(af, k as int),
    {
        let node = &ns[k];
        proof {
            lemma_named_count_bound(ns@, k as int);
        }
        if node.is_named {
            summary.total_named_nodes = summary.total_named_nodes + 1;
            if node.depth > summary.max_depth {
                summary.max_depth = node.depth;
            }
        }
        if is_candidate_node(node) {
            let line_count = (if node.end_row >= node.start_row {
                node.end_row - node.start_row
            } else {
                0
            }) + 1;
            let char_count = if node.end_byte >= node.start_byte {
                node.end_byte - node.start_byte
            } else {
                0
            };
            if line_count >= min_lines && char_count >= min_chars {
                let rec = build_ast_span(ns, src, path, language, k, line_count);
                let ghost before = ast_span_views(ast_spans@);
                ast_spans.push(rec);
                assert(ast_span_views(ast_spans@) =~= before.push(rec@));
            }
        }
        assert(ast_span_views(ast_spans@) =~= a0 + gather(af, k + 1));
        if node.depth == 1 && node.is_named {
            let t = NodeSummary {
                kind: node.kind.clone(),
                start_line: node.start_row + 1,
                end_line: node.end_row + 1,
            };
            let ghost before = node_summary_views(top_level_nodes@);
            top_level_nodes.push(t);
            assert(node_summary_views(top_level_nodes@) =~= before.push(t@));
        }
        assert(node_summary_views(top_level_nodes@) =~= t0 + gather(tf, k + 1));
        match extract_symbol(ns, src, k) {
            Some(f) => {
                let ghost before = symbol_views(symbols@);
                symbols.push(f);
                assert(symbol_views(symbols@) =~= before.push(f@));
            },
            None => {},
        }
        assert(symbol_views(symbols@) =~= y0 + gather(yf, k + 1));
        match extract_import(ns, src, k) {
            Some(f) => {
                let ghost before = import_views(imports@);
                imports.push(f);
                assert(import_views(imports@) =~= before.push(f@));
            },
            None => {},
        }
        assert(import_views(imports@) =~= i0 + gather(imf, k + 1));
        match extract_export(ns, src, k) {
            Some(f) => {
                let ghost before = export_views(exports@);
                exports.push(f);
                assert(export_views(exports@) =~= before.push(f@));
            },
            None => {},
        }
        assert(export_views(exports@) =~= e0 + gather(ef, k + 1));
        match extract_call(ns, src, k) {
            Some(f) => {
                let ghost before = call_views(calls@);
                calls.push(f);
                assert(call_views(calls@) =~= before.push(f@));
            },
            None => {},
        }
        assert(call_views(calls@) =~= c0 + gather(cf, k + 1));
    }
}


/// What holds of every value that `f` gives holds of every gathered value.
pub proof fn lemma_gather_all<T>(f: spec_fn(int) -> Option<T>, k: int, p: spec_fn(T) -> bool)
    requires
        forall|i: int| 0 <= i < k && (#[trigger] f(i)) is Some ==> p(f(i)->0),
    ensures
        forall|j: int| 0 <= j < gather(f, k).len() ==> p(#[trigger] gather(f, k)[j]),
    decreases k,
{
    if k > 0 {
        lemma_gather_all(f, k - 1, p);
        let g = gather(f, k - 1);
        if f(k - 1) is Some {
            assert forall|j: int| 0 <= j < gather(f, k).len() implies p(
                #[trigger] gather(f, k)[j],
            ) by {
                if j < g.len() {
                    assert(gather(f, k)[j] == g[j]);
                }
            }
        }
    }
}

/// There are at most `k` gathered values.
pub proof fn lemma_gather_len<T>(f: spec_fn(int) -> Option<T>, k: int)
    requires
        0 <= k,
    ensures
        gather(f, k).len() <= k,
    decreases k,
{
    if k > 0 {
        lemma_gather_len(f, k - 1);
    }
}

/// The greatest depth of a named node is not negative.
pub proof fn lemma_max_named_depth(ns: Seq<SyntaxNode>, k: int)
    ensures
        0 <= max_named_depth(ns, k),
    decreases k,
{
    if k > 0 {
        lemma_max_named_depth(ns, k - 1);
    }
}

/// There are at most `k` named nodes among the first `k`.
pub proof fn lemma_named_count(ns: Seq<SyntaxNode>, k: int)
    requires
        0 <= k,
    ensures
        0 <= named_count(ns, k) <= k,
{
    lemma_named_count_bound(ns, k);
}

} // verus!
