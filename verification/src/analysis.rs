//! The analysis of one source file: its parse status, language, summary,
//! facts and diagnostics, for files read with a tree-sitter grammar and for
//! Vue single-file components.
use vstd::prelude::*;

use crate::facts::{
    call_fn, collect_file_facts, export_fn, gather, import_fn, lemma_gather_all,
    lemma_max_named_depth, lemma_named_count, max_named_depth, named_count, rows_below, span_fn,
    symbol_fn, top_level_fn,
};
use crate::language::{language_name, LanguageKind, ParseStatus};
use crate::model::{
    ast_span_views, call_views, diagnostic_views, export_views, import_views, node_summary_views,
    symbol_views, template_views, AnalysisDiagnostic, AstSpanRecord, AstSpanView, CallFact,
    CallView, DiagnosticView, ExportFact, ExportView, FileSummary, ImportFact, ImportView,
    NodeSummary, NodeSummaryView, Span, SymbolFact, SymbolView, TemplateNodeFact,
    TemplateNodeView,
};
use crate::syntax::{parse_syntax, rows_fit_u32, rows_within, ParseFailure, ParsedSyntax};
use crate::text::{decimal, opt_view, usize_to_decimal};
use crate::vue::{
    analyze_vue_template_block, extract_vue_blocks, template_nodes_spec, vue_block_views,
    vue_blocks_spec, VueBlock, VueBlockView,
};
use vstd::string::StringSliceAdditionalSpecFns;

verus! {

/// What the analysis of a file found.
#[derive(Debug)]
pub struct FileAnalysis {
    pub parse_status: ParseStatus,
    pub language: Option<String>,
    pub summary: FileSummary,
    pub top_level_nodes: Vec<NodeSummary>,
    pub template_nodes: Vec<TemplateNodeFact>,
    pub symbols: Vec<SymbolFact>,
    pub imports: Vec<ImportFact>,
    pub exports: Vec<ExportFact>,
    pub calls: Vec<CallFact>,
    pub diagnostics: Vec<AnalysisDiagnostic>,
}

#[verifier::ext_equal]
pub struct FileAnalysisView {
    pub parse_status: ParseStatus,
    pub language: Option<Seq<char>>,
    pub summary: FileSummary,
    pub top_level_nodes: Seq<NodeSummaryView>,
    pub template_nodes: Seq<TemplateNodeView>,
    pub symbols: Seq<SymbolView>,
    pub imports: Seq<ImportView>,
    pub exports: Seq<ExportView>,
    pub calls: Seq<CallView>,
    pub diagnostics: Seq<DiagnosticView>,
}

impl View for FileAnalysis {
    type V = FileAnalysisView;

    open spec fn view(&self) -> FileAnalysisView {
        FileAnalysisView {
            parse_status: self.parse_status,
            language: opt_view(self.language),
            summary: self.summary,
            top_level_nodes: node_summary_views(self.top_level_nodes@),
            template_nodes: template_views(self.template_nodes@),
            symbols: symbol_views(self.symbols@),
            imports: import_views(self.imports@),
            exports: export_views(self.exports@),
            calls: call_views(self.calls@),
            diagnostics: diagnostic_views(self.diagnostics@),
        }
    }
}

/// An analysis and the clone-detection records of its file, by their views.
pub open spec fn analysis_views(r: (FileAnalysis, Vec<AstSpanRecord>)) -> (
    FileAnalysisView,
    Seq<AstSpanView>,
) {
    (r.0@, ast_span_views(r.1@))
}

// ---------------------------------------------------------------------------
// Diagnostics
// ---------------------------------------------------------------------------

pub open spec fn diag(level: Seq<char>, message: Seq<char>) -> DiagnosticView {
    DiagnosticView { level, message }
}

fn make_diag(level: &str, message: String) -> (r: AnalysisDiagnostic)
    ensures
        r@ == diag(level@, message@),
{
    AnalysisDiagnostic { level: String::from_str(level), message }
}

/// The message when the grammar cannot be loaded, with the parser's reason.
pub open spec fn init_failed_message(reason: Seq<char>) -> Seq<char> {
    "parser 初始化失败: "@ + reason
}

/// The message when the parser returns no tree.
pub open spec fn no_tree_message() -> Seq<char> {
    "parser 未返回语法树"@
}

/// The warning when the tree holds syntax errors.
pub open spec fn error_tree_message() -> Seq<char> {
    "语法树包含 error 节点，结果可能不完整"@
}

/// The note for a file whose language has no grammar.
pub open spec fn unsupported_message() -> Seq<char> {
    "当前版本未接入该语言的 tree-sitter parser"@
}

/// An analysis with no facts.
pub open spec fn bare_analysis(
    status: ParseStatus,
    language: Option<Seq<char>>,
    diagnostics: Seq<DiagnosticView>,
) -> FileAnalysisView {
    FileAnalysisView {
        parse_status: status,
        language,
        summary: FileSummary { total_named_nodes: 0, max_depth: 0 },
        top_level_nodes: seq![],
        template_nodes: seq![],
        symbols: seq![],
        imports: seq![],
        exports: seq![],
        calls: seq![],
        diagnostics,
    }
}

fn bare_file_analysis(
    status: ParseStatus,
    language: Option<String>,
    diagnostics: Vec<AnalysisDiagnostic>,
) -> (r: FileAnalysis)
    ensures
        r@ == bare_analysis(status, opt_view(language), diagnostic_views(diagnostics@)),
{
    let r = FileAnalysis {
        parse_status: status,
        language,
        summary: FileSummary::empty(),
        top_level_nodes: Vec::new(),
        template_nodes: Vec::new(),
        symbols: Vec::new(),
        imports: Vec::new(),
        exports: Vec::new(),
        calls: Vec::new(),
        diagnostics,
    };
    assert(r@ =~= bare_analysis(status, opt_view(language), diagnostic_views(diagnostics@)));
    r
}

// ---------------------------------------------------------------------------
// Summaries and line offsets
// ---------------------------------------------------------------------------

/// Two summaries taken together: the counts added, the greater depth kept.
pub open spec fn merged(a: FileSummary, b: FileSummary) -> FileSummary {
    FileSummary {
        total_named_nodes: (a.total_named_nodes + b.total_named_nodes) as usize,
        max_depth: if b.max_depth > a.max_depth {
            b.max_depth
        } else {
            a.max_depth
        },
    }
}

/// Adds the counts of `source` to `target` and keeps the greater depth.
pub fn merge_summary(target: &mut FileSummary, source: &FileSummary)
    requires
        old(target).total_named_nodes + source.total_named_nodes <= usize::MAX,
    ensures
        *final(target) == merged(*old(target), *source),
{
    target.total_named_nodes = target.total_named_nodes + source.total_named_nodes;
    if source.max_depth > target.max_depth {
        target.max_depth = source.max_depth;
    }
}

/// A span with `d` added to both lines.
pub open spec fn shift_span(s: Span, d: int) -> Span {
    Span { start_line: (s.start_line + d) as usize, end_line: (s.end_line + d) as usize }
}

/// A span whose lines stay within `usize` when `d` is added.
pub open spec fn span_fits(s: Span, d: int) -> bool {
    s.start_line + d <= usize::MAX && s.end_line + d <= usize::MAX
}

/// The node summaries with `d` added to their lines.
pub open spec fn shift_nodes(v: Seq<NodeSummaryView>, d: int) -> Seq<NodeSummaryView> {
    v.map_values(
        |x: NodeSummaryView|
            NodeSummaryView {
                kind: x.kind,
                start_line: (x.start_line + d) as usize,
                end_line: (x.end_line + d) as usize,
            },
    )
}

pub open spec fn shift_symbols(v: Seq<SymbolView>, d: int) -> Seq<SymbolView> {
    v.map_values(
        |x: SymbolView|
            SymbolView {
                name: x.name,
                kind: x.kind,
                visibility: x.visibility,
                span: shift_span(x.span, d),
            },
    )
}

pub open spec fn shift_imports(v: Seq<ImportView>, d: int) -> Seq<ImportView> {
    v.map_values(
        |x: ImportView|
            ImportView {
                source: x.source,
                imported_names: x.imported_names,
                span: shift_span(x.span, d),
            },
    )
}

pub open spec fn shift_exports(v: Seq<ExportView>, d: int) -> Seq<ExportView> {
    v.map_values(
        |x: ExportView| ExportView { name: x.name, kind: x.kind, span: shift_span(x.span, d) },
    )
}

pub open spec fn shift_calls(v: Seq<CallView>, d: int) -> Seq<CallView> {
    v.map_values(
        |x: CallView| CallView { callee: x.callee, kind: x.kind, span: shift_span(x.span, d) },
    )
}

pub open spec fn shift_ast_spans(v: Seq<AstSpanView>, d: int) -> Seq<AstSpanView> {
    v.map_values(
        |x: AstSpanView|
            AstSpanView {
                path: x.path,
                language: x.language,
                node_kind: x.node_kind,
                start_line: (x.start_line + d) as usize,
                end_line: (x.end_line + d) as usize,
                line_count: x.line_count,
                structural_hash: x.structural_hash,
                token_hash: x.token_hash,
                structural_kinds: x.structural_kinds,
                preview: x.preview,
            },
    )
}

/// Adds `line_offset` to the lines of each node summary.
pub fn offset_node_summaries(items: &mut Vec<NodeSummary>, line_offset: usize)
    requires
        forall|i: int|
            0 <= i < old(items)@.len() ==> (#[trigger] old(items)@[i]).start_line + line_offset
                <= usize::MAX && old(items)@[i].end_line + line_offset <= usize::MAX,
    ensures
        node_summary_views(final(items)@) == shift_nodes(
            node_summary_views(old(items)@),
            line_offset as int,
        ),
{
    let n = items.len();
    for i in 0..n
        invariant
            n == items@.len() == old(items)@.len(),
            forall|j: int|
                0 <= j < n ==> (#[trigger] old(items)@[j]).start_line + line_offset <= usize::MAX
                    && old(items)@[j].end_line + line_offset <= usize::MAX,
            forall|j: int| i <= j < n ==> #[trigger] items@[j] == old(items)@[j],
            forall|j: int|
                0 <= j < i ==> (#[trigger] items@[j])@ == shift_nodes(
                    node_summary_views(old(items)@),
                    line_offset as int,
                )[j],
    {
        items[i].start_line = items[i].start_line + line_offset;
        items[i].end_line = items[i].end_line + line_offset;
    }
    assert(node_summary_views(items@) =~= shift_nodes(
        node_summary_views(old(items)@),
        line_offset as int,
    ));
}

/// Adds `line_offset` to the span of each symbol.
pub fn offset_symbols(items: &mut Vec<SymbolFact>, line_offset: usize)
    requires
        forall|i: int|
            0 <= i < old(items)@.len() ==> span_fits(
                (#[trigger] old(items)@[i]).span,
                line_offset as int,
            ),
    ensures
        symbol_views(final(items)@) == shift_symbols(symbol_views(old(items)@), line_offset as int),
{
    let n = items.len();
    for i in 0..n
        invariant
            n == items@.len() == old(items)@.len(),
            forall|j: int|
                0 <= j < n ==> span_fits((#[trigger] old(items)@[j]).span, line_offset as int),
            forall|j: int| i <= j < n ==> #[trigger] items@[j] == old(items)@[j],
            forall|j: int|
                0 <= j < i ==> (#[trigger] items@[j])@ == shift_symbols(
                    symbol_views(old(items)@),
                    line_offset as int,
                )[j],
    {
        items[i].span.start_line = items[i].span.start_line + line_offset;
        items[i].span.end_line = items[i].span.end_line + line_offset;
    }
    assert(symbol_views(items@) =~= shift_symbols(symbol_views(old(items)@), line_offset as int));
}

/// Adds `line_offset` to the span of each import.
pub fn offset_imports(items: &mut Vec<ImportFact>, line_offset: usize)
    requires
        forall|i: int|
            0 <= i < old(items)@.len() ==> span_fits(
                (#[trigger] old(items)@[i]).span,
                line_offset as int,
            ),
    ensures
        import_views(final(items)@) == shift_imports(import_views(old(items)@), line_offset as int),
{
    let n = items.len();
    for i in 0..n
        invariant
            n == items@.len() == old(items)@.len(),
            forall|j: int|
                0 <= j < n ==> span_fits((#[trigger] old(items)@[j]).span, line_offset as int),
            forall|j: int| i <= j < n ==> #[trigger] items@[j] == old(items)@[j],
            forall|j: int|
                0 <= j < i ==> (#[trigger] items@[j])@ == shift_imports(
                    import_views(old(items)@),
                    line_offset as int,
                )[j],
    {
        items[i].span.start_line = items[i].span.start_line + line_offset;
        items[i].span.end_line = items[i].span.end_line + line_offset;
    }
    assert(import_views(items@) =~= shift_imports(import_views(old(items)@), line_offset as int));
}

/// Adds `line_offset` to the span of each export.
pub fn offset_exports(items: &mut Vec<ExportFact>, line_offset: usize)
    requires
        forall|i: int|
            0 <= i < old(items)@.len() ==> span_fits(
                (#[trigger] old(items)@[i]).span,
                line_offset as int,
            ),
    ensures
        export_views(final(items)@) == shift_exports(export_views(old(items)@), line_offset as int),
{
    let n = items.len();
    for i in 0..n
        invariant
            n == items@.len() == old(items)@.len(),
            forall|j: int|
                0 <= j < n ==> span_fits((#[trigger] old(items)@[j]).span, line_offset as int),
            forall|j: int| i <= j < n ==> #[trigger] items@[j] == old(items)@[j],
            forall|j: int|
                0 <= j < i ==> (#[trigger] items@[j])@ == shift_exports(
                    export_views(old(items)@),
                    line_offset as int,
                )[j],
    {
        items[i].span.start_line = items[i].span.start_line + line_offset;
        items[i].span.end_line = items[i].span.end_line + line_offset;
    }
    assert(export_views(items@) =~= shift_exports(export_views(old(items)@), line_offset as int));
}

/// Adds `line_offset` to the span of each call.
pub fn offset_calls(items: &mut Vec<CallFact>, line_offset: usize)
    requires
        forall|i: int|
            0 <= i < old(items)@.len() ==> span_fits(
                (#[trigger] old(items)@[i]).span,
                line_offset as int,
            ),
    ensures
        call_views(final(items)@) == shift_calls(call_views(old(items)@), line_offset as int),
{
    let n = items.len();
    for i in 0..n
        invariant
            n == items@.len() == old(items)@.len(),
            forall|j: int|
                0 <= j < n ==> span_fits((#[trigger] old(items)@[j]).span, line_offset as int),
            forall|j: int| i <= j < n ==> #[trigger] items@[j] == old(items)@[j],
            forall|j: int|
                0 <= j < i ==> (#[trigger] items@[j])@ == shift_calls(
                    call_views(old(items)@),
                    line_offset as int,
                )[j],
    {
        items[i].span.start_line = items[i].span.start_line + line_offset;
        items[i].span.end_line = items[i].span.end_line + line_offset;
    }
    assert(call_views(items@) =~= shift_calls(call_views(old(items)@), line_offset as int));
}

/// Adds `line_offset` to the lines of each clone-detection record.
pub fn offset_ast_spans(items: &mut Vec<AstSpanRecord>, line_offset: usize)
    requires
        forall|i: int|
            0 <= i < old(items)@.len() ==> (#[trigger] old(items)@[i]).start_line + line_offset
                <= usize::MAX && old(items)@[i].end_line + line_offset <= usize::MAX,
    ensures
        ast_span_views(final(items)@) == shift_ast_spans(
            ast_span_views(old(items)@),
            line_offset as int,
        ),
{
    let n = items.len();
    for i in 0..n
        invariant
            n == items@.len() == old(items)@.len(),
            forall|j: int|
                0 <= j < n ==> (#[trigger] old(items)@[j]).start_line + line_offset <= usize::MAX
                    && old(items)@[j].end_line + line_offset <= usize::MAX,
            forall|j: int| i <= j < n ==> #[trigger] items@[j] == old(items)@[j],
            forall|j: int|
                0 <= j < i ==> (#[trigger] items@[j])@ == shift_ast_spans(
                    ast_span_views(old(items)@),
                    line_offset as int,
                )[j],
    {
        items[i].start_line = items[i].start_line + line_offset;
        items[i].end_line = items[i].end_line + line_offset;
    }
    assert(ast_span_views(items@) =~= shift_ast_spans(
        ast_span_views(old(items)@),
        line_offset as int,
    ));
}


// ---------------------------------------------------------------------------
// Files read with a grammar
// ---------------------------------------------------------------------------

/// The analysis of a text from what its parse gave: the source `src` (the
/// text's UTF-8 bytes), reported under `reported`, with `offset` added to
/// every line.
pub open spec fn parse_analysis_spec(
    outcome: Result<ParsedSyntax, ParseFailure>,
    src: Seq<u8>,
    path: Seq<char>,
    language: LanguageKind,
    reported: Seq<char>,
    offset: int,
    min_lines: usize,
    min_chars: usize,
) -> (FileAnalysisView, Seq<AstSpanView>) {
    match outcome {
        Err(ParseFailure::Language(reason)) => (
            bare_analysis(
                ParseStatus::ParseError,
                Some(reported),
                seq![diag("error"@, init_failed_message(reason@))],
            ),
            seq![],
        ),
        Err(ParseFailure::NoTree) => (
            bare_analysis(
                ParseStatus::ParseError,
                Some(reported),
                seq![diag("error"@, no_tree_message())],
            ),
            seq![],
        ),
        Ok(p) => {
            let ns = p.nodes@;
            let k = ns.len() as int;
            (
                FileAnalysisView {
                    parse_status: ParseStatus::Parsed,
                    language: Some(reported),
                    summary: FileSummary {
                        total_named_nodes: named_count(ns, k) as usize,
                        max_depth: max_named_depth(ns, k) as usize,
                    },
                    top_level_nodes: shift_nodes(gather(top_level_fn(ns), k), offset),
                    template_nodes: seq![],
                    symbols: shift_symbols(gather(symbol_fn(ns, src), k), offset),
                    imports: shift_imports(gather(import_fn(ns, src), k), offset),
                    exports: shift_exports(gather(export_fn(ns, src), k), offset),
                    calls: shift_calls(gather(call_fn(ns, src), k), offset),
                    diagnostics: if p.has_error {
                        seq![diag("warning"@, error_tree_message())]
                    } else {
                        seq![]
                    },
                },
                shift_ast_spans(
                    gather(span_fn(ns, src, path, language, min_lines, min_chars), k),
                    offset,
                ),
            )
        },
    }
}

/// The analysis of a text from what its parse gave. A parse with no tree
/// gives a `parse_error` analysis with an error diagnostic; a tree gives the
/// facts of its nodes, their lines moved down by `line_offset`, and a warning
/// when the tree holds syntax errors.
pub fn analysis_from_parse(
    outcome: Result<ParsedSyntax, ParseFailure>,
    content: &str,
    path: &str,
    parser_language: LanguageKind,
    reported_language: String,
    line_offset: usize,
    min_lines: usize,
    min_chars: usize,
) -> (r: (FileAnalysis, Vec<AstSpanRecord>))
    requires
        outcome matches Ok(p) ==> rows_below(p.nodes@, line_offset as int),
    ensures
        analysis_views(r) == parse_analysis_spec(
            outcome,
            content.spec_bytes(),
            path@,
            parser_language,
            reported_language@,
            line_offset as int,
            min_lines,
            min_chars,
        ),
{
    let mut diagnostics: Vec<AnalysisDiagnostic> = Vec::new();
    match outcome {
        Err(ParseFailure::Language(reason)) => {
            let mut message = String::from_str("parser 初始化失败: ");
            message.append(reason.as_str());
            diagnostics.push(make_diag("error", message));
            assert(diagnostic_views(diagnostics@) =~= seq![
                diag("error"@, init_failed_message(reason@)),
            ]);
            let a = bare_file_analysis(
                ParseStatus::ParseError,
                Some(reported_language),
                diagnostics,
            );
            let spans: Vec<AstSpanRecord> = Vec::new();
            assert(ast_span_views(spans@) =~= seq![]);
            (a, spans)
        },
        Err(ParseFailure::NoTree) => {
            diagnostics.push(make_diag("error", String::from_str("parser 未返回语法树")));
            assert(diagnostic_views(diagnostics@) =~= seq![diag("error"@, no_tree_message())]);
            let a = bare_file_analysis(
                ParseStatus::ParseError,
                Some(reported_language),
                diagnostics,
            );
            let spans: Vec<AstSpanRecord> = Vec::new();
            assert(ast_span_views(spans@) =~= seq![]);
            (a, spans)
        },
        Ok(p) => {
            if p.has_error {
                diagnostics.push(
                    make_diag("warning", String::from_str("语法树包含 error 节点，结果可能不完整")),
                );
            }
            let ghost ns = p.nodes@;
            let ghost k = ns.len() as int;
            let ghost src = content.spec_bytes();
            let ghost off = line_offset as int;
            let mut top_level_nodes: Vec<NodeSummary> = Vec::new();
            let mut symbols: Vec<SymbolFact> = Vec::new();
            let mut imports: Vec<ImportFact> = Vec::new();
            let mut exports: Vec<ExportFact> = Vec::new();
            let mut calls: Vec<CallFact> = Vec::new();
            let mut ast_spans: Vec<AstSpanRecord> = Vec::new();
            let mut summary = FileSummary::empty();
            let node_count = p.nodes.len();
            assert(node_count == ns.len());
            assert(forall|i: int|
                0 <= i < ns.len() ==> (#[trigger] ns[i]).start_row + 1 + 0 <= usize::MAX
                    && ns[i].end_row + 1 + 0 <= usize::MAX);
            collect_file_facts(
                p.nodes.as_slice(),
                content.as_bytes(),
                path,
                parser_language,
                min_lines,
                min_chars,
                &mut summary,
                &mut top_level_nodes,
                &mut symbols,
                &mut imports,
                &mut exports,
                &mut calls,
                &mut ast_spans,
            );
            assert(node_summary_views(top_level_nodes@) =~= gather(top_level_fn(ns), k));
            assert(symbol_views(symbols@) =~= gather(symbol_fn(ns, src), k));
            assert(import_views(imports@) =~= gather(import_fn(ns, src), k));
            assert(export_views(exports@) =~= gather(export_fn(ns, src), k));
            assert(call_views(calls@) =~= gather(call_fn(ns, src), k));
            assert(ast_span_views(ast_spans@) =~= gather(
                span_fn(ns, src, path@, parser_language, min_lines, min_chars),
                k,
            ));
            proof {
                lemma_max_named_depth(ns, k);
            }
            if line_offset > 0 {
                proof {
                    lemma_gather_all(
                        top_level_fn(ns),
                        k,
                        |x: NodeSummaryView|
                            x.start_line + off <= usize::MAX && x.end_line + off <= usize::MAX,
                    );
                    lemma_gather_all(symbol_fn(ns, src), k, |x: SymbolView| span_fits(x.span, off));
                    lemma_gather_all(import_fn(ns, src), k, |x: ImportView| span_fits(x.span, off));
                    lemma_gather_all(export_fn(ns, src), k, |x: ExportView| span_fits(x.span, off));
                    lemma_gather_all(call_fn(ns, src), k, |x: CallView| span_fits(x.span, off));
                    lemma_gather_all(
                        span_fn(ns, src, path@, parser_language, min_lines, min_chars),
                        k,
                        |x: AstSpanView|
                            x.start_line + off <= usize::MAX && x.end_line + off <= usize::MAX,
                    );
                    assert forall|i: int| 0 <= i < top_level_nodes@.len() implies (
                    #[trigger] top_level_nodes@[i]).start_line + line_offset <= usize::MAX
                        && top_level_nodes@[i].end_line + line_offset <= usize::MAX by {
                        assert(node_summary_views(top_level_nodes@)[i] == top_level_nodes@[i]@);
                    }
                    assert forall|i: int| 0 <= i < symbols@.len() implies span_fits(
                        (#[trigger] symbols@[i]).span,
                        off,
                    ) by {
                        assert(symbol_views(symbols@)[i] == symbols@[i]@);
                    }
                    assert forall|i: int| 0 <= i < imports@.len() implies span_fits(
                        (#[trigger] imports@[i]).span,
                        off,
                    ) by {
                        assert(import_views(imports@)[i] == imports@[i]@);
                    }
                    assert forall|i: int| 0 <= i < exports@.len() implies span_fits(
                        (#[trigger] exports@[i]).span,
                        off,
                    ) by {
                        assert(export_views(exports@)[i] == exports@[i]@);
                    }
                    assert forall|i: int| 0 <= i < calls@.len() implies span_fits(
                        (#[trigger] calls@[i]).span,
                        off,
                    ) by {
                        assert(call_views(calls@)[i] == calls@[i]@);
                    }
                    assert forall|i: int| 0 <= i < ast_spans@.len() implies (
                    #[trigger] ast_spans@[i]).start_line + line_offset <= usize::MAX
                        && ast_spans@[i].end_line + line_offset <= usize::MAX by {
                        assert(ast_span_views(ast_spans@)[i] == ast_spans@[i]@);
                    }
                }
                offset_node_summaries(&mut top_level_nodes, line_offset);
                offset_symbols(&mut symbols, line_offset);
                offset_imports(&mut imports, line_offset);
                offset_exports(&mut exports, line_offset);
                offset_calls(&mut calls, line_offset);
                offset_ast_spans(&mut ast_spans, line_offset);
            } else {
                assert(shift_nodes(gather(top_level_fn(ns), k), 0) =~= gather(top_level_fn(ns), k));
                assert(shift_symbols(gather(symbol_fn(ns, src), k), 0) =~= gather(symbol_fn(ns, src), k));
                assert(shift_imports(gather(import_fn(ns, src), k), 0) =~= gather(import_fn(ns, src), k));
                assert(shift_exports(gather(export_fn(ns, src), k), 0) =~= gather(export_fn(ns, src), k));
                assert(shift_calls(gather(call_fn(ns, src), k), 0) =~= gather(call_fn(ns, src), k));
                assert(shift_ast_spans(
                    gather(span_fn(ns, src, path@, parser_language, min_lines, min_chars), k),
                    0,
                ) =~= gather(span_fn(ns, src, path@, parser_language, min_lines, min_chars), k));
            }
            let a = FileAnalysis {
                parse_status: ParseStatus::Parsed,
                language: Some(reported_language),
                summary,
                top_level_nodes,
                template_nodes: Vec::new(),
                symbols,
                imports,
                exports,
                calls,
                diagnostics,
            };
            let r = (a, ast_spans);
            assert(analysis_views(r).0 =~= parse_analysis_spec(
                Ok(p),
                src,
                path@,
                parser_language,
                a.language->0@,
                off,
                min_lines,
                min_chars,
            ).0);
            r
        },
    }
}

/// The result of `analyze_with_parser`: the analysis of the text from some
/// outcome of its parse, as `analysis_from_parse` computes it.
pub open spec fn parser_analysis_of(
    r: (FileAnalysisView, Seq<AstSpanView>),
    content: Seq<char>,
    path: Seq<char>,
    language: LanguageKind,
    reported: Seq<char>,
    offset: int,
    min_lines: usize,
    min_chars: usize,
) -> bool {
    exists|o: Result<ParsedSyntax, ParseFailure>|
        (o matches Ok(p) ==> p.nodes@.len() <= u32::MAX) && r == parse_analysis_spec(
            o,
            vstd::utf8::encode_utf8(content),
            path,
            language,
            reported,
            offset,
            min_lines,
            min_chars,
        )
}

/// Parses a text with the grammar of `parser_language` and analyses it, its
/// facts reported under `reported_language` with their lines moved down by
/// `line_offset`.
pub fn analyze_with_parser(
    content: &str,
    path: &str,
    parser_language: LanguageKind,
    reported_language: String,
    line_offset: usize,
    min_lines: usize,
    min_chars: usize,
) -> (r: (FileAnalysis, Vec<AstSpanRecord>))
    requires
        parser_language != LanguageKind::Vue,
        line_offset + content.spec_bytes().len() + 1 <= usize::MAX,
    ensures
        parser_analysis_of(
            analysis_views(r),
            content@,
            path@,
            parser_language,
            reported_language@,
            line_offset as int,
            min_lines,
            min_chars,
        ),
{
    let outcome = parse_syntax(parser_language, content);
    let ghost o = outcome;
    let ghost rep = reported_language@;
    proof {
        if let Ok(p) = o {
            assert(rows_within(p.nodes@, content.spec_bytes().len() as int));
            assert forall|i: int| 0 <= i < p.nodes@.len() implies (#[trigger] p.nodes@[i]).start_row
                + 1 + line_offset <= usize::MAX && p.nodes@[i].end_row + 1 + line_offset
                <= usize::MAX by {
                assert(p.nodes@[i].start_row <= content.spec_bytes().len());
            }
        }
    }
    let r = analysis_from_parse(
        outcome,
        content,
        path,
        parser_language,
        reported_language,
        line_offset,
        min_lines,
        min_chars,
    );
    assert((o matches Ok(p) ==> p.nodes@.len() <= u32::MAX) && analysis_views(r)
        == parse_analysis_spec(
        o,
        vstd::utf8::encode_utf8(content@),
        path@,
        parser_language,
        rep,
        line_offset as int,
        min_lines,
        min_chars,
    ));
    r
}


// ---------------------------------------------------------------------------
// Vue single-file components
// ---------------------------------------------------------------------------

/// The warning for a Vue file with no block.
pub open spec fn no_block_message() -> Seq<char> {
    "未识别到任何 Vue SFC block，已作为空文件处理"@
}

/// The warning for a Vue file with no script block.
pub open spec fn no_script_message() -> Seq<char> {
    "Vue 文件未包含可解析的 script/script setup block"@
}

/// The note for a style block, with its lines.
pub open spec fn style_message(b: VueBlockView) -> Seq<char> {
    "style block 已识别，当前版本不做样式 AST 提取 ("@ + decimal(b.start_line as nat) + "-"@
        + decimal(b.end_line as nat) + ")"@
}

/// The grammar a script block is read with: TypeScript for `lang="ts"` and
/// `lang="tsx"`, else JavaScript.
pub open spec fn script_language(lang: Option<Seq<char>>) -> LanguageKind {
    match lang {
        Some(l) => if l == "ts"@ || l == "tsx"@ {
            LanguageKind::TypeScript
        } else {
            LanguageKind::JavaScript
        },
        None => LanguageKind::JavaScript,
    }
}

/// The top-level node that stands for a block.
pub open spec fn vue_block_node(b: VueBlockView) -> NodeSummaryView {
    NodeSummaryView {
        kind: "vue_"@ + b.tag,
        start_line: b.start_line as usize,
        end_line: b.end_line as usize,
    }
}

/// The lines before the content of a block.
pub open spec fn block_offset(b: VueBlockView) -> int {
    if b.content_start_line >= 1 {
        b.content_start_line - 1
    } else {
        0
    }
}

/// The analysis of a script block from what its parse gave.
pub open spec fn script_result(
    b: VueBlockView,
    o: Result<ParsedSyntax, ParseFailure>,
    path: Seq<char>,
    min_lines: usize,
    min_chars: usize,
) -> (FileAnalysisView, Seq<AstSpanView>) {
    parse_analysis_spec(
        o,
        vstd::utf8::encode_utf8(b.content),
        path,
        script_language(b.lang),
        "vue"@,
        block_offset(b),
        min_lines,
        min_chars,
    )
}

/// The analysis of a Vue file before any block is read.
pub open spec fn vue_start() -> FileAnalysisView {
    bare_analysis(ParseStatus::Parsed, Some("vue"@), seq![])
}

/// An analysis with one more diagnostic.
pub open spec fn with_diagnostic(a: FileAnalysisView, d: DiagnosticView) -> FileAnalysisView {
    FileAnalysisView {
        parse_status: a.parse_status,
        language: a.language,
        summary: a.summary,
        top_level_nodes: a.top_level_nodes,
        template_nodes: a.template_nodes,
        symbols: a.symbols,
        imports: a.imports,
        exports: a.exports,
        calls: a.calls,
        diagnostics: a.diagnostics.push(d),
    }
}

/// What reading one more block adds: its top-level node, and then the facts
/// of a script block, the template nodes of a template block, or a note for a
/// style block.
pub open spec fn vue_step(
    acc: (FileAnalysisView, Seq<AstSpanView>),
    b: VueBlockView,
    res: (FileAnalysisView, Seq<AstSpanView>),
) -> (FileAnalysisView, Seq<AstSpanView>) {
    let a = acc.0;
    let tl = a.top_level_nodes.push(vue_block_node(b));
    if b.tag == "script"@ {
        (
            FileAnalysisView {
                parse_status: a.parse_status,
                language: a.language,
                summary: merged(a.summary, res.0.summary),
                top_level_nodes: tl + res.0.top_level_nodes,
                template_nodes: a.template_nodes,
                symbols: a.symbols + res.0.symbols,
                imports: a.imports + res.0.imports,
                exports: a.exports + res.0.exports,
                calls: a.calls + res.0.calls,
                diagnostics: a.diagnostics + res.0.diagnostics,
            },
            acc.1 + res.1,
        )
    } else {
        (
            FileAnalysisView {
                parse_status: a.parse_status,
                language: a.language,
                summary: a.summary,
                top_level_nodes: tl,
                template_nodes: if b.tag == "template"@ {
                    a.template_nodes + template_nodes_spec(b)
                } else {
                    a.template_nodes
                },
                symbols: a.symbols,
                imports: a.imports,
                exports: a.exports,
                calls: a.calls,
                diagnostics: if b.tag == "style"@ {
                    a.diagnostics.push(diag("info"@, style_message(b)))
                } else {
                    a.diagnostics
                },
            },
            acc.1,
        )
    }
}

/// The analysis after reading the first `k` blocks, the script blocks read
/// from the parse outcomes `outs`.
pub open spec fn vue_fold(
    blocks: Seq<VueBlockView>,
    outs: Seq<Result<ParsedSyntax, ParseFailure>>,
    path: Seq<char>,
    min_lines: usize,
    min_chars: usize,
    k: int,
) -> (FileAnalysisView, Seq<AstSpanView>)
    decreases k,
{
    if k <= 0 {
        (vue_start(), seq![])
    } else {
        vue_step(
            vue_fold(blocks, outs, path, min_lines, min_chars, k - 1),
            blocks[k - 1],
            script_result(blocks[k - 1], outs[k - 1], path, min_lines, min_chars),
        )
    }
}

/// Some block is a script block.
pub open spec fn has_script(blocks: Seq<VueBlockView>, k: int) -> bool {
    exists|m: int| 0 <= m < k && (#[trigger] blocks[m]).tag == "script"@
}

/// The analysis of a Vue file, the script blocks read from the parse outcomes
/// `outs`.
pub open spec fn vue_analysis_spec(
    content: Seq<char>,
    outs: Seq<Result<ParsedSyntax, ParseFailure>>,
    path: Seq<char>,
    min_lines: usize,
    min_chars: usize,
) -> (FileAnalysisView, Seq<AstSpanView>) {
    let blocks = vue_blocks_spec(content);
    if blocks.len() == 0 {
        (
            bare_analysis(
                ParseStatus::ParseError,
                Some("vue"@),
                seq![diag("warning"@, no_block_message())],
            ),
            seq![],
        )
    } else {
        let f = vue_fold(blocks, outs, path, min_lines, min_chars, blocks.len() as int);
        if has_script(blocks, blocks.len() as int) {
            f
        } else {
            (with_diagnostic(f.0, diag("warning"@, no_script_message())), f.1)
        }
    }
}

/// A Vue file small enough that its line numbers and node counts, summed
/// over its blocks, fit in a `usize`.
pub open spec fn vue_size_fits(len: int) -> bool {
    (len + 2) * (u32::MAX + 1) <= usize::MAX
}

/// Whether a Vue file of `len` characters is small enough (see
/// `vue_size_fits`).
pub fn fits_vue_size(len: usize) -> (r: bool)
    ensures
        r == vue_size_fits(len as int),
{
    let unit: usize = match (u32::MAX as usize).checked_add(1) {
        Some(u) => u,
        None => {
            assert(!vue_size_fits(len as int)) by (nonlinear_arith)
                requires
                    u32::MAX + 1 > usize::MAX,
                    len >= 0,
            ;
            return false;
        },
    };
    let cap: usize = usize::MAX / unit;
    proof {
        let n = len as int;
        let u = unit as int;
        let m = usize::MAX as int;
        assert(u > 0);
        assert((n + 2) * u <= m <==> n + 2 <= m / u) by (nonlinear_arith)
            requires
                u > 0,
                n >= 0,
                m >= 0,
        {
            if n + 2 <= m / u {
                assert((n + 2) * u <= (m / u) * u);
                assert((m / u) * u <= m);
            }
            if (n + 2) * u <= m {
                assert(m == (m / u) * u + m % u);
                assert(m % u < u);
            }
        }
    }
    len < cap && len + 2 <= cap
}

/// The result of `analyze_vue_file`: the analysis of the file from some
/// outcomes of the parses of its script blocks.
pub open spec fn vue_analysis_of(
    r: (FileAnalysisView, Seq<AstSpanView>),
    content: Seq<char>,
    path: Seq<char>,
    min_lines: usize,
    min_chars: usize,
) -> bool {
    exists|outs: Seq<Result<ParsedSyntax, ParseFailure>>|
        outs.len() == vue_blocks_spec(content).len() && r == vue_analysis_spec(
            content,
            outs,
            path,
            min_lines,
            min_chars,
        )
}

/// The fold over the first `k` blocks reads only the first `k` outcomes.
proof fn lemma_vue_fold_prefix(
    blocks: Seq<VueBlockView>,
    outs: Seq<Result<ParsedSyntax, ParseFailure>>,
    outs2: Seq<Result<ParsedSyntax, ParseFailure>>,
    path: Seq<char>,
    min_lines: usize,
    min_chars: usize,
    k: int,
)
    requires
        forall|i: int| 0 <= i < k ==> outs[i] == outs2[i],
    ensures
        vue_fold(blocks, outs, path, min_lines, min_chars, k) == vue_fold(
            blocks,
            outs2,
            path,
            min_lines,
            min_chars,
            k,
        ),
    decreases k,
{
    if k > 0 {
        lemma_vue_fold_prefix(blocks, outs, outs2, path, min_lines, min_chars, k - 1);
    }
}

fn script_language_of(lang: &Option<String>) -> (r: LanguageKind)
    ensures
        r == script_language(opt_view(*lang)),
{
    match lang {
        Some(l) => {
            if *l == String::from_str("ts") || *l == String::from_str("tsx") {
                LanguageKind::TypeScript
            } else {
                LanguageKind::JavaScript
            }
        },
        None => LanguageKind::JavaScript,
    }
}

/// A character takes at most four bytes in UTF-8.
proof fn lemma_utf8_len(s: Seq<char>)
    ensures
        vstd::utf8::encode_utf8(s).len() <= 4 * s.len(),
    decreases s.len(),
{
    if s.len() > 0 {
        lemma_utf8_len(s.drop_first());
        assert(vstd::utf8::encode_scalar(s[0] as u32).len() <= 4);
    }
}

/// Reads one block of a Vue file into the analysis: its top-level node, and
/// then the facts of a script block, the template nodes of a template block,
/// or a note for a style block.
fn read_vue_block(
    acc: &mut FileAnalysis,
    ast_spans: &mut Vec<AstSpanRecord>,
    block: &VueBlock,
    path: &str,
    min_lines: usize,
    min_chars: usize,
) -> (script: bool)
    requires
        old(acc).summary.total_named_nodes + u32::MAX <= usize::MAX,
        block.content_start_line + block.content@.len() <= usize::MAX,
        block.content_start_line + vstd::utf8::encode_utf8(block.content@).len() + 1 <= usize::MAX,
    ensures
        script == (block@.tag == "script"@),
        final(acc).summary.total_named_nodes <= old(acc).summary.total_named_nodes + u32::MAX,
        exists|o: Result<ParsedSyntax, ParseFailure>|
            analysis_views((*final(acc), *final(ast_spans))) == vue_step(
                analysis_views((*old(acc), *old(ast_spans))),
                block@,
                script_result(block@, o, path@, min_lines, min_chars),
            ),
{
    let ghost prev = analysis_views((*acc, *ast_spans));
    let mut kind = String::from_str("vue_");
    kind.append(block.tag.as_str());
    acc.top_level_nodes.push(
        NodeSummary { kind, start_line: block.start_line, end_line: block.end_line },
    );
    if block.tag == String::from_str("script") {
        let script_lang = script_language_of(&block.lang);
        let offset = if block.content_start_line >= 1 {
            block.content_start_line - 1
        } else {
            0
        };
        let (mut ba, mut bs) = analyze_with_parser(
            block.content.as_str(),
            path,
            script_lang,
            String::from_str("vue"),
            offset,
            min_lines,
            min_chars,
        );
        let ghost res = analysis_views((ba, bs));
        let ghost o = choose|o: Result<ParsedSyntax, ParseFailure>|
            (o matches Ok(p) ==> p.nodes@.len() <= u32::MAX) && res == parse_analysis_spec(
                o,
                vstd::utf8::encode_utf8(block.content@),
                path@,
                script_lang,
                "vue"@,
                offset as int,
                min_lines,
                min_chars,
            );
        proof {
            if let Ok(p) = o {
                lemma_named_count(p.nodes@, p.nodes@.len() as int);
            }
        }
        merge_summary(&mut acc.summary, &ba.summary);
        acc.top_level_nodes.append(&mut ba.top_level_nodes);
        acc.symbols.append(&mut ba.symbols);
        acc.imports.append(&mut ba.imports);
        acc.exports.append(&mut ba.exports);
        acc.calls.append(&mut ba.calls);
        acc.diagnostics.append(&mut ba.diagnostics);
        ast_spans.append(&mut bs);
        assert(script_result(block@, o, path@, min_lines, min_chars) == res);
        assert(analysis_views((*acc, *ast_spans)) =~= vue_step(prev, block@, res));
        true
    } else {
        let ghost o: Result<ParsedSyntax, ParseFailure> = Err(ParseFailure::NoTree);
        proof {
            reveal_strlit("script");
            reveal_strlit("template");
            reveal_strlit("style");
        }
        if block.tag == String::from_str("template") {
            let mut tn = analyze_vue_template_block(block);
            acc.template_nodes.append(&mut tn);
        } else if block.tag == String::from_str("style") {
            let mut message = String::from_str("style block 已识别，当前版本不做样式 AST 提取 (");
            message.append(usize_to_decimal(block.start_line).as_str());
            message.append("-");
            message.append(usize_to_decimal(block.end_line).as_str());
            message.append(")");
            assert(message@ =~= style_message(block@));
            acc.diagnostics.push(make_diag("info", message));
        }
        assert(analysis_views((*acc, *ast_spans)) =~= vue_step(
            prev,
            block@,
            script_result(block@, o, path@, min_lines, min_chars),
        ));
        false
    }
}

/// Splits a Vue file into blocks and analyses them: each script block with
/// its grammar, its lines counted in the whole file; each template block for
/// its elements, components and interpolations; each style block noted.
pub fn analyze_vue_file(content: &str, path: &str, min_lines: usize, min_chars: usize) -> (r: (
    FileAnalysis,
    Vec<AstSpanRecord>,
))
    requires
        vue_size_fits(content@.len() as int),
    ensures
        vue_analysis_of(analysis_views(r), content@, path@, min_lines, min_chars),
{
    let ghost len = content@.len() as int;
    assert(len + u32::MAX + 2 <= usize::MAX) by (nonlinear_arith)
        requires
            (len + 2) * (u32::MAX + 1) <= usize::MAX,
            len >= 0,
    ;
    let blocks = extract_vue_blocks(content);
    let ghost bv = vue_block_views(blocks@);
    if blocks.len() == 0 {
        let mut diagnostics: Vec<AnalysisDiagnostic> = Vec::new();
        diagnostics.push(
            make_diag("warning", String::from_str("未识别到任何 Vue SFC block，已作为空文件处理")),
        );
        assert(diagnostic_views(diagnostics@) =~= seq![diag("warning"@, no_block_message())]);
        let a = bare_file_analysis(
            ParseStatus::ParseError,
            Some(String::from_str("vue")),
            diagnostics,
        );
        let spans: Vec<AstSpanRecord> = Vec::new();
        let r = (a, spans);
        assert(analysis_views(r) =~= vue_analysis_spec(content@, seq![], path@, min_lines, min_chars));
        return r;
    }
    let mut acc = bare_file_analysis(ParseStatus::Parsed, Some(String::from_str("vue")), Vec::new());
    let mut ast_spans: Vec<AstSpanRecord> = Vec::new();
    let mut parsed_any_script = false;
    let ghost mut outs: Seq<Result<ParsedSyntax, ParseFailure>> = seq![];
    let nb = blocks.len();
    assert(analysis_views((acc, ast_spans)) =~= vue_fold(bv, outs, path@, min_lines, min_chars, 0));
    for k in 0..nb
        invariant
            nb == blocks@.len() == bv.len(),
            bv == vue_block_views(blocks@),
            len == content@.len(),
            nb <= len + 1,
            (len + 2) * (u32::MAX + 1) <= usize::MAX,
            len + u32::MAX + 2 <= usize::MAX,
            forall|i: int|
                0 <= i < blocks@.len() ==> (#[trigger] blocks@[i]).content_start_line as int
                    + blocks@[i].content@.len() <= len + 1,
            outs.len() == k,
            acc.summary.total_named_nodes <= k * u32::MAX,
            parsed_any_script == has_script(bv, k as int),
            analysis_views((acc, ast_spans)) == vue_fold(
                bv,
                outs,
                path@,
                min_lines,
                min_chars,
                k as int,
            ),
    {
        let block = &blocks[k];
        assert(bv[k as int] == block@);
        assert(block.content_start_line + vstd::utf8::encode_utf8(block.content@).len() + 1
            <= usize::MAX) by {
            lemma_utf8_len(block.content@);
            let c = block.content@.len() as int;
            let st = block.content_start_line as int;
            assert(st + c <= len + 1);
            assert(st + 4 * c + 1 <= 4 * len + 5);
            assert(4 * len + 5 <= usize::MAX) by (nonlinear_arith)
                requires
                    (len + 2) * (u32::MAX + 1) <= usize::MAX,
                    len >= 0,
            ;
        }
        assert(k * u32::MAX + u32::MAX <= usize::MAX) by (nonlinear_arith)
            requires
                k < nb,
                nb <= len + 1,
                (len + 2) * (u32::MAX + 1) <= usize::MAX,
        ;
        let ghost prev = analysis_views((acc, ast_spans));
        let script = read_vue_block(&mut acc, &mut ast_spans, block, path, min_lines, min_chars);
        if script {
            parsed_any_script = true;
        }
        proof {
            let o = choose|o: Result<ParsedSyntax, ParseFailure>|
                analysis_views((acc, ast_spans)) == vue_step(
                    prev,
                    block@,
                    script_result(block@, o, path@, min_lines, min_chars),
                );
            let outs0 = outs;
            outs = outs.push(o);
            lemma_vue_fold_prefix(bv, outs0, outs, path@, min_lines, min_chars, k as int);
            assert(outs[k as int] == o);
            if !script {
                assert(has_script(bv, k + 1) ==> has_script(bv, k as int));
            } else {
                assert(bv[k as int].tag == "script"@);
            }
        }
    }
    if !parsed_any_script {
        acc.diagnostics.push(
            make_diag("warning", String::from_str("Vue 文件未包含可解析的 script/script setup block")),
        );
    }
    let r = (acc, ast_spans);
    assert(analysis_views(r) =~= vue_analysis_spec(content@, outs, path@, min_lines, min_chars));
    r
}


// ---------------------------------------------------------------------------
// Any file
// ---------------------------------------------------------------------------

/// The analysis of a file in a language with no grammar.
pub open spec fn unsupported_analysis() -> (FileAnalysisView, Seq<AstSpanView>) {
    (
        bare_analysis(ParseStatus::Unsupported, None, seq![diag("info"@, unsupported_message())]),
        seq![],
    )
}

/// The result of `analyze_file`: an `unsupported` analysis when the language
/// is not known, the analysis of a Vue file, or that of a file read with its
/// language's grammar and reported under the language's name.
pub open spec fn file_analysis_of(
    r: (FileAnalysisView, Seq<AstSpanView>),
    content: Seq<char>,
    path: Seq<char>,
    language: Option<LanguageKind>,
    min_lines: usize,
    min_chars: usize,
) -> bool {
    match language {
        None => r == unsupported_analysis(),
        Some(LanguageKind::Vue) => vue_analysis_of(r, content, path, min_lines, min_chars),
        Some(l) => parser_analysis_of(
            r,
            content,
            path,
            l,
            language_name(l),
            0,
            min_lines,
            min_chars,
        ),
    }
}

/// Analyses a file by its language: Vue files block by block, files of the
/// other known languages with their grammar, the rest as unsupported.
pub fn analyze_file(
    content: &str,
    relative: &str,
    language: Option<LanguageKind>,
    min_lines: usize,
    min_chars: usize,
) -> (r: (FileAnalysis, Vec<AstSpanRecord>))
    requires
        (language matches Some(l) && l != LanguageKind::Vue) ==> content.spec_bytes().len()
            < usize::MAX,
        language == Some(LanguageKind::Vue) ==> vue_size_fits(content@.len() as int),
    ensures
        file_analysis_of(analysis_views(r), content@, relative@, language, min_lines, min_chars),
{
    match language {
        None => {
            let mut diagnostics: Vec<AnalysisDiagnostic> = Vec::new();
            diagnostics.push(
                make_diag("info", String::from_str("当前版本未接入该语言的 tree-sitter parser")),
            );
            assert(diagnostic_views(diagnostics@) =~= seq![diag("info"@, unsupported_message())]);
            let a = bare_file_analysis(ParseStatus::Unsupported, None, diagnostics);
            let spans: Vec<AstSpanRecord> = Vec::new();
            let r = (a, spans);
            assert(analysis_views(r) =~= unsupported_analysis());
            r
        },
        Some(LanguageKind::Vue) => analyze_vue_file(content, relative, min_lines, min_chars),
        Some(l) => analyze_with_parser(
            content,
            relative,
            l,
            String::from_str(l.as_str()),
            0,
            min_lines,
            min_chars,
        ),
    }
}


// ---------------------------------------------------------------------------
// Laws
// ---------------------------------------------------------------------------

/// An analysis with `d` added to the lines of its top-level nodes, its
/// facts and its clone spans; everything else kept.
pub open spec fn moved_analysis(a: (FileAnalysisView, Seq<AstSpanView>), d: int) -> (
    FileAnalysisView,
    Seq<AstSpanView>,
) {
    (
        FileAnalysisView {
            parse_status: a.0.parse_status,
            language: a.0.language,
            summary: a.0.summary,
            top_level_nodes: shift_nodes(a.0.top_level_nodes, d),
            template_nodes: a.0.template_nodes,
            symbols: shift_symbols(a.0.symbols, d),
            imports: shift_imports(a.0.imports, d),
            exports: shift_exports(a.0.exports, d),
            calls: shift_calls(a.0.calls, d),
            diagnostics: a.0.diagnostics,
        },
        shift_ast_spans(a.1, d),
    )
}

/// Moving the line offset only moves the lines: the analysis of a parse at
/// offset `d` is its analysis at offset 0 with `d` added to every line of
/// its top-level nodes, facts and clone spans, and nothing else changed.
pub proof fn law_offset_moves_lines(
    outcome: Result<ParsedSyntax, ParseFailure>,
    src: Seq<u8>,
    path: Seq<char>,
    language: LanguageKind,
    reported: Seq<char>,
    d: int,
    min_lines: usize,
    min_chars: usize,
)
    ensures
        parse_analysis_spec(outcome, src, path, language, reported, d, min_lines, min_chars)
            == moved_analysis(
            parse_analysis_spec(outcome, src, path, language, reported, 0, min_lines, min_chars),
            d,
        ),
{
    let a0 = parse_analysis_spec(outcome, src, path, language, reported, 0, min_lines, min_chars);
    let ad = parse_analysis_spec(outcome, src, path, language, reported, d, min_lines, min_chars);
    let m = moved_analysis(a0, d);
    match outcome {
        Ok(p) => {
            let ns = p.nodes@;
            let k = ns.len() as int;
            let g1 = gather(top_level_fn(ns), k);
            let g2 = gather(symbol_fn(ns, src), k);
            let g3 = gather(import_fn(ns, src), k);
            let g4 = gather(export_fn(ns, src), k);
            let g5 = gather(call_fn(ns, src), k);
            let g6 = gather(span_fn(ns, src, path, language, min_lines, min_chars), k);
            assert(shift_nodes(g1, 0) =~= g1);
            assert(shift_symbols(g2, 0) =~= g2);
            assert(shift_imports(g3, 0) =~= g3);
            assert(shift_exports(g4, 0) =~= g4);
            assert(shift_calls(g5, 0) =~= g5);
            assert(shift_ast_spans(g6, 0) =~= g6);
            assert(ad.0 == m.0);
            assert(ad.1 == m.1);
        },
        Err(_) => {
            assert(shift_nodes(seq![], d) =~= seq![]);
            assert(shift_symbols(seq![], d) =~= seq![]);
            assert(shift_imports(seq![], d) =~= seq![]);
            assert(shift_exports(seq![], d) =~= seq![]);
            assert(shift_calls(seq![], d) =~= seq![]);
            assert(shift_ast_spans(seq![], d) =~= seq![]);
            assert(ad.0 == m.0);
            assert(ad.1 == m.1);
        },
    }
}

/// Reading blocks keeps a Vue file's analysis `parsed` and reported as
/// `vue`.
proof fn lemma_vue_fold_status(
    blocks: Seq<VueBlockView>,
    outs: Seq<Result<ParsedSyntax, ParseFailure>>,
    path: Seq<char>,
    min_lines: usize,
    min_chars: usize,
    k: int,
)
    ensures
        vue_fold(blocks, outs, path, min_lines, min_chars, k).0.parse_status
            == ParseStatus::Parsed,
        vue_fold(blocks, outs, path, min_lines, min_chars, k).0.language == Some("vue"@),
    decreases k,
{
    if k > 0 {
        lemma_vue_fold_status(blocks, outs, path, min_lines, min_chars, k - 1);
    }
}

/// A file is `unsupported` exactly when its language has no analysis; a
/// file in a known language is `parsed` or `parse_error` and is reported
/// under that language's name.
pub proof fn law_unsupported_iff_unknown_language(
    r: (FileAnalysisView, Seq<AstSpanView>),
    content: Seq<char>,
    path: Seq<char>,
    language: Option<LanguageKind>,
    min_lines: usize,
    min_chars: usize,
)
    requires
        file_analysis_of(r, content, path, language, min_lines, min_chars),
    ensures
        (r.0.parse_status == ParseStatus::Unsupported) <==> language is None,
        language matches Some(l) ==> r.0.language == Some(language_name(l)),
        language is None ==> r.0.language is None,
{
    match language {
        None => {},
        Some(LanguageKind::Vue) => {
            let outs = choose|outs: Seq<Result<ParsedSyntax, ParseFailure>>|
                outs.len() == vue_blocks_spec(content).len() && r == vue_analysis_spec(
                    content,
                    outs,
                    path,
                    min_lines,
                    min_chars,
                );
            let blocks = vue_blocks_spec(content);
            lemma_vue_fold_status(blocks, outs, path, min_lines, min_chars, blocks.len() as int);
        },
        Some(l) => {
            let o = choose|o: Result<ParsedSyntax, ParseFailure>|
                (o matches Ok(p) ==> p.nodes@.len() <= u32::MAX) && r == parse_analysis_spec(
                    o,
                    vstd::utf8::encode_utf8(content),
                    path,
                    l,
                    language_name(l),
                    0,
                    min_lines,
                    min_chars,
                );
        },
    }
}

/// The facts read from a script block of a Vue file lie on the lines of the
/// whole file: their lines are those of the block's own text moved down by
/// the lines before the block's content.
pub proof fn law_script_lines_are_file_lines(
    b: VueBlockView,
    o: Result<ParsedSyntax, ParseFailure>,
    path: Seq<char>,
    min_lines: usize,
    min_chars: usize,
)
    ensures
        script_result(b, o, path, min_lines, min_chars).0.symbols == shift_symbols(
            parse_analysis_spec(
                o,
                vstd::utf8::encode_utf8(b.content),
                path,
                script_language(b.lang),
                "vue"@,
                0,
                min_lines,
                min_chars,
            ).0.symbols,
            block_offset(b),
        ),
{
    let src = vstd::utf8::encode_utf8(b.content);
    if let Ok(p) = o {
        let ns = p.nodes@;
        let k = ns.len() as int;
        let g = gather(symbol_fn(ns, src), k);
        assert(shift_symbols(shift_symbols(g, 0), block_offset(b)) =~= shift_symbols(
            g,
            block_offset(b),
        ));
    } else {
        assert(shift_symbols(seq![], block_offset(b)) =~= seq![]);
    }
}

/// A Vue script block is read with the TypeScript grammar when its `lang`
/// attribute is `ts` or `tsx`, and with the JavaScript grammar otherwise;
/// either way its facts are reported as `vue`, at the lines of the whole file.
pub proof fn law_script_block_grammar(
    b: VueBlockView,
    o: Result<ParsedSyntax, ParseFailure>,
    path: Seq<char>,
    min_lines: usize,
    min_chars: usize,
)
    ensures
        (b.lang == Some("ts"@) || b.lang == Some("tsx"@)) ==> script_result(
            b,
            o,
            path,
            min_lines,
            min_chars,
        ) == parse_analysis_spec(
            o,
            vstd::utf8::encode_utf8(b.content),
            path,
            LanguageKind::TypeScript,
            "vue"@,
            if b.content_start_line >= 1 { b.content_start_line - 1 } else { 0 },
            min_lines,
            min_chars,
        ),
        !(b.lang == Some("ts"@) || b.lang == Some("tsx"@)) ==> script_result(
            b,
            o,
            path,
            min_lines,
            min_chars,
        ) == parse_analysis_spec(
            o,
            vstd::utf8::encode_utf8(b.content),
            path,
            LanguageKind::JavaScript,
            "vue"@,
            if b.content_start_line >= 1 { b.content_start_line - 1 } else { 0 },
            min_lines,
            min_chars,
        ),
{
}

} // verus!
