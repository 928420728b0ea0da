//! The facts that the analysis reports about a file, and their views.
use vstd::prelude::*;

use crate::text::{opt_view, string_views};

verus! {

/// A range of lines, both ends included and counted from 1.
#[derive(Clone, Copy, Debug, PartialEq, Eq, Structural)]
pub struct Span {
    pub start_line: usize,
    pub end_line: usize,
}

/// A top-level syntax node (or a Vue block) and its lines.
#[derive(Debug)]
pub struct NodeSummary {
    pub kind: String,
    pub start_line: usize,
    pub end_line: usize,
}

#[verifier::ext_equal]
pub struct NodeSummaryView {
    pub kind: Seq<char>,
    pub start_line: usize,
    pub end_line: usize,
}

impl View for NodeSummary {
    type V = NodeSummaryView;

    open spec fn view(&self) -> NodeSummaryView {
        NodeSummaryView { kind: self.kind@, start_line: self.start_line, end_line: self.end_line }
    }
}

pub open spec fn node_summary_views(v: Seq<NodeSummary>) -> Seq<NodeSummaryView> {
    v.map_values(|x: NodeSummary| x@)
}

/// An element, a component or an interpolation found in a Vue template.
#[derive(Debug)]
pub struct TemplateNodeFact {
    pub kind: String,
    pub name: Option<String>,
    pub directives: Vec<String>,
    pub attributes: Vec<String>,
    pub expression: Option<String>,
    pub depth: usize,
    pub span: Span,
}

#[verifier::ext_equal]
pub struct TemplateNodeView {
    pub kind: Seq<char>,
    pub name: Option<Seq<char>>,
    pub directives: Seq<Seq<char>>,
    pub attributes: Seq<Seq<char>>,
    pub expression: Option<Seq<char>>,
    pub depth: usize,
    pub span: Span,
}

impl View for TemplateNodeFact {
    type V = TemplateNodeView;

    open spec fn view(&self) -> TemplateNodeView {
        TemplateNodeView {
            kind: self.kind@,
            name: opt_view(self.name),
            directives: string_views(self.directives@),
            attributes: string_views(self.attributes@),
            expression: opt_view(self.expression),
            depth: self.depth,
            span: self.span,
        }
    }
}

pub open spec fn template_views(v: Seq<TemplateNodeFact>) -> Seq<TemplateNodeView> {
    v.map_values(|x: TemplateNodeFact| x@)
}

/// A declaration: function, class, struct, constant and the like.
#[derive(Debug)]
pub struct SymbolFact {
    pub name: String,
    pub kind: String,
    pub visibility: String,
    pub span: Span,
}

#[verifier::ext_equal]
pub struct SymbolView {
    pub name: Seq<char>,
    pub kind: Seq<char>,
    pub visibility: Seq<char>,
    pub span: Span,
}

impl View for SymbolFact {
    type V = SymbolView;

    open spec fn view(&self) -> SymbolView {
        SymbolView {
            name: self.name@,
            kind: self.kind@,
            visibility: self.visibility@,
            span: self.span,
        }
    }
}

pub open spec fn symbol_views(v: Seq<SymbolFact>) -> Seq<SymbolView> {
    v.map_values(|x: SymbolFact| x@)
}

/// An import statement: where from, and which names.
#[derive(Debug)]
pub struct ImportFact {
    pub source: Option<String>,
    pub imported_names: Vec<String>,
    pub span: Span,
}

#[verifier::ext_equal]
pub struct ImportView {
    pub source: Option<Seq<char>>,
    pub imported_names: Seq<Seq<char>>,
    pub span: Span,
}

impl View for ImportFact {
    type V = ImportView;

    open spec fn view(&self) -> ImportView {
        ImportView {
            source: opt_view(self.source),
            imported_names: string_views(self.imported_names@),
            span: self.span,
        }
    }
}

pub open spec fn import_views(v: Seq<ImportFact>) -> Seq<ImportView> {
    v.map_values(|x: ImportFact| x@)
}

/// An export or a visibility marker.
#[derive(Debug)]
pub struct ExportFact {
    pub name: Option<String>,
    pub kind: String,
    pub span: Span,
}

#[verifier::ext_equal]
pub struct ExportView {
    pub name: Option<Seq<char>>,
    pub kind: Seq<char>,
    pub span: Span,
}

impl View for ExportFact {
    type V = ExportView;

    open spec fn view(&self) -> ExportView {
        ExportView { name: opt_view(self.name), kind: self.kind@, span: self.span }
    }
}

pub open spec fn export_views(v: Seq<ExportFact>) -> Seq<ExportView> {
    v.map_values(|x: ExportFact| x@)
}

/// A call expression and the name of what it calls.
#[derive(Debug)]
pub struct CallFact {
    pub callee: Option<String>,
    pub kind: String,
    pub span: Span,
}

#[verifier::ext_equal]
pub struct CallView {
    pub callee: Option<Seq<char>>,
    pub kind: Seq<char>,
    pub span: Span,
}

impl View for CallFact {
    type V = CallView;

    open spec fn view(&self) -> CallView {
        CallView { callee: opt_view(self.callee), kind: self.kind@, span: self.span }
    }
}

pub open spec fn call_views(v: Seq<CallFact>) -> Seq<CallView> {
    v.map_values(|x: CallFact| x@)
}

/// A message about the analysis of a file, with its level.
#[derive(Debug)]
pub struct AnalysisDiagnostic {
    pub level: String,
    pub message: String,
}

#[verifier::ext_equal]
pub struct DiagnosticView {
    pub level: Seq<char>,
    pub message: Seq<char>,
}

impl View for AnalysisDiagnostic {
    type V = DiagnosticView;

    open spec fn view(&self) -> DiagnosticView {
        DiagnosticView { level: self.level@, message: self.message@ }
    }
}

pub open spec fn diagnostic_views(v: Seq<AnalysisDiagnostic>) -> Seq<DiagnosticView> {
    v.map_values(|x: AnalysisDiagnostic| x@)
}

/// How many named nodes a syntax tree has, and how deep it is.
#[derive(Clone, Copy, Debug, PartialEq, Eq, Structural)]
pub struct FileSummary {
    pub total_named_nodes: usize,
    pub max_depth: usize,
}

impl FileSummary {
    /// The summary of an empty tree.
    pub fn empty() -> (r: FileSummary)
        ensures
            r.total_named_nodes == 0,
            r.max_depth == 0,
    {
        FileSummary { total_named_nodes: 0, max_depth: 0 }
    }
}

/// A syntax node large enough to be compared with others for clones, with
/// fingerprints of its shape and tokens.
#[derive(Debug)]
pub struct AstSpanRecord {
    pub path: String,
    pub language: String,
    pub node_kind: String,
    pub start_line: usize,
    pub end_line: usize,
    pub line_count: usize,
    pub structural_hash: String,
    pub token_hash: String,
    pub structural_kinds: Vec<String>,
    pub preview: Vec<String>,
}

#[verifier::ext_equal]
pub struct AstSpanView {
    pub path: Seq<char>,
    pub language: Seq<char>,
    pub node_kind: Seq<char>,
    pub start_line: usize,
    pub end_line: usize,
    pub line_count: usize,
    pub structural_hash: Seq<char>,
    pub token_hash: Seq<char>,
    pub structural_kinds: Seq<Seq<char>>,
    pub preview: Seq<Seq<char>>,
}

impl View for AstSpanRecord {
    type V = AstSpanView;

    open spec fn view(&self) -> AstSpanView {
        AstSpanView {
            path: self.path@,
            language: self.language@,
            node_kind: self.node_kind@,
            start_line: self.start_line,
            end_line: self.end_line,
            line_count: self.line_count,
            structural_hash: self.structural_hash@,
            token_hash: self.token_hash@,
            structural_kinds: string_views(self.structural_kinds@),
            preview: string_views(self.preview@),
        }
    }
}

pub open spec fn ast_span_views(v: Seq<AstSpanRecord>) -> Seq<AstSpanView> {
    v.map_values(|x: AstSpanRecord| x@)
}

} // verus!
