//! The Markdown rendering of a scan report.
use vstd::prelude::*;

use crate::model::{
    call_views, diagnostic_views, import_views, node_summary_views, symbol_views, template_views,
    AnalysisDiagnostic, CallFact, CallView, DiagnosticView, ImportFact, ImportView, NodeSummary,
    NodeSummaryView, SymbolFact, SymbolView, TemplateNodeFact, TemplateNodeView,
};
use crate::report::{ExactFileGroup, ExactGroupView, FileFact, FileFactView, exact_group_views};
use crate::text::{decimal, string_views, usize_to_decimal};
use crate::normalize::shorten_hash;
use vstd::utf8::{decode_utf8, encode_utf8, is_char_boundary};

verus! {

broadcast use vstd::utf8::encode_utf8_decode_utf8;

// ---------------------------------------------------------------------------
// Building text
// ---------------------------------------------------------------------------

/// Strings joined with a separator between them.
pub open spec fn join_sep(ls: Seq<Seq<char>>, sep: Seq<char>) -> Seq<char>
    decreases ls.len(),
{
    if ls.len() == 0 {
        seq![]
    } else if ls.len() == 1 {
        ls[0]
    } else {
        join_sep(ls.drop_last(), sep) + sep + ls.last()
    }
}

/// Appends strings joined with a separator.
fn append_joined(out: &mut String, ls: &Vec<String>, sep: &str)
    ensures
        final(out)@ == old(out)@ + join_sep(string_views(ls@), sep@),
{
    let ghost start = out@;
    let n = ls.len();
    assert(string_views(ls@).take(0) =~= seq![]);
    assert(out@ =~= start + join_sep(string_views(ls@).take(0), sep@));
    for i in 0..n
        invariant
            n == ls@.len(),
            out@ == start + join_sep(string_views(ls@).take(i as int), sep@),
    {
        let ghost t = string_views(ls@).take(i + 1);
        assert(t.drop_last() =~= string_views(ls@).take(i as int));
        assert(t.last() == ls@[i as int]@);
        if i > 0 {
            out.append(sep);
        } else {
            assert(t =~= seq![ls@[0]@]);
        }
        out.append(ls[i].as_str());
        if i == 0 {
            assert(out@ =~= start + join_sep(t, sep@));
        } else {
            assert(out@ =~= start + join_sep(t, sep@));
        }
    }
    assert(string_views(ls@).take(n as int) =~= string_views(ls@));
}

/// Appends the decimal text of a number.
fn append_decimal(out: &mut String, n: usize)
    ensures
        final(out)@ == old(out)@ + decimal(n as nat),
{
    out.append(usize_to_decimal(n).as_str());
}

/// The text of an optional string, or a stand-in.
pub open spec fn or_text(o: Option<Seq<char>>, other: Seq<char>) -> Seq<char> {
    match o {
        Some(t) => t,
        None => other,
    }
}

fn append_or(out: &mut String, o: &Option<String>, other: &str)
    ensures
        final(out)@ == old(out)@ + or_text(
            match *o {
                Some(s) => Some(s@),
                None => None,
            },
            other@,
        ),
{
    match o {
        Some(s) => out.append(s.as_str()),
        None => out.append(other),
    }
}

/// The first `n` elements, or all of them when there are fewer.
pub open spec fn first_of<T>(s: Seq<T>, n: int) -> Seq<T> {
    if s.len() <= n {
        s
    } else {
        s.take(n)
    }
}

/// The texts of the elements, one after the other.
pub open spec fn concat_map<T>(s: Seq<T>, f: spec_fn(T) -> Seq<char>) -> Seq<char>
    decreases s.len(),
{
    if s.len() == 0 {
        seq![]
    } else {
        concat_map(s.drop_last(), f) + f(s.last())
    }
}

proof fn lemma_concat_map_step<T>(s: Seq<T>, f: spec_fn(T) -> Seq<char>, i: int)
    requires
        0 <= i < s.len(),
    ensures
        concat_map(s.take(i + 1), f) == concat_map(s.take(i), f) + f(s[i]),
{
    assert(s.take(i + 1).drop_last() =~= s.take(i));
}

// ---------------------------------------------------------------------------
// The lines of a file's facts
// ---------------------------------------------------------------------------

pub open spec fn node_line(n: NodeSummaryView) -> Seq<char> {
    "    - `"@ + n.kind + "`:"@ + decimal(n.start_line as nat) + "-"@ + decimal(n.end_line as nat)
        + "\n"@
}

pub open spec fn node_line_fn() -> spec_fn(NodeSummaryView) -> Seq<char> {
    |n: NodeSummaryView| node_line(n)
}

pub open spec fn symbol_line(s: SymbolView) -> Seq<char> {
    "    - `"@ + s.kind + "` `"@ + s.name + "` "@ + decimal(s.span.start_line as nat) + "-"@
        + decimal(s.span.end_line as nat) + "\n"@
}

pub open spec fn symbol_line_fn() -> spec_fn(SymbolView) -> Seq<char> {
    |s: SymbolView| symbol_line(s)
}

pub open spec fn template_line(t: TemplateNodeView) -> Seq<char> {
    "    - `"@ + t.kind + "` name=`"@ + or_text(t.name, "-"@) + "` depth=`"@ + decimal(
        t.depth as nat,
    ) + "` directives=`"@ + join_sep(t.directives, ", "@) + "` expr=`"@ + or_text(
        t.expression,
        "-"@,
    ) + "` "@ + decimal(t.span.start_line as nat) + "-"@ + decimal(t.span.end_line as nat)
        + "\n"@
}

pub open spec fn template_line_fn() -> spec_fn(TemplateNodeView) -> Seq<char> {
    |t: TemplateNodeView| template_line(t)
}

pub open spec fn import_line(i: ImportView) -> Seq<char> {
    "    - source=`"@ + or_text(i.source, "unknown"@) + "` names=`"@ + join_sep(
        i.imported_names,
        ", "@,
    ) + "`\n"@
}

pub open spec fn import_line_fn() -> spec_fn(ImportView) -> Seq<char> {
    |i: ImportView| import_line(i)
}

pub open spec fn call_line(c: CallView) -> Seq<char> {
    "    - `"@ + or_text(c.callee, "<unknown>"@) + "` "@ + decimal(c.span.start_line as nat) + "-"@
        + decimal(c.span.end_line as nat) + "\n"@
}

pub open spec fn call_line_fn() -> spec_fn(CallView) -> Seq<char> {
    |c: CallView| call_line(c)
}

pub open spec fn diagnostic_line(d: DiagnosticView) -> Seq<char> {
    "    - ["@ + d.level + "] "@ + d.message + "\n"@
}

pub open spec fn diagnostic_line_fn() -> spec_fn(DiagnosticView) -> Seq<char> {
    |d: DiagnosticView| diagnostic_line(d)
}

/// A titled list of samples, or nothing when there are none.
pub open spec fn section<T>(items: Seq<T>, title: Seq<char>, n: int, f: spec_fn(T) -> Seq<char>) -> Seq<
    char,
> {
    if items.len() == 0 {
        seq![]
    } else {
        title + concat_map(first_of(items, n), f)
    }
}

/// The first line of a file's entry.
pub open spec fn file_head(f: FileFactView) -> Seq<char> {
    "- `"@ + f.path + "`: language=`"@ + or_text(f.language, "unknown"@) + "` status=`"@
        + f.parse_status + "` template_nodes=`"@ + decimal(f.summary.template_node_count as nat)
        + "` symbols=`"@ + decimal(f.summary.symbol_count as nat) + "` imports=`"@ + decimal(
        f.summary.import_count as nat,
    ) + "` exports=`"@ + decimal(f.summary.export_count as nat) + "` calls=`"@ + decimal(
        f.summary.call_count as nat,
    ) + "` nodes=`"@ + decimal(f.summary.total_named_nodes as nat) + "`\n"@
}

/// A file's entry: its counts, then samples of its top-level nodes, symbols,
/// template nodes, imports and calls, and all its diagnostics.
#[verifier::opaque]
pub open spec fn file_entry(f: FileFactView) -> Seq<char> {
    file_head(f) + section(f.top_level_nodes, "  - 顶层节点:\n"@, 6, node_line_fn()) + section(
        f.symbols,
        "  - 符号样本:\n"@,
        6,
        symbol_line_fn(),
    ) + section(f.template_nodes, "  - Template 节点样本:\n"@, 6, template_line_fn()) + section(
        f.imports,
        "  - 导入样本:\n"@,
        4,
        import_line_fn(),
    ) + section(f.calls, "  - 调用样本:\n"@, 4, call_line_fn()) + section(
        f.diagnostics,
        "  - 诊断:\n"@,
        f.diagnostics.len() as int,
        diagnostic_line_fn(),
    )
}


fn append_node_section(out: &mut String, items: &Vec<NodeSummary>)
    ensures
        final(out)@ == old(out)@ + section(node_summary_views(items@), "  - 顶层节点:\n"@, 6, node_line_fn()),
{
    let ghost v = node_summary_views(items@);
    let ghost f = node_line_fn();
    if items.len() == 0 {
        assert(old(out)@ + section(v, "  - 顶层节点:\n"@, 6, f) =~= old(out)@);
        return;
    }
    let ghost start = out@;
    out.append("  - 顶层节点:\n");
    let m = if items.len() < 6usize {
        items.len()
    } else {
        6usize
    };
    assert(first_of(v, 6) =~= v.take(m as int));
    assert(concat_map(v.take(0), f) =~= seq![]);
    for i in 0..m
        invariant
            m <= items@.len() == v.len(),
            v == node_summary_views(items@),
            f == node_line_fn(),
            out@ == start + "  - 顶层节点:\n"@ + concat_map(v.take(i as int), f),
    {
        let x = &items[i];
        assert(v[i as int] == x@);
        proof {
            lemma_concat_map_step(v, f, i as int);
        }
        let ghost before = out@;
        out.append("    - `");
        out.append(x.kind.as_str());
        out.append("`:");
        append_decimal(out, x.start_line);
        out.append("-");
        append_decimal(out, x.end_line);
        out.append("\n");
        assert(out@ =~= before + f(x@));
    }
}

fn append_symbol_section(out: &mut String, items: &Vec<SymbolFact>)
    ensures
        final(out)@ == old(out)@ + section(symbol_views(items@), "  - 符号样本:\n"@, 6, symbol_line_fn()),
{
    let ghost v = symbol_views(items@);
    let ghost f = symbol_line_fn();
    if items.len() == 0 {
        assert(old(out)@ + section(v, "  - 符号样本:\n"@, 6, f) =~= old(out)@);
        return;
    }
    let ghost start = out@;
    out.append("  - 符号样本:\n");
    let m = if items.len() < 6usize {
        items.len()
    } else {
        6usize
    };
    assert(first_of(v, 6) =~= v.take(m as int));
    assert(concat_map(v.take(0), f) =~= seq![]);
    for i in 0..m
        invariant
            m <= items@.len() == v.len(),
            v == symbol_views(items@),
            f == symbol_line_fn(),
            out@ == start + "  - 符号样本:\n"@ + concat_map(v.take(i as int), f),
    {
        let x = &items[i];
        assert(v[i as int] == x@);
        proof {
            lemma_concat_map_step(v, f, i as int);
        }
        let ghost before = out@;
        out.append("    - `");
        out.append(x.kind.as_str());
        out.append("` `");
        out.append(x.name.as_str());
        out.append("` ");
        append_decimal(out, x.span.start_line);
        out.append("-");
        append_decimal(out, x.span.end_line);
        out.append("\n");
        assert(out@ =~= before + f(x@));
    }
}

fn template_line_text(x: &TemplateNodeFact) -> (r: String)
    ensures
        r@ == template_line(x@),
{
    let mut line = String::from_str("    - `");
    line.append(x.kind.as_str());
    line.append("` name=`");
    append_or(&mut line, &x.name, "-");
    line.append("` depth=`");
    append_decimal(&mut line, x.depth);
    line.append("` directives=`");
    append_joined(&mut line, &x.directives, ", ");
    line.append("` expr=`");
    append_or(&mut line, &x.expression, "-");
    line.append("` ");
    append_decimal(&mut line, x.span.start_line);
    line.append("-");
    append_decimal(&mut line, x.span.end_line);
    line.append("\n");
    line
}

fn append_template_section(out: &mut String, items: &Vec<TemplateNodeFact>)
    ensures
        final(out)@ == old(out)@ + section(template_views(items@), "  - Template 节点样本:\n"@, 6, template_line_fn()),
{
    let ghost v = template_views(items@);
    let ghost f = template_line_fn();
    if items.len() == 0 {
        assert(old(out)@ + section(v, "  - Template 节点样本:\n"@, 6, f) =~= old(out)@);
        return;
    }
    let ghost start = out@;
    out.append("  - Template 节点样本:\n");
    let m = if items.len() < 6usize {
        items.len()
    } else {
        6usize
    };
    assert(first_of(v, 6) =~= v.take(m as int));
    assert(concat_map(v.take(0), f) =~= seq![]);
    for i in 0..m
        invariant
            m <= items@.len() == v.len(),
            v == template_views(items@),
            f == template_line_fn(),
            out@ == start + "  - Template 节点样本:\n"@ + concat_map(v.take(i as int), f),
    {
        let x = &items[i];
        assert(v[i as int] == x@);
        proof {
            lemma_concat_map_step(v, f, i as int);
        }
        let ghost before = out@;
        out.append(template_line_text(x).as_str());
        assert(out@ =~= before + f(x@));
    }
}

fn append_import_section(out: &mut String, items: &Vec<ImportFact>)
    ensures
        final(out)@ == old(out)@ + section(import_views(items@), "  - 导入样本:\n"@, 4, import_line_fn()),
{
    let ghost v = import_views(items@);
    let ghost f = import_line_fn();
    if items.len() == 0 {
        assert(old(out)@ + section(v, "  - 导入样本:\n"@, 4, f) =~= old(out)@);
        return;
    }
    let ghost start = out@;
    out.append("  - 导入样本:\n");
    let m = if items.len() < 4usize {
        items.len()
    } else {
        4usize
    };
    assert(first_of(v, 4) =~= v.take(m as int));
    assert(concat_map(v.take(0), f) =~= seq![]);
    for i in 0..m
        invariant
            m <= items@.len() == v.len(),
            v == import_views(items@),
            f == import_line_fn(),
            out@ == start + "  - 导入样本:\n"@ + concat_map(v.take(i as int), f),
    {
        let x = &items[i];
        assert(v[i as int] == x@);
        proof {
            lemma_concat_map_step(v, f, i as int);
        }
        let ghost before = out@;
        out.append("    - source=`");
        append_or(out, &x.source, "unknown");
        out.append("` names=`");
        append_joined(out, &x.imported_names, ", ");
        out.append("`\n");
        assert(out@ =~= before + f(x@));
    }
}

fn append_call_section(out: &mut String, items: &Vec<CallFact>)
    ensures
        final(out)@ == old(out)@ + section(call_views(items@), "  - 调用样本:\n"@, 4, call_line_fn()),
{
    let ghost v = call_views(items@);
    let ghost f = call_line_fn();
    if items.len() == 0 {
        assert(old(out)@ + section(v, "  - 调用样本:\n"@, 4, f) =~= old(out)@);
        return;
    }
    let ghost start = out@;
    out.append("  - 调用样本:\n");
    let m = if items.len() < 4usize {
        items.len()
    } else {
        4usize
    };
    assert(first_of(v, 4) =~= v.take(m as int));
    assert(concat_map(v.take(0), f) =~= seq![]);
    for i in 0..m
        invariant
            m <= items@.len() == v.len(),
            v == call_views(items@),
            f == call_line_fn(),
            out@ == start + "  - 调用样本:\n"@ + concat_map(v.take(i as int), f),
    {
        let x = &items[i];
        assert(v[i as int] == x@);
        proof {
            lemma_concat_map_step(v, f, i as int);
        }
        let ghost before = out@;
        out.append("    - `");
        append_or(out, &x.callee, "<unknown>");
        out.append("` ");
        append_decimal(out, x.span.start_line);
        out.append("-");
        append_decimal(out, x.span.end_line);
        out.append("\n");
        assert(out@ =~= before + f(x@));
    }
}

fn append_diagnostic_section(out: &mut String, items: &Vec<AnalysisDiagnostic>)
    ensures
        final(out)@ == old(out)@ + section(
            diagnostic_views(items@),
            "  - 诊断:\n"@,
            items@.len() as int,
            diagnostic_line_fn(),
        ),
{
    let ghost v = diagnostic_views(items@);
    let ghost f = diagnostic_line_fn();
    if items.len() == 0 {
        assert(old(out)@ + section(v, "  - 诊断:\n"@, 0, f) =~= old(out)@);
        return;
    }
    let ghost start = out@;
    out.append("  - 诊断:\n");
    let m = items.len();
    assert(first_of(v, m as int) =~= v.take(m as int));
    assert(concat_map(v.take(0), f) =~= seq![]);
    for i in 0..m
        invariant
            m == items@.len() == v.len(),
            v == diagnostic_views(items@),
            f == diagnostic_line_fn(),
            out@ == start + "  - 诊断:\n"@ + concat_map(v.take(i as int), f),
    {
        let x = &items[i];
        assert(v[i as int] == x@);
        proof {
            lemma_concat_map_step(v, f, i as int);
        }
        let mut line = String::from_str("    - [");
        line.append(x.level.as_str());
        line.append("] ");
        line.append(x.message.as_str());
        line.append("\n");
        let ghost before = out@;
        out.append(line.as_str());
        assert(out@ =~= before + f(x@));
    }
}

/// The entry of one file.
fn file_entry_text(f: &FileFact) -> (r: String)
    ensures
        r@ == file_entry(f@),
{
    let mut line = String::from_str("- `");
    line.append(f.path.as_str());
    line.append("`: language=`");
    append_or(&mut line, &f.language, "unknown");
    line.append("` status=`");
    line.append(f.parse_status.as_str());
    line.append("` template_nodes=`");
    append_decimal(&mut line, f.summary.template_node_count);
    line.append("` symbols=`");
    append_decimal(&mut line, f.summary.symbol_count);
    line.append("` imports=`");
    append_decimal(&mut line, f.summary.import_count);
    line.append("` exports=`");
    append_decimal(&mut line, f.summary.export_count);
    line.append("` calls=`");
    append_decimal(&mut line, f.summary.call_count);
    line.append("` nodes=`");
    append_decimal(&mut line, f.summary.total_named_nodes);
    line.append("`\n");
    assert(line@ == file_head(f@));
    append_node_section(&mut line, &f.top_level_nodes);
    append_symbol_section(&mut line, &f.symbols);
    append_template_section(&mut line, &f.template_nodes);
    append_import_section(&mut line, &f.imports);
    append_call_section(&mut line, &f.calls);
    append_diagnostic_section(&mut line, &f.diagnostics);
    proof {
        reveal(file_entry);
    }
    line
}

// ---------------------------------------------------------------------------
// The report
// ---------------------------------------------------------------------------

/// A clone candidate as the Markdown report lists it, its confidence already
/// written with two decimals.
#[derive(Debug)]
pub struct CandidateLine {
    pub language: String,
    pub match_basis: String,
    pub occurrence_count: usize,
    pub confidence: String,
}

#[verifier::ext_equal]
pub struct CandidateLineView {
    pub language: Seq<char>,
    pub match_basis: Seq<char>,
    pub occurrence_count: usize,
    pub confidence: Seq<char>,
}

impl View for CandidateLine {
    type V = CandidateLineView;

    open spec fn view(&self) -> CandidateLineView {
        CandidateLineView {
            language: self.language@,
            match_basis: self.match_basis@,
            occurrence_count: self.occurrence_count,
            confidence: self.confidence@,
        }
    }
}

pub open spec fn candidate_line_views(v: Seq<CandidateLine>) -> Seq<CandidateLineView> {
    v.map_values(|x: CandidateLine| x@)
}

/// What a scan found, as the Markdown report shows it.
#[derive(Debug)]
pub struct CodebaseReport {
    pub root: String,
    pub scanned_files: usize,
    pub parsed_files: usize,
    pub unsupported_files: usize,
    pub parse_error_files: usize,
    pub files: Vec<FileFact>,
    pub exact_duplicate_files: Vec<ExactFileGroup>,
    pub normalized_duplicate_files: Vec<ExactFileGroup>,
    pub clone_candidates: Vec<CandidateLine>,
    pub notes: Vec<String>,
}

pub open spec fn file_fact_views(v: Seq<FileFact>) -> Seq<FileFactView> {
    v.map_values(|x: FileFact| x@)
}

/// The first twelve bytes of a hash, or the whole hash when it is not
/// longer.
pub open spec fn short_hash(h: Seq<char>) -> Seq<char> {
    if encode_utf8(h).len() > 12 {
        decode_utf8(encode_utf8(h).take(12))
    } else {
        h
    }
}

pub open spec fn group_line(g: ExactGroupView) -> Seq<char> {
    "  - `"@ + short_hash(g.content_hash) + "` -> "@ + join_sep(g.paths, ", "@) + "\n"@
}

pub open spec fn group_line_fn() -> spec_fn(ExactGroupView) -> Seq<char> {
    |g: ExactGroupView| group_line(g)
}

pub open spec fn candidate_line(c: CandidateLineView) -> Seq<char> {
    "  - `"@ + c.language + "` `"@ + c.match_basis + "` occurrences=`"@ + decimal(
        c.occurrence_count as nat,
    ) + "` confidence=`"@ + c.confidence + "`\n"@
}

pub open spec fn candidate_line_fn() -> spec_fn(CandidateLineView) -> Seq<char> {
    |c: CandidateLineView| candidate_line(c)
}

pub open spec fn note_line(n: Seq<char>) -> Seq<char> {
    "- "@ + n + "\n"@
}

pub open spec fn note_line_fn() -> spec_fn(Seq<char>) -> Seq<char> {
    |n: Seq<char>| note_line(n)
}

pub open spec fn file_entry_fn() -> spec_fn(FileFactView) -> Seq<char> {
    |f: FileFactView| file_entry(f)
}

/// The head of the report: the scanned root and the counts of files.
pub open spec fn report_head(r: &CodebaseReport) -> Seq<char> {
    "# Scalpel 代码库 AST 报告\n\n"@ + "- 扫描根目录: `"@ + r.root@ + "`\n"@ + "- 扫描文件数: `"@
        + decimal(r.scanned_files as nat) + "`\n"@ + "- AST 成功解析: `"@ + decimal(
        r.parsed_files as nat,
    ) + "`\n"@ + "- AST 未支持: `"@ + decimal(r.unsupported_files as nat) + "`\n"@
        + "- AST 解析失败: `"@ + decimal(r.parse_error_files as nat) + "`\n\n"@
}

/// The section of file facts.
pub open spec fn files_part(files: Seq<FileFactView>) -> Seq<char> {
    "## 文件事实\n\n"@ + if files.len() == 0 {
        "未发现可分析文件。\n\n"@
    } else {
        concat_map(files, file_entry_fn()) + "\n"@
    }
}

/// A titled list of groups of files, or the title and `无` when there is
/// none.
pub open spec fn group_list(title: Seq<char>, groups: Seq<ExactGroupView>) -> Seq<char> {
    if groups.len() == 0 {
        title + ": 无\n"@
    } else {
        title + ":\n"@ + concat_map(groups, group_line_fn())
    }
}

/// The section of derived views: every group of identical files, every
/// group of files that are the same once normalised, and the first eight
/// clone candidates.
pub open spec fn derived_part(
    groups: Seq<ExactGroupView>,
    normalized: Seq<ExactGroupView>,
    candidates: Seq<CandidateLineView>,
) -> Seq<char> {
    "## 派生视图\n\n"@ + group_list("- 完全重复文件"@, groups) + group_list(
        "- 归一化后重复文件"@,
        normalized,
    ) + if candidates.len() == 0 {
        "- 重复候选: 无\n\n"@
    } else {
        "- 重复候选:\n"@ + concat_map(first_of(candidates, 8), candidate_line_fn()) + "\n"@
    }
}

/// The section of notes.
pub open spec fn notes_part(notes: Seq<Seq<char>>) -> Seq<char> {
    "## 说明\n\n"@ + concat_map(notes, note_line_fn())
}

/// The Markdown report.
pub open spec fn markdown_spec(r: &CodebaseReport) -> Seq<char> {
    report_head(r) + files_part(file_fact_views(r.files@)) + derived_part(
        exact_group_views(r.exact_duplicate_files@),
        exact_group_views(r.normalized_duplicate_files@),
        candidate_line_views(r.clone_candidates@),
    ) + notes_part(string_views(r.notes@))
}


/// A hash whose first twelve bytes end at a character boundary, when it is
/// longer than that.
pub open spec fn hash_cut_ok(h: Seq<char>) -> bool {
    encode_utf8(h).len() > 12 ==> is_char_boundary(encode_utf8(h), 12)
}

fn group_line_text(g: &ExactFileGroup) -> (r: String)
    requires
        hash_cut_ok(g.content_hash@),
    ensures
        r@ == group_line(g@),
{
    let short = shorten_hash(g.content_hash.as_str());
    assert(short@ == short_hash(g.content_hash@));
    let mut line = String::from_str("  - `");
    line.append(short);
    line.append("` -> ");
    append_joined(&mut line, &g.paths, ", ");
    line.append("\n");
    line
}

fn candidate_line_text(c: &CandidateLine) -> (r: String)
    ensures
        r@ == candidate_line(c@),
{
    let mut line = String::from_str("  - `");
    line.append(c.language.as_str());
    line.append("` `");
    line.append(c.match_basis.as_str());
    line.append("` occurrences=`");
    append_decimal(&mut line, c.occurrence_count);
    line.append("` confidence=`");
    line.append(c.confidence.as_str());
    line.append("`\n");
    line
}

fn report_head_text(report: &CodebaseReport) -> (r: String)
    ensures
        r@ == report_head(report),
{
    let mut out = String::from_str("# Scalpel 代码库 AST 报告\n\n");
    out.append("- 扫描根目录: `");
    out.append(report.root.as_str());
    out.append("`\n");
    out.append("- 扫描文件数: `");
    append_decimal(&mut out, report.scanned_files);
    out.append("`\n");
    out.append("- AST 成功解析: `");
    append_decimal(&mut out, report.parsed_files);
    out.append("`\n");
    out.append("- AST 未支持: `");
    append_decimal(&mut out, report.unsupported_files);
    out.append("`\n");
    out.append("- AST 解析失败: `");
    append_decimal(&mut out, report.parse_error_files);
    out.append("`\n\n");
    out
}

fn files_part_text(files: &Vec<FileFact>) -> (r: String)
    ensures
        r@ == files_part(file_fact_views(files@)),
{
    let ghost v = file_fact_views(files@);
    let ghost f = file_entry_fn();
    let mut out = String::from_str("## 文件事实\n\n");
    if files.len() == 0 {
        out.append("未发现可分析文件。\n\n");
        return out;
    }
    let n = files.len();
    assert(concat_map(v.take(0), f) =~= seq![]);
    assert(out@ =~= "## 文件事实\n\n"@ + concat_map(v.take(0), f));
    for i in 0..n
        invariant
            n == files@.len() == v.len(),
            v == file_fact_views(files@),
            f == file_entry_fn(),
            out@ == "## 文件事实\n\n"@ + concat_map(v.take(i as int), f),
    {
        assert(v[i as int] == files@[i as int]@);
        proof {
            lemma_concat_map_step(v, f, i as int);
        }
        let ghost before = out@;
        let e = file_entry_text(&files[i]);
        assert(e@ == f(v[i as int]));
        out.append(e.as_str());
        assert(out@ =~= before + f(v[i as int]));
    }
    assert(v.take(n as int) =~= v);
    let ghost body = out@;
    out.append("\n");
    assert(out@ =~= "## 文件事实\n\n"@ + (concat_map(v, f) + "\n"@));
    out
}

fn group_list_text(title: &str, groups: &Vec<ExactFileGroup>) -> (r: String)
    requires
        forall|i: int| 0 <= i < groups@.len() ==> hash_cut_ok((#[trigger] groups@[i]).content_hash@),
    ensures
        r@ == group_list(title@, exact_group_views(groups@)),
{
    let ghost gv = exact_group_views(groups@);
    let ghost gf = group_line_fn();
    let mut first = String::from_str(title);
    if groups.len() == 0 {
        first.append(": 无\n");
    } else {
        first.append(":\n");
        let n = groups.len();
        assert(concat_map(gv.take(0), gf) =~= seq![]);
        assert(first@ =~= title@ + ":\n"@ + concat_map(gv.take(0), gf));
        for i in 0..n
            invariant
                n == groups@.len() == gv.len(),
                gv == exact_group_views(groups@),
                gf == group_line_fn(),
                forall|i: int|
                    0 <= i < groups@.len() ==> hash_cut_ok((#[trigger] groups@[i]).content_hash@),
                first@ == title@ + ":\n"@ + concat_map(gv.take(i as int), gf),
        {
            assert(gv[i as int] == groups@[i as int]@);
            proof {
                lemma_concat_map_step(gv, gf, i as int);
            }
            let ghost before = first@;
            first.append(group_line_text(&groups[i]).as_str());
            assert(first@ =~= before + gf(gv[i as int]));
        }
        assert(gv.take(n as int) =~= gv);
    }
    first
}

fn derived_part_text(
    groups: &Vec<ExactFileGroup>,
    normalized: &Vec<ExactFileGroup>,
    candidates: &Vec<CandidateLine>,
) -> (r: String)
    requires
        forall|i: int| 0 <= i < groups@.len() ==> hash_cut_ok((#[trigger] groups@[i]).content_hash@),
        forall|i: int|
            0 <= i < normalized@.len() ==> hash_cut_ok((#[trigger] normalized@[i]).content_hash@),
    ensures
        r@ == derived_part(
            exact_group_views(groups@),
            exact_group_views(normalized@),
            candidate_line_views(candidates@),
        ),
{
    let ghost gv = exact_group_views(groups@);
    let ghost nv = exact_group_views(normalized@);
    let ghost cv = candidate_line_views(candidates@);
    let ghost cf = candidate_line_fn();
    let first = group_list_text("- 完全重复文件", groups);
    let middle = group_list_text("- 归一化后重复文件", normalized);
    let mut second = String::new();
    if candidates.len() == 0 {
        second.append("- 重复候选: 无\n\n");
    } else {
        second.append("- 重复候选:\n");
        let m = if candidates.len() < 8 {
            candidates.len()
        } else {
            8
        };
        assert(first_of(cv, 8) =~= cv.take(m as int));
        assert(concat_map(cv.take(0), cf) =~= seq![]);
        assert(second@ =~= "- 重复候选:\n"@ + concat_map(cv.take(0), cf));
        for i in 0..m
            invariant
                m <= candidates@.len() == cv.len(),
                cv == candidate_line_views(candidates@),
                cf == candidate_line_fn(),
                second@ == "- 重复候选:\n"@ + concat_map(cv.take(i as int), cf),
        {
            assert(cv[i as int] == candidates@[i as int]@);
            proof {
                lemma_concat_map_step(cv, cf, i as int);
            }
            let ghost before = second@;
            second.append(candidate_line_text(&candidates[i]).as_str());
            assert(second@ =~= before + cf(cv[i as int]));
        }
        second.append("\n");
    }
    let mut out = String::from_str("## 派生视图\n\n");
    out.append(first.as_str());
    out.append(middle.as_str());
    out.append(second.as_str());
    assert(out@ =~= derived_part(gv, nv, cv));
    out
}

fn notes_part_text(notes: &Vec<String>) -> (r: String)
    ensures
        r@ == notes_part(string_views(notes@)),
{
    let ghost v = string_views(notes@);
    let ghost f = note_line_fn();
    let mut out = String::from_str("## 说明\n\n");
    let n = notes.len();
    assert(concat_map(v.take(0), f) =~= seq![]);
    assert(out@ =~= "## 说明\n\n"@ + concat_map(v.take(0), f));
    for i in 0..n
        invariant
            n == notes@.len() == v.len(),
            v == string_views(notes@),
            f == note_line_fn(),
            out@ == "## 说明\n\n"@ + concat_map(v.take(i as int), f),
    {
        assert(v[i as int] == notes@[i as int]@);
        proof {
            lemma_concat_map_step(v, f, i as int);
        }
        let mut line = String::from_str("- ");
        line.append(notes[i].as_str());
        line.append("\n");
        let ghost before = out@;
        out.append(line.as_str());
        assert(out@ =~= before + f(v[i as int]));
    }
    assert(v.take(n as int) =~= v);
    out
}

/// Renders a scan report as Markdown: the counts, the facts of each file,
/// the derived views and the notes.
pub fn render_markdown(report: &CodebaseReport) -> (r: String)
    requires
        forall|i: int|
            0 <= i < report.exact_duplicate_files@.len() ==> hash_cut_ok(
                (#[trigger] report.exact_duplicate_files@[i]).content_hash@,
            ),
        forall|i: int|
            0 <= i < report.normalized_duplicate_files@.len() ==> hash_cut_ok(
                (#[trigger] report.normalized_duplicate_files@[i]).content_hash@,
            ),
    ensures
        r@ == markdown_spec(report),
{
    let mut out = report_head_text(report);
    out.append(files_part_text(&report.files).as_str());
    out.append(
        derived_part_text(
            &report.exact_duplicate_files,
            &report.normalized_duplicate_files,
            &report.clone_candidates,
        ).as_str(),
    );
    out.append(notes_part_text(&report.notes).as_str());
    out
}

/// `part` occurs in `whole` as a run of consecutive characters.
pub open spec fn holds_text(whole: Seq<char>, part: Seq<char>) -> bool {
    exists|i: int|
        0 <= i && i + part.len() <= whole.len() && #[trigger] whole.subrange(i, i + part.len())
            == part
}

/// The text of a list splits at any element: the texts before it, its own
/// text, and the texts after it.
proof fn lemma_concat_map_split<T>(s: Seq<T>, f: spec_fn(T) -> Seq<char>, k: int)
    requires
        0 <= k < s.len(),
    ensures
        concat_map(s, f) == concat_map(s.take(k), f) + f(s[k]) + concat_map(s.skip(k + 1), f),
    decreases s.len(),
{
    if k == s.len() - 1 {
        assert(s.drop_last() =~= s.take(k));
        assert(s.skip(k + 1) =~= Seq::<T>::empty());
        assert(concat_map(s.skip(k + 1), f) =~= seq![]);
    } else {
        let d = s.drop_last();
        lemma_concat_map_split(d, f, k);
        assert(d.take(k) =~= s.take(k));
        assert(d[k] == s[k]);
        let t = s.skip(k + 1);
        assert(t.len() > 0);
        assert(t.drop_last() =~= d.skip(k + 1));
        assert(t.last() == s.last());
        assert(concat_map(t, f) == concat_map(t.drop_last(), f) + f(t.last()));
    }
}

/// The import samples of a file as its report entry shows them: the title
/// `  - 导入样本:`, then one line `    - source=`..` names=`..`` for each of
/// the first four imports, in order.
pub open spec fn import_samples(imports: Seq<ImportView>) -> Seq<char> {
    "  - 导入样本:\n"@ + concat_map(
        first_of(imports, 4),
        |i: ImportView|
            "    - source=`"@ + or_text(i.source, "unknown"@) + "` names=`"@ + join_sep(
                i.imported_names,
                ", "@,
            ) + "`\n"@,
    )
}

proof fn lemma_entry_split(f: FileFactView) -> (r: (Seq<char>, Seq<char>))
    requires
        f.imports.len() > 0,
    ensures
        file_entry(f) == r.0 + import_samples(f.imports) + r.1,
{
    reveal(file_entry);
    let lf = |i: ImportView|
        "    - source=`"@ + or_text(i.source, "unknown"@) + "` names=`"@ + join_sep(
            i.imported_names,
            ", "@,
        ) + "`\n"@;
    assert(import_line_fn() =~= lf);
    let pre = file_head(f) + section(f.top_level_nodes, "  - 顶层节点:\n"@, 6, node_line_fn())
        + section(f.symbols, "  - 符号样本:\n"@, 6, symbol_line_fn()) + section(
        f.template_nodes,
        "  - Template 节点样本:\n"@,
        6,
        template_line_fn(),
    );
    let post = section(f.calls, "  - 调用样本:\n"@, 4, call_line_fn()) + section(
        f.diagnostics,
        "  - 诊断:\n"@,
        f.diagnostics.len() as int,
        diagnostic_line_fn(),
    );
    assert(section(f.imports, "  - 导入样本:\n"@, 4, import_line_fn()) == import_samples(
        f.imports,
    ));
    assert(file_entry(f) =~= pre + import_samples(f.imports) + post);
    (pre, post)
}

/// Every file with imports shows them in the Markdown report: the report
/// holds its import samples (see `import_samples`).
pub proof fn law_markdown_lists_import_samples(report: &CodebaseReport, k: int)
    requires
        0 <= k < report.files@.len(),
        report.files@[k]@.imports.len() > 0,
    ensures
        holds_text(markdown_spec(report), import_samples(report.files@[k]@.imports)),
{
    let files = file_fact_views(report.files@);
    let f = files[k];
    assert(f == report.files@[k]@);
    let (pre, post) = lemma_entry_split(f);
    lemma_concat_map_split(files, file_entry_fn(), k);
    let before = "## 文件事实\n\n"@ + concat_map(files.take(k), file_entry_fn());
    let after = concat_map(files.skip(k + 1), file_entry_fn()) + "\n"@;
    assert(files.len() > 0);
    assert(files_part(files) == before + file_entry(f) + after);
    let part = import_samples(f.imports);
    let a = report_head(report) + before + pre;
    let b = post + after + derived_part(
        exact_group_views(report.exact_duplicate_files@),
        exact_group_views(report.normalized_duplicate_files@),
        candidate_line_views(report.clone_candidates@),
    ) + notes_part(string_views(report.notes@));
    let whole = markdown_spec(report);
    assert(whole =~= a + part + b);
    assert(whole.subrange(a.len() as int, (a.len() + part.len()) as int) =~= part);
}

} // verus!
