//! The records of the files of a scan and the views derived from them: the
//! facts of each file, the counts by parse status, groups of files with the
//! same content, clone candidates and the notes of a report.
use vstd::prelude::*;

use crate::analysis::{
    analysis_views, analyze_file, file_analysis_of, fits_vue_size, vue_size_fits, FileAnalysis,
    FileAnalysisView,
};
use crate::language::{language_of_path, parse_status_name, LanguageKind, ParseStatus};
use crate::model::{
    ast_span_views, call_views, diagnostic_views, export_views, import_views, node_summary_views,
    symbol_views, template_views, AnalysisDiagnostic, AstSpanRecord, AstSpanView, CallFact,
    CallView, DiagnosticView, ExportFact, ExportView, ImportFact, ImportView, NodeSummary,
    NodeSummaryView, SymbolFact, SymbolView, TemplateNodeFact, TemplateNodeView,
};
use crate::normalize::{
    hash_string, hash_string_spec, lemma_sorted_distinct, nonempty_normalized, normalized_lines,
    sorted, sorted_distinct,
};
use crate::facts::{first_lines, take_strings};
use crate::text::{
    decimal, join_strings_with, join_with, lines, opt_view, string_views, usize_to_decimal,
};
use vstd::utf8::encode_utf8;
use vstd::string::StringSliceAdditionalSpecFns;
use vstd::string::StrSliceExecFns;

verus! {

/// A file read by a scan: its path relative to the scanned root, the hash of
/// its content, its non-empty normalised lines, its clone-detection records
/// and its analysis.
#[derive(Debug)]
pub struct FileRecord {
    pub path: String,
    pub content_hash: String,
    pub normalized_lines: Vec<String>,
    pub ast_spans: Vec<AstSpanRecord>,
    pub analysis: FileAnalysis,
}

#[verifier::ext_equal]
pub struct FileRecordView {
    pub path: Seq<char>,
    pub content_hash: Seq<char>,
    pub normalized_lines: Seq<Seq<char>>,
    pub ast_spans: Seq<AstSpanView>,
    pub analysis: FileAnalysisView,
}

impl View for FileRecord {
    type V = FileRecordView;

    open spec fn view(&self) -> FileRecordView {
        FileRecordView {
            path: self.path@,
            content_hash: self.content_hash@,
            normalized_lines: string_views(self.normalized_lines@),
            ast_spans: ast_span_views(self.ast_spans@),
            analysis: self.analysis@,
        }
    }
}

pub open spec fn record_views(v: Seq<FileRecord>) -> Seq<FileRecordView> {
    v.map_values(|f: FileRecord| f@)
}

/// What `load_file` gives for a file's content and relative path: `None`
/// when no line of it is left once normalised; else the record, with the
/// SHA-256 of the content, the normalised lines and the analysis of the
/// language that the path's extension names.
pub open spec fn loaded_record(
    r: Option<FileRecord>,
    content: Seq<char>,
    relative: Seq<char>,
    min_lines: usize,
    min_chars: usize,
) -> bool {
    &&& r is None <==> nonempty_normalized(lines(content)).len() == 0
    &&& r matches Some(f) ==> {
        &&& f.path@ == relative
        &&& f.content_hash@ == hash_string_spec(content)
        &&& string_views(f.normalized_lines@) == nonempty_normalized(lines(content))
        &&& file_analysis_of(
            (f.analysis@, ast_span_views(f.ast_spans@)),
            content,
            relative,
            language_of_path(relative),
            min_lines,
            min_chars,
        )
    }
}

/// Reads a file's content into its record (see `loaded_record`). A Vue
/// file must be small enough that its line numbers, summed over its blocks,
/// fit in a `usize`; `load_file_checked` tests that first.
pub fn load_file(content: &str, relative: &str, min_lines: usize, min_chars: usize) -> (r: Option<
    FileRecord,
>)
    requires
        content.spec_bytes().len() < usize::MAX,
        language_of_path(relative@) == Some(LanguageKind::Vue) ==> vue_size_fits(
            content@.len() as int,
        ),
    ensures
        loaded_record(r, content@, relative@, min_lines, min_chars),
{
    let normalized = normalized_lines(content);
    if normalized.len() == 0 {
        return None;
    }
    let language = LanguageKind::from_extension(relative);
    let (analysis, ast_spans) = analyze_file(content, relative, language, min_lines, min_chars);
    Some(
        FileRecord {
            path: String::from_str(relative),
            content_hash: hash_string(content),
            normalized_lines: normalized,
            ast_spans,
            analysis,
        },
    )
}

/// Why a file was not read.
#[derive(Clone, Copy, Debug, PartialEq, Eq, Structural)]
pub enum LoadError {
    /// A Vue file too large for its line numbers to fit in a `usize`.
    TooLarge,
}

/// `load_file` on any content: `Err(TooLarge)` exactly when the path names
/// a Vue file whose size `load_file` does not admit.
pub fn load_file_checked(
    content: &str,
    relative: &str,
    min_lines: usize,
    min_chars: usize,
) -> (r: Result<Option<FileRecord>, LoadError>)
    requires
        content.spec_bytes().len() < usize::MAX,
    ensures
        r is Err <==> (language_of_path(relative@) == Some(LanguageKind::Vue) && !vue_size_fits(
            content@.len() as int,
        )),
        r matches Ok(x) ==> loaded_record(x, content@, relative@, min_lines, min_chars),
{
    let language = LanguageKind::from_extension(relative);
    let is_vue = match language {
        Some(LanguageKind::Vue) => true,
        _ => false,
    };
    if is_vue && !fits_vue_size(content.unicode_len()) {
        return Err(LoadError::TooLarge);
    }
    Ok(load_file(content, relative, min_lines, min_chars))
}

// ---------------------------------------------------------------------------
// File facts
// ---------------------------------------------------------------------------

/// The counts of a file's facts.
#[derive(Clone, Copy, Debug, PartialEq, Eq, Structural)]
pub struct FileSummaryFact {
    pub total_named_nodes: usize,
    pub max_depth: usize,
    pub template_node_count: usize,
    pub symbol_count: usize,
    pub import_count: usize,
    pub export_count: usize,
    pub call_count: usize,
}

/// The facts of one file as a report lists them.
#[derive(Debug)]
pub struct FileFact {
    pub path: String,
    pub language: Option<String>,
    pub parse_status: String,
    pub content_hash: String,
    pub summary: FileSummaryFact,
    pub top_level_nodes: Vec<NodeSummary>,
    pub template_nodes: Vec<TemplateNodeFact>,
    pub symbols: Vec<SymbolFact>,
    pub imports: Vec<ImportFact>,
    pub exports: Vec<ExportFact>,
    pub calls: Vec<CallFact>,
    pub diagnostics: Vec<AnalysisDiagnostic>,
}

#[verifier::ext_equal]
pub struct FileFactView {
    pub path: Seq<char>,
    pub language: Option<Seq<char>>,
    pub parse_status: Seq<char>,
    pub content_hash: Seq<char>,
    pub summary: FileSummaryFact,
    pub top_level_nodes: Seq<NodeSummaryView>,
    pub template_nodes: Seq<TemplateNodeView>,
    pub symbols: Seq<SymbolView>,
    pub imports: Seq<ImportView>,
    pub exports: Seq<ExportView>,
    pub calls: Seq<CallView>,
    pub diagnostics: Seq<DiagnosticView>,
}

impl View for FileFact {
    type V = FileFactView;

    open spec fn view(&self) -> FileFactView {
        FileFactView {
            path: self.path@,
            language: opt_view(self.language),
            parse_status: self.parse_status@,
            content_hash: self.content_hash@,
            summary: self.summary,
            top_level_nodes: node_summary_views(self.top_level_nodes@),
            template_nodes: template_views(self.template_nodes@),
            symbols: symbol_views(self.symbols@),
            imports: import_views(self.imports@),
            exports: export_views(self.exports@),
            calls: call_views(self.calls@),
            diagnostics: diagnostic_views(self.diagnostics@),
        }
    }
}

/// The facts of a file: its record's analysis, with the number of each kind
/// of fact.
pub open spec fn file_fact_spec(f: FileRecordView) -> FileFactView {
    let a = f.analysis;
    FileFactView {
        path: f.path,
        language: a.language,
        parse_status: parse_status_name(a.parse_status),
        content_hash: f.content_hash,
        summary: FileSummaryFact {
            total_named_nodes: a.summary.total_named_nodes,
            max_depth: a.summary.max_depth,
            template_node_count: a.template_nodes.len() as usize,
            symbol_count: a.symbols.len() as usize,
            import_count: a.imports.len() as usize,
            export_count: a.exports.len() as usize,
            call_count: a.calls.len() as usize,
        },
        top_level_nodes: a.top_level_nodes,
        template_nodes: a.template_nodes,
        symbols: a.symbols,
        imports: a.imports,
        exports: a.exports,
        calls: a.calls,
        diagnostics: a.diagnostics,
    }
}

/// The facts of a file as a report lists them.
pub fn to_file_fact(file: FileRecord) -> (r: FileFact)
    ensures
        r@ == file_fact_spec(file@),
{
    let a = file.analysis;
    let summary = FileSummaryFact {
        total_named_nodes: a.summary.total_named_nodes,
        max_depth: a.summary.max_depth,
        template_node_count: a.template_nodes.len(),
        symbol_count: a.symbols.len(),
        import_count: a.imports.len(),
        export_count: a.exports.len(),
        call_count: a.calls.len(),
    };
    let r = FileFact {
        path: file.path,
        language: a.language,
        parse_status: String::from_str(a.parse_status.as_str()),
        content_hash: file.content_hash,
        summary,
        top_level_nodes: a.top_level_nodes,
        template_nodes: a.template_nodes,
        symbols: a.symbols,
        imports: a.imports,
        exports: a.exports,
        calls: a.calls,
        diagnostics: a.diagnostics,
    };
    assert(r@ =~= file_fact_spec(file@));
    r
}

// ---------------------------------------------------------------------------
// Counts by parse status
// ---------------------------------------------------------------------------

/// The number of files among the first `k` with the given status.
pub open spec fn status_count(files: Seq<FileRecordView>, status: ParseStatus, k: int) -> int
    decreases k,
{
    if k <= 0 {
        0
    } else {
        status_count(files, status, k - 1) + if files[k - 1].analysis.parse_status == status {
            1int
        } else {
            0int
        }
    }
}

/// The number of files with the given status.
pub fn count_status(files: &Vec<FileRecord>, status: ParseStatus) -> (r: usize)
    ensures
        r == status_count(record_views(files@), status, files@.len() as int),
{
    let mut c: usize = 0;
    let n = files.len();
    for k in 0..n
        invariant
            n == files@.len(),
            c == status_count(record_views(files@), status, k as int),
            c <= k,
    {
        assert(record_views(files@)[k as int] == files@[k as int]@);
        if files[k].analysis.parse_status == status {
            c = c + 1;
        }
    }
    c
}

proof fn lemma_status_counts_sum(files: Seq<FileRecordView>, k: int)
    requires
        0 <= k <= files.len(),
    ensures
        status_count(files, ParseStatus::Parsed, k) + status_count(
            files,
            ParseStatus::Unsupported,
            k,
        ) + status_count(files, ParseStatus::ParseError, k) == k,
    decreases k,
{
    if k > 0 {
        lemma_status_counts_sum(files, k - 1);
    }
}

/// Every file has exactly one of the three statuses, so the parsed, the
/// unsupported and the failed files together are all the scanned files.
pub proof fn law_status_counts_cover_all_files(files: Seq<FileRecordView>)
    ensures
        status_count(files, ParseStatus::Parsed, files.len() as int) + status_count(
            files,
            ParseStatus::Unsupported,
            files.len() as int,
        ) + status_count(files, ParseStatus::ParseError, files.len() as int) == files.len(),
{
    lemma_status_counts_sum(files, files.len() as int);
}

// ---------------------------------------------------------------------------
// Notes
// ---------------------------------------------------------------------------

/// The first note of a report.
pub open spec fn scope_note() -> Seq<char> {
    "工具当前以 AST 事实采集为主，重复候选仅作为 derived 视图附带输出。"@
}

/// The note with the counts by parse status.
pub open spec fn status_note(parsed: nat, unsupported: nat, parse_error: nat) -> Seq<char> {
    "已解析 "@ + decimal(parsed) + " 个文件，未支持 "@ + decimal(unsupported) + " 个文件，解析失败 "@
        + decimal(parse_error) + " 个文件。"@
}

/// The note with the sizes of the derived views.
pub open spec fn derived_note(exact_groups: nat, candidates: nat) -> Seq<char> {
    "当前 derived 中包含 "@ + decimal(exact_groups) + " 组完全重复文件、"@ + decimal(candidates)
        + " 组重复候选。"@
}

/// The notes at the end of a report: what the tool is for, the counts by
/// parse status, and the sizes of the derived views.
pub fn build_notes(
    parsed_files: usize,
    unsupported_files: usize,
    parse_error_files: usize,
    exact_duplicate_groups: usize,
    clone_candidates: usize,
) -> (r: Vec<String>)
    ensures
        string_views(r@) == seq![
            scope_note(),
            status_note(parsed_files as nat, unsupported_files as nat, parse_error_files as nat),
            derived_note(exact_duplicate_groups as nat, clone_candidates as nat),
        ],
{
    let mut notes: Vec<String> = Vec::new();
    notes.push(String::from_str("工具当前以 AST 事实采集为主，重复候选仅作为 derived 视图附带输出。"));
    let mut s = String::from_str("已解析 ");
    s.append(usize_to_decimal(parsed_files).as_str());
    s.append(" 个文件，未支持 ");
    s.append(usize_to_decimal(unsupported_files).as_str());
    s.append(" 个文件，解析失败 ");
    s.append(usize_to_decimal(parse_error_files).as_str());
    s.append(" 个文件。");
    notes.push(s);
    let mut d = String::from_str("当前 derived 中包含 ");
    d.append(usize_to_decimal(exact_duplicate_groups).as_str());
    d.append(" 组完全重复文件、");
    d.append(usize_to_decimal(clone_candidates).as_str());
    d.append(" 组重复候选。");
    notes.push(d);
    assert(string_views(notes@) =~= seq![
        scope_note(),
        status_note(parsed_files as nat, unsupported_files as nat, parse_error_files as nat),
        derived_note(exact_duplicate_groups as nat, clone_candidates as nat),
    ]);
    notes
}


// ---------------------------------------------------------------------------
// Grouping by key
// ---------------------------------------------------------------------------

/// The first group from position `j` on whose key is `key`.
pub open spec fn key_index<K>(g: Seq<(K, Seq<int>)>, key: K, j: int) -> Option<int>
    decreases g.len() - j,
{
    if j < 0 || j >= g.len() {
        None
    } else if g[j].0 == key {
        Some(j)
    } else {
        key_index(g, key, j + 1)
    }
}

/// The positions `0..k` grouped by their keys: one group per key, in order of
/// the key's first occurrence, each with its positions in order.
pub open spec fn group_indices<K>(keys: Seq<K>, k: int) -> Seq<(K, Seq<int>)>
    decreases k,
{
    if k <= 0 {
        seq![]
    } else {
        let g = group_indices(keys, k - 1);
        match key_index(g, keys[k - 1], 0) {
            Some(j) => g.update(j, (g[j].0, g[j].1.push(k - 1))),
            None => g.push((keys[k - 1], seq![k - 1])),
        }
    }
}

/// The positions held by a vector of indices.
pub open spec fn index_view(v: Seq<usize>) -> Seq<int> {
    v.map_values(|u: usize| u as int)
}

proof fn lemma_key_index<K>(g: Seq<(K, Seq<int>)>, key: K, j: int)
    requires
        0 <= j,
    ensures
        key_index(g, key, j) matches Some(m) ==> j <= m < g.len() && g[m].0 == key && forall|
            q: int,
        | j <= q < m ==> g[q].0 != key,
        key_index(g, key, j) is None ==> forall|q: int| j <= q < g.len() ==> g[q].0 != key,
    decreases g.len() - j,
{
    if j < g.len() && g[j].0 != key {
        lemma_key_index(g, key, j + 1);
    }
}

/// The keys and positions of the groups `g`, held in two parallel vectors.
pub open spec fn groups_held(
    names: Seq<String>,
    members: Seq<Vec<usize>>,
    g: Seq<(Seq<char>, Seq<int>)>,
) -> bool {
    &&& names.len() == g.len()
    &&& members.len() == g.len()
    &&& forall|j: int| 0 <= j < g.len() ==> (#[trigger] names[j])@ == g[j].0
    &&& forall|j: int| 0 <= j < g.len() ==> index_view((#[trigger] members[j])@) == g[j].1
}

/// Groups positions by string keys: the keys of the groups, and for each
/// group its positions.
pub fn group_by_key(keys: &Vec<String>) -> (r: (Vec<String>, Vec<Vec<usize>>))
    ensures
        groups_held(r.0@, r.1@, group_indices(string_views(keys@), keys@.len() as int)),
{
    let ghost ks = string_views(keys@);
    let mut names: Vec<String> = Vec::new();
    let mut members: Vec<Vec<usize>> = Vec::new();
    let n = keys.len();
    for k in 0..n
        invariant
            n == keys@.len() == ks.len(),
            ks == string_views(keys@),
            groups_held(names@, members@, group_indices(ks, k as int)),
    {
        let ghost g = group_indices(ks, k as int);
        proof {
            lemma_key_index(g, ks[k as int], 0);
        }
        let key = &keys[k];
        let ghost kk = ks[k as int];
        assert(key@ == kk);
        let mut found: Option<usize> = None;
        let m = names.len();
        for j in 0..m
            invariant
                m == names@.len() == g.len(),
                key@ == kk,
                groups_held(names@, members@, g),
                found matches Some(f) ==> f < j && g[f as int].0 == kk && forall|q: int|
                    0 <= q < f ==> g[q].0 != kk,
                found is None ==> forall|q: int| 0 <= q < j ==> g[q].0 != kk,
        {
            assert(names@[j as int]@ == g[j as int].0);
            if found.is_none() && names[j] == *key {
                found = Some(j);
            }
        }
        let ghost names0 = names@;
        let ghost before = members@;
        match found {
            Some(f) => {
                assert(key_index(g, kk, 0) == Some(f as int));
                members[f].push(k);
                proof {
                    let g2 = group_indices(ks, k + 1);
                    assert(g2 == g.update(f as int, (g[f as int].0, g[f as int].1.push(k as int))));
                    assert(members@.len() == before.len());
                    assert forall|j: int| 0 <= j < g2.len() implies index_view(
                        (#[trigger] members@[j])@,
                    ) == g2[j].1 by {
                        assert(index_view(before[j]@) == g[j].1);
                        if j == f {
                            assert(members@[j]@ == before[j]@.push(k));
                            assert(index_view(members@[j]@) =~= index_view(before[j]@).push(
                                k as int,
                            ));
                        } else {
                            assert(members@[j] == before[j]);
                        }
                    }
                    assert forall|j: int| 0 <= j < g2.len() implies (#[trigger] names@[j])@
                        == g2[j].0 by {
                        assert(names0[j]@ == g[j].0);
                    }
                    assert(groups_held(names@, members@, g2));
                }
            },
            None => {
                assert(key_index(g, kk, 0) is None);
                names.push(key.clone());
                let mut v: Vec<usize> = Vec::new();
                v.push(k);
                members.push(v);
                proof {
                    let g2 = group_indices(ks, k + 1);
                    assert(g2 == g.push((kk, seq![k as int])));
                    assert forall|j: int| 0 <= j < g2.len() implies index_view(
                        (#[trigger] members@[j])@,
                    ) == g2[j].1 by {
                        if j == g.len() {
                            assert(index_view(members@[j]@) =~= seq![k as int]);
                        } else {
                            assert(members@[j] == before[j]);
                            assert(index_view(before[j]@) == g[j].1);
                        }
                    }
                    assert forall|j: int| 0 <= j < g2.len() implies (#[trigger] names@[j])@
                        == g2[j].0 by {
                        if j < g.len() {
                            assert(names@[j] == names0[j]);
                            assert(names0[j]@ == g[j].0);
                        }
                    }
                    assert(groups_held(names@, members@, g2));
                }
            },
        }
    }
    (names, members)
}

// ---------------------------------------------------------------------------
// Files with the same content
// ---------------------------------------------------------------------------

/// Files that share a content hash, by their paths.
#[derive(Debug)]
pub struct ExactFileGroup {
    pub content_hash: String,
    pub paths: Vec<String>,
}

#[verifier::ext_equal]
pub struct ExactGroupView {
    pub content_hash: Seq<char>,
    pub paths: Seq<Seq<char>>,
}

impl View for ExactFileGroup {
    type V = ExactGroupView;

    open spec fn view(&self) -> ExactGroupView {
        ExactGroupView { content_hash: self.content_hash@, paths: string_views(self.paths@) }
    }
}

pub open spec fn exact_group_views(v: Seq<ExactFileGroup>) -> Seq<ExactGroupView> {
    v.map_values(|g: ExactFileGroup| g@)
}

/// `x` placed after every element whose key is at least its key.
pub open spec fn insert_desc<T>(t: Seq<T>, x: T, key: spec_fn(T) -> int) -> Seq<T>
    decreases t.len(),
{
    if t.len() == 0 {
        seq![x]
    } else if key(t[0]) < key(x) {
        seq![x] + t
    } else {
        seq![t[0]] + insert_desc(t.drop_first(), x, key)
    }
}

/// The elements sorted by descending key; elements with equal keys keep
/// their order.
pub open spec fn sort_desc<T>(s: Seq<T>, key: spec_fn(T) -> int) -> Seq<T>
    decreases s.len(),
{
    if s.len() == 0 {
        seq![]
    } else {
        insert_desc(sort_desc(s.drop_last(), key), s.last(), key)
    }
}

/// The number of paths of a group.
pub open spec fn group_size(g: ExactGroupView) -> int {
    g.paths.len() as int
}

pub open spec fn group_size_fn() -> spec_fn(ExactGroupView) -> int {
    |g: ExactGroupView| group_size(g)
}

/// The first `n` elements, or all of them when there are fewer.
pub open spec fn first_n<T>(s: Seq<T>, n: int) -> Seq<T> {
    if s.len() <= n {
        s
    } else {
        s.take(n)
    }
}

/// The content hash of each file.
pub open spec fn content_hashes(files: Seq<FileRecordView>) -> Seq<Seq<char>> {
    files.map_values(|f: FileRecordView| f.content_hash)
}

/// The paths of the files at the given positions.
pub open spec fn paths_at(files: Seq<FileRecordView>, idx: Seq<int>) -> Seq<Seq<char>> {
    idx.map_values(|i: int| files[i].path)
}

/// The groups of files with the same key (one key per file) that hold at
/// least two files, in order of first occurrence, each with its key and its
/// distinct paths sorted.
pub open spec fn keyed_groups(files: Seq<FileRecordView>, keys: Seq<Seq<char>>) -> Seq<
    ExactGroupView,
> {
    group_indices(keys, files.len() as int).filter(|g: (Seq<char>, Seq<int>)| g.1.len() >= 2).map_values(
        |g: (Seq<char>, Seq<int>)|
            ExactGroupView { content_hash: g.0, paths: sorted_distinct(paths_at(files, g.1)) },
    )
}

/// The groups of files with the same key as a report lists them: the
/// largest first (groups of one size in order of first occurrence), at most
/// forty.
pub open spec fn keyed_duplicates(files: Seq<FileRecordView>, keys: Seq<Seq<char>>) -> Seq<
    ExactGroupView,
> {
    first_n(sort_desc(keyed_groups(files, keys), group_size_fn()), 40)
}

/// The groups of files with the same content hash that hold at least two
/// files.
pub open spec fn duplicate_groups(files: Seq<FileRecordView>) -> Seq<ExactGroupView> {
    keyed_groups(files, content_hashes(files))
}

/// The groups of files with the same content, as a report lists them.
pub open spec fn exact_duplicates_spec(files: Seq<FileRecordView>) -> Seq<ExactGroupView> {
    keyed_duplicates(files, content_hashes(files))
}

/// The hash of a file's normalised text: its normalised lines joined by
/// line breaks.
pub open spec fn normalized_hash(f: FileRecordView) -> Seq<char> {
    hash_string_spec(join_with(f.normalized_lines, '\n'))
}

/// The hash of the normalised text of each file.
pub open spec fn normalized_hashes(files: Seq<FileRecordView>) -> Seq<Seq<char>> {
    files.map_values(|f: FileRecordView| normalized_hash(f))
}

/// The groups of files with the same normalised text (equal once comments,
/// literals and spacing are normalised away), as a report lists them; each
/// group carries the hash of that text.
pub open spec fn normalized_duplicates_spec(files: Seq<FileRecordView>) -> Seq<ExactGroupView> {
    keyed_duplicates(files, normalized_hashes(files))
}

/// `insert_desc` puts the element at the first position whose key is below
/// its key.
proof fn lemma_insert_desc<T>(t: Seq<T>, x: T, key: spec_fn(T) -> int, pos: int)
    requires
        0 <= pos <= t.len(),
        forall|q: int| 0 <= q < pos ==> key(#[trigger] t[q]) >= key(x),
        pos < t.len() ==> key(t[pos]) < key(x),
    ensures
        insert_desc(t, x, key) == t.insert(pos, x),
    decreases t.len(),
{
    if t.len() == 0 {
        assert(t.insert(pos, x) =~= seq![x]);
    } else if pos == 0 {
        assert(t.insert(pos, x) =~= seq![x] + t);
    } else {
        assert(key(t[0]) >= key(x));
        let t2 = t.drop_first();
        assert forall|q: int| 0 <= q < pos - 1 implies key(#[trigger] t2[q]) >= key(x) by {
            assert(t2[q] == t[q + 1]);
        }
        lemma_insert_desc(t2, x, key, pos - 1);
        assert(t.insert(pos, x) =~= seq![t[0]] + t2.insert(pos - 1, x));
    }
}

/// Groups the files by content hash and lists the groups of at least two
/// files, the largest first, at most forty.
pub fn find_exact_duplicate_files(files: &Vec<FileRecord>) -> (r: Vec<ExactFileGroup>)
    ensures
        exact_group_views(r@) == exact_duplicates_spec(record_views(files@)),
{
    let ghost fv = record_views(files@);
    let mut keys: Vec<String> = Vec::new();
    let n = files.len();
    for i in 0..n
        invariant
            n == files@.len() == fv.len(),
            fv == record_views(files@),
            string_views(keys@) == content_hashes(fv).take(i as int),
    {
        let ghost before = string_views(keys@);
        keys.push(files[i].content_hash.clone());
        assert(string_views(keys@) =~= before.push(fv[i as int].content_hash));
        assert(content_hashes(fv).take(i + 1) =~= content_hashes(fv).take(i as int).push(
            fv[i as int].content_hash,
        ));
    }
    assert(content_hashes(fv).take(n as int) =~= content_hashes(fv));
    keyed_duplicate_files(files, &keys)
}

/// Groups the files by their normalised text (see `normalized_hash`) and
/// lists the groups of at least two files, the largest first, at most forty.
pub fn find_normalized_duplicate_files(files: &Vec<FileRecord>) -> (r: Vec<ExactFileGroup>)
    ensures
        exact_group_views(r@) == normalized_duplicates_spec(record_views(files@)),
{
    let ghost fv = record_views(files@);
    let mut keys: Vec<String> = Vec::new();
    let n = files.len();
    for i in 0..n
        invariant
            n == files@.len() == fv.len(),
            fv == record_views(files@),
            string_views(keys@) == normalized_hashes(fv).take(i as int),
    {
        let ghost before = string_views(keys@);
        let text = join_strings_with(&files[i].normalized_lines, '\n');
        keys.push(hash_string(text.as_str()));
        assert(fv[i as int] == files@[i as int]@);
        assert(string_views(keys@) =~= before.push(normalized_hash(fv[i as int])));
        assert(normalized_hashes(fv).take(i + 1) =~= normalized_hashes(fv).take(i as int).push(
            normalized_hash(fv[i as int]),
        ));
    }
    assert(normalized_hashes(fv).take(n as int) =~= normalized_hashes(fv));
    keyed_duplicate_files(files, &keys)
}

/// Groups the files by the given keys, one per file, and lists the groups of
/// at least two files, the largest first, at most forty.
fn keyed_duplicate_files(files: &Vec<FileRecord>, keys: &Vec<String>) -> (r: Vec<ExactFileGroup>)
    requires
        keys@.len() == files@.len(),
    ensures
        exact_group_views(r@) == keyed_duplicates(record_views(files@), string_views(keys@)),
{
    let ghost fv = record_views(files@);
    let ghost ks = string_views(keys@);
    let n = files.len();
    let (names, members) = group_by_key(keys);
    let ghost g = group_indices(ks, n as int);
    assert(group_indices(string_views(keys@), keys@.len() as int) == g);
    assert(groups_held(names@, members@, g));
    let ghost pred = |x: (Seq<char>, Seq<int>)| x.1.len() >= 2;
    let ghost mk = |x: (Seq<char>, Seq<int>)|
        ExactGroupView { content_hash: x.0, paths: sorted_distinct(paths_at(fv, x.1)) };
    proof {
        assert forall|q: int, p: int| 0 <= q < g.len() && 0 <= p < g[q].1.len() implies 0
            <= #[trigger] g[q].1[p] < n by {
            lemma_group_members(ks, n as int, q);
        }
    }
    let mut dup: Vec<ExactFileGroup> = Vec::new();
    let m = names.len();
    for j in 0..m
        invariant
            m == names@.len() == members@.len() == g.len(),
            n == files@.len() == fv.len(),
            fv == record_views(files@),
            g == group_indices(ks, n as int),
            groups_held(names@, members@, g),
            forall|q: int, p: int|
                0 <= q < g.len() && 0 <= p < g[q].1.len() ==> 0 <= #[trigger] g[q].1[p] < n,
            pred == (|x: (Seq<char>, Seq<int>)| x.1.len() >= 2),
            mk == (|x: (Seq<char>, Seq<int>)|
                ExactGroupView { content_hash: x.0, paths: sorted_distinct(paths_at(fv, x.1)) }),
            exact_group_views(dup@) == g.take(j as int).filter(pred).map_values(mk),
    {
        let ghost gj = g[j as int];
        assert(names@[j as int]@ == gj.0);
        assert(g.take(j + 1).drop_last() =~= g.take(j as int));
        let ghost prev = g.take(j as int).filter(pred);
        assert(g.take(j + 1).last() == gj);
        assert(g.take(j + 1).filter(pred) == if pred(gj) {
            prev.push(gj)
        } else {
            prev
        }) by {
            reveal(Seq::filter);
        }
        assert(members@[j as int]@.len() == gj.1.len());
        if members[j].len() >= 2 {
            assert(pred(gj));
            let mut paths: Vec<String> = Vec::new();
            let count = members[j].len();
            for q in 0..count
                invariant
                    count == members@[j as int]@.len(),
                    j < m == members@.len(),
                    index_view(members@[j as int]@) == gj.1,
                    forall|p: int| 0 <= p < gj.1.len() ==> 0 <= #[trigger] gj.1[p] < n,
                    n == files@.len() == fv.len(),
                    fv == record_views(files@),
                    string_views(paths@) == paths_at(fv, gj.1).take(q as int),
            {
                let fi = members[j][q];
                assert(gj.1[q as int] == fi as int);
                let ghost before = string_views(paths@);
                paths.push(files[fi].path.clone());
                assert(fv[fi as int] == files@[fi as int]@);
                assert(string_views(paths@) =~= before.push(fv[fi as int].path));
                assert(paths_at(fv, gj.1).take(q + 1) =~= paths_at(fv, gj.1).take(q as int).push(
                    fv[fi as int].path,
                ));
            }
            assert(paths_at(fv, gj.1).take(count as int) =~= paths_at(fv, gj.1));
            let ghost dv = exact_group_views(dup@);
            dup.push(ExactFileGroup { content_hash: names[j].clone(), paths: sorted(paths) });
            assert(exact_group_views(dup@) =~= dv.push(mk(gj)));
            assert(g.take(j + 1).filter(pred) == prev.push(gj));
            assert(prev.push(gj).map_values(mk) =~= prev.map_values(mk).push(mk(gj)));
        } else {
            assert(!pred(gj));
            assert(g.take(j + 1).filter(pred) == prev);
        }
    }
    assert(g.take(m as int) =~= g);
    assert(keyed_groups(fv, ks) == g.filter(pred).map_values(mk));
    let ghost all = exact_group_views(dup@);
    let total = dup.len();
    let mut out: Vec<ExactFileGroup> = Vec::new();
    let mut taken: usize = 0;
    let ghost key = group_size_fn();
    assert(exact_group_views(out@) =~= sort_desc(all.take(0), key));
    while dup.len() > 0
        invariant
            taken + dup@.len() == all.len() == total,
            exact_group_views(dup@) == all.skip(taken as int),
            exact_group_views(out@) == sort_desc(all.take(taken as int), key),
            key == group_size_fn(),
        decreases dup@.len(),
    {
        let ghost ov = exact_group_views(out@);
        let ghost dup0 = dup@;
        assert(exact_group_views(dup0)[0] == dup0[0]@);
        let g0 = dup.remove(0);
        assert(g0@ == all[taken as int]);
        assert(exact_group_views(dup@) =~= exact_group_views(dup0).skip(1));
        assert(all.skip(taken as int).skip(1) =~= all.skip(taken + 1));
        let size = g0.paths.len();
        let mut pos: usize = 0;
        let on = out.len();
        while pos < on && out[pos].paths.len() >= size
            invariant
                on == out@.len() == ov.len(),
                ov == exact_group_views(out@),
                pos <= on,
                size == g0@.paths.len(),
                forall|q: int| 0 <= q < pos ==> key(#[trigger] ov[q]) >= key(g0@),
                key == group_size_fn(),
            decreases on - pos,
        {
            assert(ov[pos as int] == out@[pos as int]@);
            pos += 1;
        }
        proof {
            if pos < on {
                assert(ov[pos as int] == out@[pos as int]@);
            }
            lemma_insert_desc(ov, g0@, key, pos as int);
            assert(all.take(taken + 1).drop_last() =~= all.take(taken as int));
        }
        out.insert(pos, g0);
        assert(exact_group_views(out@) =~= ov.insert(pos as int, g0@));
        taken += 1;
        assert(exact_group_views(dup@) =~= all.skip(taken as int));
    }
    assert(all.take(taken as int) =~= all);
    out.truncate(40);
    assert(exact_group_views(out@) =~= first_n(sort_desc(all, key), 40));
    out
}

/// Every position in a group is one of the grouped positions.
proof fn lemma_group_members<K>(keys: Seq<K>, k: int, j: int)
    requires
        0 <= k <= keys.len(),
        0 <= j < group_indices(keys, k).len(),
    ensures
        forall|q: int|
            0 <= q < group_indices(keys, k)[j].1.len() ==> 0 <= #[trigger] group_indices(
                keys,
                k,
            )[j].1[q] < k,
    decreases k,
{
    if k > 0 {
        let g = group_indices(keys, k - 1);
        lemma_key_index(g, keys[k - 1], 0);
        if j < g.len() {
            lemma_group_members(keys, k - 1, j);
        }
    }
}


// ---------------------------------------------------------------------------
// Clone candidates
// ---------------------------------------------------------------------------

/// Where a clone candidate occurs.
#[derive(Debug)]
pub struct SourceSpan {
    pub path: String,
    pub start_line: usize,
    pub end_line: usize,
    pub node_kind: Option<String>,
}

#[verifier::ext_equal]
pub struct SourceSpanView {
    pub path: Seq<char>,
    pub start_line: usize,
    pub end_line: usize,
    pub node_kind: Option<Seq<char>>,
}

impl View for SourceSpan {
    type V = SourceSpanView;

    open spec fn view(&self) -> SourceSpanView {
        SourceSpanView {
            path: self.path@,
            start_line: self.start_line,
            end_line: self.end_line,
            node_kind: opt_view(self.node_kind),
        }
    }
}

pub open spec fn source_span_views(v: Seq<SourceSpan>) -> Seq<SourceSpanView> {
    v.map_values(|x: SourceSpan| x@)
}

/// A group of code spans that look alike, with the evidence for it. The
/// scores of a candidate are computed from `occurrence_count`,
/// `token_matches` and `representative_lines`.
#[derive(Debug)]
pub struct CloneGroup {
    pub candidate_kind: String,
    pub match_basis: String,
    pub language: String,
    pub occurrence_count: usize,
    /// How many occurrences have the first one's token hash.
    pub token_matches: usize,
    /// The number of lines of the first occurrence.
    pub representative_lines: usize,
    pub structural_hash: String,
    pub token_hash: String,
    pub sample_node_kinds: Vec<String>,
    pub occurrences: Vec<SourceSpan>,
    pub preview: Vec<String>,
}

#[verifier::ext_equal]
pub struct CloneGroupView {
    pub candidate_kind: Seq<char>,
    pub match_basis: Seq<char>,
    pub language: Seq<char>,
    pub occurrence_count: usize,
    pub token_matches: usize,
    pub representative_lines: usize,
    pub structural_hash: Seq<char>,
    pub token_hash: Seq<char>,
    pub sample_node_kinds: Seq<Seq<char>>,
    pub occurrences: Seq<SourceSpanView>,
    pub preview: Seq<Seq<char>>,
}

impl View for CloneGroup {
    type V = CloneGroupView;

    open spec fn view(&self) -> CloneGroupView {
        CloneGroupView {
            candidate_kind: self.candidate_kind@,
            match_basis: self.match_basis@,
            language: self.language@,
            occurrence_count: self.occurrence_count,
            token_matches: self.token_matches,
            representative_lines: self.representative_lines,
            structural_hash: self.structural_hash@,
            token_hash: self.token_hash@,
            sample_node_kinds: string_views(self.sample_node_kinds@),
            occurrences: source_span_views(self.occurrences@),
            preview: string_views(self.preview@),
        }
    }
}

pub open spec fn clone_group_views(v: Seq<CloneGroup>) -> Seq<CloneGroupView> {
    v.map_values(|x: CloneGroup| x@)
}

/// The keys and positions of the groups `g` keyed by pairs, held in three
/// parallel vectors.
pub open spec fn pair_groups_held(
    firsts: Seq<String>,
    seconds: Seq<String>,
    members: Seq<Vec<usize>>,
    g: Seq<((Seq<char>, Seq<char>), Seq<int>)>,
) -> bool {
    &&& firsts.len() == g.len()
    &&& seconds.len() == g.len()
    &&& members.len() == g.len()
    &&& forall|j: int| 0 <= j < g.len() ==> (#[trigger] firsts[j])@ == g[j].0.0
    &&& forall|j: int| 0 <= j < g.len() ==> (#[trigger] seconds[j])@ == g[j].0.1
    &&& forall|j: int| 0 <= j < g.len() ==> index_view((#[trigger] members[j])@) == g[j].1
}

/// The pairs of strings at each position.
pub open spec fn pair_views(a: Seq<String>, b: Seq<String>) -> Seq<(Seq<char>, Seq<char>)> {
    Seq::new(a.len(), |i: int| (a[i]@, b[i]@))
}

/// Groups positions by pairs of string keys.
pub fn group_by_pair(a: &Vec<String>, b: &Vec<String>) -> (r: (
    Vec<String>,
    Vec<String>,
    Vec<Vec<usize>>,
))
    requires
        a@.len() == b@.len(),
    ensures
        pair_groups_held(r.0@, r.1@, r.2@, group_indices(pair_views(a@, b@), a@.len() as int)),
{
    let ghost ks = pair_views(a@, b@);
    let mut firsts: Vec<String> = Vec::new();
    let mut seconds: Vec<String> = Vec::new();
    let mut members: Vec<Vec<usize>> = Vec::new();
    let n = a.len();
    for k in 0..n
        invariant
            n == a@.len() == b@.len() == ks.len(),
            ks == pair_views(a@, b@),
            pair_groups_held(firsts@, seconds@, members@, group_indices(ks, k as int)),
    {
        let ghost g = group_indices(ks, k as int);
        proof {
            lemma_key_index(g, ks[k as int], 0);
        }
        let ka = &a[k];
        let kb = &b[k];
        let ghost kk = ks[k as int];
        assert(kk == (ka@, kb@));
        let mut found: Option<usize> = None;
        let m = firsts.len();
        for j in 0..m
            invariant
                m == firsts@.len() == g.len(),
                kk == (ka@, kb@),
                pair_groups_held(firsts@, seconds@, members@, g),
                found matches Some(f) ==> f < j && g[f as int].0 == kk && forall|q: int|
                    0 <= q < f ==> g[q].0 != kk,
                found is None ==> forall|q: int| 0 <= q < j ==> g[q].0 != kk,
        {
            assert(firsts@[j as int]@ == g[j as int].0.0);
            assert(seconds@[j as int]@ == g[j as int].0.1);
            if found.is_none() && firsts[j] == *ka && seconds[j] == *kb {
                found = Some(j);
            }
        }
        let ghost f0 = firsts@;
        let ghost s0 = seconds@;
        let ghost before = members@;
        match found {
            Some(f) => {
                assert(key_index(g, kk, 0) == Some(f as int));
                members[f].push(k);
                proof {
                    let g2 = group_indices(ks, k + 1);
                    assert(g2 == g.update(f as int, (g[f as int].0, g[f as int].1.push(k as int))));
                    assert forall|j: int| 0 <= j < g2.len() implies index_view(
                        (#[trigger] members@[j])@,
                    ) == g2[j].1 by {
                        assert(index_view(before[j]@) == g[j].1);
                        if j == f {
                            assert(members@[j]@ == before[j]@.push(k));
                            assert(index_view(members@[j]@) =~= index_view(before[j]@).push(
                                k as int,
                            ));
                        } else {
                            assert(members@[j] == before[j]);
                        }
                    }
                    assert forall|j: int| 0 <= j < g2.len() implies (#[trigger] firsts@[j])@
                        == g2[j].0.0 by {
                        assert(f0[j]@ == g[j].0.0);
                    }
                    assert forall|j: int| 0 <= j < g2.len() implies (#[trigger] seconds@[j])@
                        == g2[j].0.1 by {
                        assert(s0[j]@ == g[j].0.1);
                    }
                    assert(pair_groups_held(firsts@, seconds@, members@, g2));
                }
            },
            None => {
                assert(key_index(g, kk, 0) is None);
                firsts.push(ka.clone());
                seconds.push(kb.clone());
                let mut v: Vec<usize> = Vec::new();
                v.push(k);
                members.push(v);
                proof {
                    let g2 = group_indices(ks, k + 1);
                    assert(g2 == g.push((kk, seq![k as int])));
                    assert forall|j: int| 0 <= j < g2.len() implies index_view(
                        (#[trigger] members@[j])@,
                    ) == g2[j].1 by {
                        if j == g.len() {
                            assert(index_view(members@[j]@) =~= seq![k as int]);
                        } else {
                            assert(members@[j] == before[j]);
                            assert(index_view(before[j]@) == g[j].1);
                        }
                    }
                    assert forall|j: int| 0 <= j < g2.len() implies (#[trigger] firsts@[j])@
                        == g2[j].0.0 by {
                        if j < g.len() {
                            assert(firsts@[j] == f0[j]);
                            assert(f0[j]@ == g[j].0.0);
                        }
                    }
                    assert forall|j: int| 0 <= j < g2.len() implies (#[trigger] seconds@[j])@
                        == g2[j].0.1 by {
                        if j < g.len() {
                            assert(seconds@[j] == s0[j]);
                            assert(s0[j]@ == g[j].0.1);
                        }
                    }
                    assert(pair_groups_held(firsts@, seconds@, members@, g2));
                }
            },
        }
    }
    (firsts, seconds, members)
}


/// The clone-detection records of the first `k` files, file after file.
pub open spec fn all_spans(files: Seq<FileRecordView>, k: int) -> Seq<AstSpanView>
    decreases k,
{
    if k <= 0 {
        seq![]
    } else {
        all_spans(files, k - 1) + files[k - 1].ast_spans
    }
}

/// The language and structural hash of each record.
pub open spec fn span_keys(sp: Seq<AstSpanView>) -> Seq<(Seq<char>, Seq<char>)> {
    sp.map_values(|x: AstSpanView| (x.language, x.structural_hash))
}

/// Two of the records at the given positions lie in different files.
pub open spec fn in_two_paths(sp: Seq<AstSpanView>, idx: Seq<int>) -> bool {
    exists|a: int, b: int|
        0 <= a < idx.len() && 0 <= b < idx.len() && #[trigger] sp[idx[a]].path != #[trigger] sp[idx[
            b
        ]].path
}

/// The number of the first `k` positions whose record has the token hash `h`.
pub open spec fn token_match_count(sp: Seq<AstSpanView>, idx: Seq<int>, h: Seq<char>, k: int) -> int
    decreases k,
{
    if k <= 0 {
        0
    } else {
        token_match_count(sp, idx, h, k - 1) + if sp[idx[k - 1]].token_hash == h {
            1int
        } else {
            0int
        }
    }
}

/// A group of records with one shape that is a clone candidate: at least two
/// records, in at least two files.
pub open spec fn is_structural_clone(
    sp: Seq<AstSpanView>,
    g: ((Seq<char>, Seq<char>), Seq<int>),
) -> bool {
    g.1.len() >= 2 && in_two_paths(sp, g.1)
}

/// Where a record lies.
pub open spec fn span_location(x: AstSpanView) -> SourceSpanView {
    SourceSpanView {
        path: x.path,
        start_line: x.start_line,
        end_line: x.end_line,
        node_kind: Some(x.node_kind),
    }
}

/// The candidate of a group of records with one shape, its first record
/// standing for the group.
pub open spec fn structural_candidate(
    sp: Seq<AstSpanView>,
    g: ((Seq<char>, Seq<char>), Seq<int>),
) -> CloneGroupView {
    let rep = sp[g.1[0]];
    CloneGroupView {
        candidate_kind: "structural_clone"@,
        match_basis: "ast_shape"@,
        language: g.0.0,
        occurrence_count: g.1.len() as usize,
        token_matches: token_match_count(sp, g.1, rep.token_hash, g.1.len() as int) as usize,
        representative_lines: rep.line_count,
        structural_hash: g.0.1,
        token_hash: rep.token_hash,
        sample_node_kinds: first_lines(rep.structural_kinds, 12),
        occurrences: g.1.map_values(|i: int| span_location(sp[i])),
        preview: rep.preview,
    }
}

/// The structural clone candidates: the records of all files grouped by
/// language and structural hash in order of first occurrence, the groups of
/// at least two records in at least two files.
pub open spec fn structural_clones_spec(files: Seq<FileRecordView>) -> Seq<CloneGroupView> {
    let sp = all_spans(files, files.len() as int);
    group_indices(span_keys(sp), sp.len() as int).filter(
        |g: ((Seq<char>, Seq<char>), Seq<int>)| is_structural_clone(sp, g),
    ).map_values(|g: ((Seq<char>, Seq<char>), Seq<int>)| structural_candidate(sp, g))
}

/// A copy of a vector of strings.
pub fn clone_strings(v: &Vec<String>) -> (r: Vec<String>)
    ensures
        string_views(r@) == string_views(v@),
{
    let r = take_strings(v, v.len());
    assert(string_views(r@) =~= string_views(v@));
    r
}

/// The candidate of one group of records with one shape, when the group is
/// one: at least two records, in at least two files.
fn structural_group(
    files: &Vec<FileRecord>,
    file_of: &Vec<usize>,
    span_of: &Vec<usize>,
    idx: &Vec<usize>,
    lang: &String,
    hash: &String,
) -> (r: Option<CloneGroup>)
    requires
        file_of@.len() == span_of@.len() == all_spans(
            record_views(files@),
            files@.len() as int,
        ).len(),
        forall|p: int|
            0 <= p < file_of@.len() ==> #[trigger] file_of@[p] < files@.len() && span_of@[p]
                < files@[file_of@[p] as int].ast_spans@.len() && all_spans(
                record_views(files@),
                files@.len() as int,
            )[p] == files@[file_of@[p] as int].ast_spans@[span_of@[p] as int]@,
        forall|p: int| 0 <= p < idx@.len() ==> #[trigger] idx@[p] < file_of@.len(),
    ensures
        ({
            let sp = all_spans(record_views(files@), files@.len() as int);
            let g = ((lang@, hash@), index_view(idx@));
            match r {
                Some(c) => is_structural_clone(sp, g) && c@ == structural_candidate(sp, g),
                None => !is_structural_clone(sp, g),
            }
        }),
{
    let ghost sp = all_spans(record_views(files@), files@.len() as int);
    let ghost gi = index_view(idx@);
    let ghost g = ((lang@, hash@), gi);
    let count = idx.len();
    if count < 2 {
        return None;
    }
    let p0 = idx[0];
    assert(gi[0] == p0 as int);
    let rep = &files[file_of[p0]].ast_spans[span_of[p0]];
    assert(rep@ == sp[p0 as int]);
    let n = files.len();
    let mut two_paths = false;
    let mut token_matches: usize = 0;
    let mut occurrences: Vec<SourceSpan> = Vec::new();
    for q in 0..count
        invariant
            count == idx@.len() == gi.len(),
            gi == index_view(idx@),
            n == files@.len(),
            sp == all_spans(record_views(files@), files@.len() as int),
            forall|p: int| 0 <= p < idx@.len() ==> #[trigger] idx@[p] < file_of@.len(),
            file_of@.len() == span_of@.len() == sp.len(),
            forall|p: int|
                0 <= p < file_of@.len() ==> #[trigger] file_of@[p] < n && span_of@[p]
                    < files@[file_of@[p] as int].ast_spans@.len() && sp[p]
                    == files@[file_of@[p] as int].ast_spans@[span_of@[p] as int]@,
            rep@ == sp[gi[0]],
            count >= 2,
            two_paths == exists|b: int| 0 <= b < q && #[trigger] sp[gi[b]].path != rep@.path,
            token_matches == token_match_count(sp, gi, rep@.token_hash, q as int),
            token_matches <= q,
            source_span_views(occurrences@) == gi.take(q as int).map_values(
                |i: int| span_location(sp[i]),
            ),
    {
        let pq = idx[q];
        assert(gi[q as int] == pq as int);
        let x = &files[file_of[pq]].ast_spans[span_of[pq]];
        assert(x@ == sp[pq as int]);
        if x.path != rep.path {
            two_paths = true;
        }
        if x.token_hash == rep.token_hash {
            token_matches = token_matches + 1;
        }
        let ghost before = source_span_views(occurrences@);
        occurrences.push(
            SourceSpan {
                path: x.path.clone(),
                start_line: x.start_line,
                end_line: x.end_line,
                node_kind: Some(x.node_kind.clone()),
            },
        );
        assert(source_span_views(occurrences@) =~= before.push(span_location(sp[pq as int])));
        assert(gi.take(q + 1).map_values(|i: int| span_location(sp[i])) =~= gi.take(
            q as int,
        ).map_values(|i: int| span_location(sp[i])).push(span_location(sp[pq as int])));
    }
    proof {
        if in_two_paths(sp, gi) {
            let (a, b) = choose|a: int, b: int|
                0 <= a < gi.len() && 0 <= b < gi.len() && #[trigger] sp[gi[a]].path
                    != #[trigger] sp[gi[b]].path;
            if sp[gi[a]].path == rep@.path {
                assert(sp[gi[b]].path != rep@.path);
            } else {
                assert(sp[gi[a]].path != rep@.path);
            }
        }
        if two_paths {
            let b = choose|b: int| 0 <= b < count && #[trigger] sp[gi[b]].path != rep@.path;
            assert(sp[gi[0]].path != sp[gi[b]].path);
        }
    }
    if !two_paths {
        return None;
    }
    assert(gi.take(count as int) =~= gi);
    let c = CloneGroup {
        candidate_kind: String::from_str("structural_clone"),
        match_basis: String::from_str("ast_shape"),
        language: lang.clone(),
        occurrence_count: count,
        token_matches,
        representative_lines: rep.line_count,
        structural_hash: hash.clone(),
        token_hash: rep.token_hash.clone(),
        sample_node_kinds: take_strings(&rep.structural_kinds, 12),
        occurrences,
        preview: clone_strings(&rep.preview),
    };
    assert(c@ =~= structural_candidate(sp, g));
    Some(c)
}

/// The structural clone candidates of the files.
pub fn find_ast_clone_candidates(files: &Vec<FileRecord>) -> (r: Vec<CloneGroup>)
    ensures
        clone_group_views(r@) == structural_clones_spec(record_views(files@)),
{
    let ghost fv = record_views(files@);
    let mut langs: Vec<String> = Vec::new();
    let mut hashes: Vec<String> = Vec::new();
    let mut file_of: Vec<usize> = Vec::new();
    let mut span_of: Vec<usize> = Vec::new();
    let n = files.len();
    for fi in 0..n
        invariant
            n == files@.len() == fv.len(),
            fv == record_views(files@),
            langs@.len() == hashes@.len() == file_of@.len() == span_of@.len() == all_spans(
                fv,
                fi as int,
            ).len(),
            pair_views(langs@, hashes@) == span_keys(all_spans(fv, fi as int)),
            forall|p: int|
                0 <= p < file_of@.len() ==> #[trigger] file_of@[p] < n && span_of@[p]
                    < files@[file_of@[p] as int].ast_spans@.len() && all_spans(fv, fi as int)[p]
                    == files@[file_of@[p] as int].ast_spans@[span_of@[p] as int]@,
    {
        let spans = &files[fi].ast_spans;
        let m = spans.len();
        let ghost base = all_spans(fv, fi as int);
        assert(fv[fi as int] == files@[fi as int]@);
        assert(fv[fi as int].ast_spans == ast_span_views(spans@));
        for si in 0..m
            invariant
                fi < n == files@.len() == fv.len(),
                fv == record_views(files@),
                spans == &files@[fi as int].ast_spans,
                m == spans@.len(),
                base == all_spans(fv, fi as int),
                fv[fi as int].ast_spans == ast_span_views(spans@),
                langs@.len() == hashes@.len() == file_of@.len() == span_of@.len() == base.len()
                    + si,
                pair_views(langs@, hashes@) == span_keys(base + ast_span_views(spans@).take(si as int)),
                forall|p: int|
                    0 <= p < file_of@.len() ==> #[trigger] file_of@[p] < n && span_of@[p]
                        < files@[file_of@[p] as int].ast_spans@.len() && (base + ast_span_views(
                        spans@,
                    ).take(si as int))[p] == files@[file_of@[p] as int].ast_spans@[span_of@[p] as int]@,
        {
            let ghost pv = pair_views(langs@, hashes@);
            let ghost prefix = base + ast_span_views(spans@).take(si as int);
            let ghost next = base + ast_span_views(spans@).take(si + 1);
            assert(next =~= prefix.push(spans@[si as int]@));
            langs.push(spans[si].language.clone());
            hashes.push(spans[si].structural_hash.clone());
            file_of.push(fi);
            span_of.push(si);
            assert(pair_views(langs@, hashes@) =~= pv.push(
                (spans@[si as int]@.language, spans@[si as int]@.structural_hash),
            ));
            assert(span_keys(prefix.push(spans@[si as int]@)) =~= span_keys(prefix).push(
                (spans@[si as int]@.language, spans@[si as int]@.structural_hash),
            ));
            assert(pair_views(langs@, hashes@) =~= span_keys(next));
            assert forall|p: int| 0 <= p < file_of@.len() implies #[trigger] file_of@[p] < n
                && span_of@[p] < files@[file_of@[p] as int].ast_spans@.len() && next[p]
                == files@[file_of@[p] as int].ast_spans@[span_of@[p] as int]@ by {
                if p < prefix.len() {
                    assert(next[p] == prefix[p]);
                }
            }
        }
        assert(ast_span_views(spans@).take(m as int) =~= ast_span_views(spans@));
        assert(all_spans(fv, fi + 1) == base + fv[fi as int].ast_spans);
    }
    let ghost sp = all_spans(fv, n as int);
    let (glangs, ghashes, members) = group_by_pair(&langs, &hashes);
    let ghost g = group_indices(span_keys(sp), sp.len() as int);
    assert(pair_views(langs@, hashes@) == span_keys(sp));
    assert(langs@.len() == sp.len());
    proof {
        assert forall|q: int, p: int| 0 <= q < g.len() && 0 <= p < g[q].1.len() implies 0
            <= #[trigger] g[q].1[p] < sp.len() by {
            lemma_group_members(span_keys(sp), sp.len() as int, q);
        }
    }
    let ghost pred = |x: ((Seq<char>, Seq<char>), Seq<int>)| is_structural_clone(sp, x);
    let ghost mk = |x: ((Seq<char>, Seq<char>), Seq<int>)| structural_candidate(sp, x);
    let mut out: Vec<CloneGroup> = Vec::new();
    let ng = glangs.len();
    for j in 0..ng
        invariant
            ng == glangs@.len() == g.len(),
            pair_groups_held(glangs@, ghashes@, members@, g),
            g == group_indices(span_keys(sp), sp.len() as int),
            n == files@.len() == fv.len(),
            fv == record_views(files@),
            sp == all_spans(fv, n as int),
            file_of@.len() == span_of@.len() == sp.len(),
            forall|p: int|
                0 <= p < file_of@.len() ==> #[trigger] file_of@[p] < n && span_of@[p]
                    < files@[file_of@[p] as int].ast_spans@.len() && sp[p]
                    == files@[file_of@[p] as int].ast_spans@[span_of@[p] as int]@,
            forall|q: int, p: int|
                0 <= q < g.len() && 0 <= p < g[q].1.len() ==> 0 <= #[trigger] g[q].1[p] < sp.len(),
            pred == (|x: ((Seq<char>, Seq<char>), Seq<int>)| is_structural_clone(sp, x)),
            mk == (|x: ((Seq<char>, Seq<char>), Seq<int>)| structural_candidate(sp, x)),
            clone_group_views(out@) == g.take(j as int).filter(pred).map_values(mk),
    {
        let ghost gj = g[j as int];
        let ghost prev = g.take(j as int).filter(pred);
        assert(g.take(j + 1).last() == gj);
        assert(g.take(j + 1).drop_last() =~= g.take(j as int));
        assert(g.take(j + 1).filter(pred) == if pred(gj) {
            prev.push(gj)
        } else {
            prev
        }) by {
            reveal(Seq::filter);
        }
        let idx = &members[j];
        assert(index_view(idx@) == gj.1);
        assert(glangs@[j as int]@ == gj.0.0);
        assert(ghashes@[j as int]@ == gj.0.1);
        assert(gj == ((glangs@[j as int]@, ghashes@[j as int]@), index_view(idx@)));
        assert forall|p: int| 0 <= p < idx@.len() implies #[trigger] idx@[p] < file_of@.len() by {
            assert(index_view(idx@)[p] == idx@[p] as int);
            assert(0 <= g[j as int].1[p] < sp.len());
        }
        match structural_group(files, &file_of, &span_of, idx, &glangs[j], &ghashes[j]) {
            Some(c) => {
                let ghost before = clone_group_views(out@);
                out.push(c);
                assert(clone_group_views(out@) =~= before.push(mk(gj)));
                assert(prev.push(gj).map_values(mk) =~= prev.map_values(mk).push(mk(gj)));
            },
            None => {},
        }
    }
    assert(g.take(ng as int) =~= g);
    assert(clone_group_views(out@) =~= structural_clones_spec(fv));
    out
}


/// A window of normalised lines that may be a clone: the hash of its text,
/// where it lies, and its first lines.
pub struct TextWindow {
    pub hash: Seq<char>,
    pub span: SourceSpanView,
    pub preview: Seq<Seq<char>>,
}

/// The text of the `n` lines from `start`, joined with newlines.
pub open spec fn window_text(ls: Seq<Seq<char>>, start: int, n: int) -> Seq<char> {
    join_with(ls.subrange(start, start + n), '\n')
}

/// The windows of `min_lines` lines of a file that start before line index
/// `s` and whose text has at least `min_chars` bytes.
pub open spec fn file_windows(f: FileRecordView, min_lines: int, min_chars: int, s: int) -> Seq<
    TextWindow,
>
    decreases s,
{
    if s <= 0 {
        seq![]
    } else {
        let st = s - 1;
        let rest = file_windows(f, min_lines, min_chars, st);
        let t = window_text(f.normalized_lines, st, min_lines);
        if encode_utf8(t).len() >= min_chars {
            rest.push(
                TextWindow {
                    hash: hash_string_spec(t),
                    span: SourceSpanView {
                        path: f.path,
                        start_line: (st + 1) as usize,
                        end_line: (st + min_lines) as usize,
                        node_kind: None,
                    },
                    preview: first_lines(f.normalized_lines.subrange(st, st + min_lines), 3),
                },
            )
        } else {
            rest
        }
    }
}

/// The text windows of a file: none when its syntax tree was read or it has
/// fewer than `min_lines` lines.
pub open spec fn windows_of(f: FileRecordView, min_lines: int, min_chars: int) -> Seq<TextWindow> {
    if f.analysis.parse_status == ParseStatus::Parsed || f.normalized_lines.len() < min_lines {
        seq![]
    } else {
        file_windows(f, min_lines, min_chars, f.normalized_lines.len() - min_lines + 1)
    }
}

/// The text windows of the first `k` files, file after file.
pub open spec fn all_windows(files: Seq<FileRecordView>, min_lines: int, min_chars: int, k: int) -> Seq<
    TextWindow,
>
    decreases k,
{
    if k <= 0 {
        seq![]
    } else {
        all_windows(files, min_lines, min_chars, k - 1) + windows_of(files[k - 1], min_lines, min_chars)
    }
}

/// Two of the windows at the given positions lie in different files.
pub open spec fn windows_in_two_paths(w: Seq<TextWindow>, idx: Seq<int>) -> bool {
    exists|a: int, b: int|
        0 <= a < idx.len() && 0 <= b < idx.len() && #[trigger] w[idx[a]].span.path
            != #[trigger] w[idx[b]].span.path
}

/// A group of windows with one hash that is a clone candidate: at least two
/// windows, in at least two files.
pub open spec fn is_text_clone(w: Seq<TextWindow>, g: (Seq<char>, Seq<int>)) -> bool {
    g.1.len() >= 2 && windows_in_two_paths(w, g.1)
}

/// The candidate of a group of windows with one hash.
pub open spec fn text_candidate(w: Seq<TextWindow>, g: (Seq<char>, Seq<int>)) -> CloneGroupView {
    CloneGroupView {
        candidate_kind: "fallback_clone"@,
        match_basis: "normalized_text_window"@,
        language: "fallback"@,
        occurrence_count: g.1.len() as usize,
        token_matches: 0,
        representative_lines: 0,
        structural_hash: "n/a"@,
        token_hash: g.0,
        sample_node_kinds: seq![],
        occurrences: g.1.map_values(|i: int| w[i].span),
        preview: w[g.1[0]].preview,
    }
}

/// The hash of each window.
pub open spec fn window_hashes(w: Seq<TextWindow>) -> Seq<Seq<char>> {
    w.map_values(|x: TextWindow| x.hash)
}

/// The text clone candidates of the files whose syntax tree was not read:
/// their windows of `min_lines` normalised lines with at least `min_chars`
/// bytes, grouped by hash in order of first occurrence, the groups of at least
/// two windows in at least two files.
pub open spec fn text_clones_spec(files: Seq<FileRecordView>, min_lines: int, min_chars: int) -> Seq<
    CloneGroupView,
> {
    let w = all_windows(files, min_lines, min_chars, files.len() as int);
    group_indices(window_hashes(w), w.len() as int).filter(
        |g: (Seq<char>, Seq<int>)| is_text_clone(w, g),
    ).map_values(|g: (Seq<char>, Seq<int>)| text_candidate(w, g))
}

/// The windows, held in three parallel vectors.
pub open spec fn windows_held(
    hashes: Seq<String>,
    spans: Seq<SourceSpan>,
    previews: Seq<Vec<String>>,
    w: Seq<TextWindow>,
) -> bool {
    &&& hashes.len() == w.len()
    &&& spans.len() == w.len()
    &&& previews.len() == w.len()
    &&& forall|i: int| 0 <= i < w.len() ==> (#[trigger] hashes[i])@ == w[i].hash
    &&& forall|i: int| 0 <= i < w.len() ==> (#[trigger] spans[i])@ == w[i].span
    &&& forall|i: int| 0 <= i < w.len() ==> string_views((#[trigger] previews[i])@) == w[i].preview
}

/// Appends the text windows of one file.
fn push_file_windows(
    f: &FileRecord,
    min_lines: usize,
    min_chars: usize,
    hashes: &mut Vec<String>,
    spans: &mut Vec<SourceSpan>,
    previews: &mut Vec<Vec<String>>,
    Ghost(w0): Ghost<Seq<TextWindow>>,
)
    requires
        windows_held(old(hashes)@, old(spans)@, old(previews)@, w0),
        f.normalized_lines@.len() < usize::MAX,
    ensures
        windows_held(
            final(hashes)@,
            final(spans)@,
            final(previews)@,
            w0 + windows_of(f@, min_lines as int, min_chars as int),
        ),
{
    let ghost fv = f@;
    let ghost ml = min_lines as int;
    let ghost mc = min_chars as int;
    let len = f.normalized_lines.len();
    if f.analysis.parse_status == ParseStatus::Parsed || len < min_lines {
        assert(w0 + windows_of(fv, ml, mc) =~= w0);
        return;
    }
    let last = len - min_lines;
    let mut st: usize = 0;
    assert(w0 + file_windows(fv, ml, mc, 0) =~= w0);
    loop
        invariant_except_break
            st <= last,
            windows_held(hashes@, spans@, previews@, w0 + file_windows(fv, ml, mc, st as int)),
        invariant
            fv == f@,
            ml == min_lines,
            mc == min_chars,
            len == f.normalized_lines@.len(),
            len < usize::MAX,
            last == len - min_lines,
        ensures
            windows_held(hashes@, spans@, previews@, w0 + file_windows(fv, ml, mc, last + 1)),
        decreases last - st,
    {
        let ghost prev = w0 + file_windows(fv, ml, mc, st as int);
        let mut part: Vec<String> = Vec::new();
        for q in 0..min_lines
            invariant
                st + min_lines <= len == f.normalized_lines@.len(),
                fv == f@,
                string_views(part@) == fv.normalized_lines.subrange(st as int, st + q),
        {
            let ghost before = string_views(part@);
            part.push(f.normalized_lines[st + q].clone());
            assert(string_views(part@) =~= before.push(fv.normalized_lines[st + q]));
            assert(fv.normalized_lines.subrange(st as int, st + q + 1) =~= fv.normalized_lines.subrange(
                st as int,
                st + q,
            ).push(fv.normalized_lines[st + q]));
        }
        let text = join_strings_with(&part, '\n');
        let ghost t = window_text(fv.normalized_lines, st as int, ml);
        assert(text@ == t);
        let byte_len = text.as_str().as_bytes().len();
        if byte_len >= min_chars {
            let h = hash_string(text.as_str());
            let sp = SourceSpan {
                path: f.path.clone(),
                start_line: st + 1,
                end_line: st + min_lines,
                node_kind: None,
            };
            let pv = take_strings(&part, 3);
            let ghost win = TextWindow { hash: h@, span: sp@, preview: string_views(pv@) };
            let ghost hs0 = hashes@;
            let ghost sp0 = spans@;
            let ghost pv0 = previews@;
            hashes.push(h);
            spans.push(sp);
            previews.push(pv);
            assert(w0 + file_windows(fv, ml, mc, st + 1) =~= prev.push(win));
            assert forall|i: int| 0 <= i < prev.len() + 1 implies (#[trigger] hashes@[i])@
                == prev.push(win)[i].hash by {
                if i < prev.len() {
                    assert(hashes@[i] == hs0[i]);
                }
            }
            assert forall|i: int| 0 <= i < prev.len() + 1 implies (#[trigger] spans@[i])@
                == prev.push(win)[i].span by {
                if i < prev.len() {
                    assert(spans@[i] == sp0[i]);
                }
            }
            assert forall|i: int| 0 <= i < prev.len() + 1 implies string_views(
                (#[trigger] previews@[i])@,
            ) == prev.push(win)[i].preview by {
                if i < prev.len() {
                    assert(previews@[i] == pv0[i]);
                }
            }
        } else {
            assert(w0 + file_windows(fv, ml, mc, st + 1) =~= prev);
        }
        if st == last {
            break;
        }
        st += 1;
    }
    assert(w0 + windows_of(fv, ml, mc) == w0 + file_windows(fv, ml, mc, last + 1));
}

/// The candidate of one group of windows with one hash, when the group is
/// one: at least two windows, in at least two files.
fn text_group(
    hashes: &Vec<String>,
    spans: &Vec<SourceSpan>,
    previews: &Vec<Vec<String>>,
    idx: &Vec<usize>,
    hash: &String,
    Ghost(w): Ghost<Seq<TextWindow>>,
) -> (r: Option<CloneGroup>)
    requires
        windows_held(hashes@, spans@, previews@, w),
        forall|p: int| 0 <= p < idx@.len() ==> #[trigger] idx@[p] < w.len(),
    ensures
        ({
            let g = (hash@, index_view(idx@));
            match r {
                Some(c) => is_text_clone(w, g) && c@ == text_candidate(w, g),
                None => !is_text_clone(w, g),
            }
        }),
{
    let ghost gi = index_view(idx@);
    let ghost g = (hash@, gi);
    let count = idx.len();
    if count < 2 {
        return None;
    }
    let p0 = idx[0];
    assert(gi[0] == p0 as int);
    let first = &spans[p0];
    assert(first@ == w[p0 as int].span);
    let mut two_paths = false;
    let mut occurrences: Vec<SourceSpan> = Vec::new();
    for q in 0..count
        invariant
            count == idx@.len() == gi.len(),
            gi == index_view(idx@),
            windows_held(hashes@, spans@, previews@, w),
            forall|p: int| 0 <= p < idx@.len() ==> #[trigger] idx@[p] < w.len(),
            first@ == w[gi[0]].span,
            count >= 2,
            two_paths == exists|b: int|
                0 <= b < q && #[trigger] w[gi[b]].span.path != first@.path,
            source_span_views(occurrences@) == gi.take(q as int).map_values(|i: int| w[i].span),
    {
        let pq = idx[q];
        assert(gi[q as int] == pq as int);
        let x = &spans[pq];
        assert(x@ == w[pq as int].span);
        assert(w[gi[q as int]].span.path == x.path@);
        if x.path != first.path {
            two_paths = true;
        }
        let ghost before = source_span_views(occurrences@);
        let node_kind = match &x.node_kind {
            Some(k) => Some(k.clone()),
            None => None,
        };
        occurrences.push(
            SourceSpan {
                path: x.path.clone(),
                start_line: x.start_line,
                end_line: x.end_line,
                node_kind,
            },
        );
        assert(source_span_views(occurrences@) =~= before.push(w[pq as int].span));
        assert(gi.take(q + 1).map_values(|i: int| w[i].span) =~= gi.take(q as int).map_values(
            |i: int| w[i].span,
        ).push(w[pq as int].span));
    }
    proof {
        if windows_in_two_paths(w, gi) {
            let (a, b) = choose|a: int, b: int|
                0 <= a < gi.len() && 0 <= b < gi.len() && #[trigger] w[gi[a]].span.path
                    != #[trigger] w[gi[b]].span.path;
            if w[gi[a]].span.path == first@.path {
                assert(w[gi[b]].span.path != first@.path);
            } else {
                assert(w[gi[a]].span.path != first@.path);
            }
        }
        if two_paths {
            let b = choose|b: int| 0 <= b < count && #[trigger] w[gi[b]].span.path != first@.path;
            assert(w[gi[0]].span.path != w[gi[b]].span.path);
        }
    }
    if !two_paths {
        return None;
    }
    assert(gi.take(count as int) =~= gi);
    let c = CloneGroup {
        candidate_kind: String::from_str("fallback_clone"),
        match_basis: String::from_str("normalized_text_window"),
        language: String::from_str("fallback"),
        occurrence_count: count,
        token_matches: 0,
        representative_lines: 0,
        structural_hash: String::from_str("n/a"),
        token_hash: hash.clone(),
        sample_node_kinds: Vec::new(),
        occurrences,
        preview: clone_strings(&previews[p0]),
    };
    assert(c@ =~= text_candidate(w, g));
    Some(c)
}

/// The text clone candidates of the files whose syntax tree was not read.
pub fn find_text_clone_candidates(files: &Vec<FileRecord>, min_lines: usize, min_chars: usize) -> (r:
    Vec<CloneGroup>)
    requires
        forall|i: int|
            0 <= i < files@.len() ==> (#[trigger] files@[i]).normalized_lines@.len() < usize::MAX,
    ensures
        clone_group_views(r@) == text_clones_spec(
            record_views(files@),
            min_lines as int,
            min_chars as int,
        ),
{
    let ghost fv = record_views(files@);
    let ghost ml = min_lines as int;
    let ghost mc = min_chars as int;
    let mut hashes: Vec<String> = Vec::new();
    let mut spans: Vec<SourceSpan> = Vec::new();
    let mut previews: Vec<Vec<String>> = Vec::new();
    let n = files.len();
    for fi in 0..n
        invariant
            n == files@.len() == fv.len(),
            fv == record_views(files@),
            ml == min_lines,
            mc == min_chars,
            forall|i: int|
                0 <= i < files@.len() ==> (#[trigger] files@[i]).normalized_lines@.len()
                    < usize::MAX,
            windows_held(hashes@, spans@, previews@, all_windows(fv, ml, mc, fi as int)),
    {
        assert(fv[fi as int] == files@[fi as int]@);
        push_file_windows(
            &files[fi],
            min_lines,
            min_chars,
            &mut hashes,
            &mut spans,
            &mut previews,
            Ghost(all_windows(fv, ml, mc, fi as int)),
        );
    }
    let ghost w = all_windows(fv, ml, mc, n as int);
    assert(string_views(hashes@) =~= window_hashes(w));
    let (names, members) = group_by_key(&hashes);
    let ghost g = group_indices(window_hashes(w), w.len() as int);
    assert(group_indices(string_views(hashes@), hashes@.len() as int) == g);
    proof {
        assert forall|q: int, p: int| 0 <= q < g.len() && 0 <= p < g[q].1.len() implies 0
            <= #[trigger] g[q].1[p] < w.len() by {
            lemma_group_members(window_hashes(w), w.len() as int, q);
        }
    }
    let ghost pred = |x: (Seq<char>, Seq<int>)| is_text_clone(w, x);
    let ghost mk = |x: (Seq<char>, Seq<int>)| text_candidate(w, x);
    let mut out: Vec<CloneGroup> = Vec::new();
    let ng = names.len();
    for j in 0..ng
        invariant
            ng == names@.len() == g.len(),
            groups_held(names@, members@, g),
            windows_held(hashes@, spans@, previews@, w),
            forall|q: int, p: int|
                0 <= q < g.len() && 0 <= p < g[q].1.len() ==> 0 <= #[trigger] g[q].1[p] < w.len(),
            pred == (|x: (Seq<char>, Seq<int>)| is_text_clone(w, x)),
            mk == (|x: (Seq<char>, Seq<int>)| text_candidate(w, x)),
            clone_group_views(out@) == g.take(j as int).filter(pred).map_values(mk),
    {
        let ghost gj = g[j as int];
        let ghost prev = g.take(j as int).filter(pred);
        assert(g.take(j + 1).last() == gj);
        assert(g.take(j + 1).drop_last() =~= g.take(j as int));
        assert(g.take(j + 1).filter(pred) == if pred(gj) {
            prev.push(gj)
        } else {
            prev
        }) by {
            reveal(Seq::filter);
        }
        let idx = &members[j];
        assert(index_view(idx@) == gj.1);
        assert(names@[j as int]@ == gj.0);
        assert forall|p: int| 0 <= p < idx@.len() implies #[trigger] idx@[p] < w.len() by {
            assert(index_view(idx@)[p] == idx@[p] as int);
            assert(0 <= g[j as int].1[p] < w.len());
        }
        match text_group(&hashes, &spans, &previews, idx, &names[j], Ghost(w)) {
            Some(c) => {
                let ghost before = clone_group_views(out@);
                out.push(c);
                assert(clone_group_views(out@) =~= before.push(mk(gj)));
                assert(prev.push(gj).map_values(mk) =~= prev.map_values(mk).push(mk(gj)));
            },
            None => {},
        }
    }
    assert(g.take(ng as int) =~= g);
    assert(clone_group_views(out@) =~= text_clones_spec(fv, ml, mc));
    out
}


// ---------------------------------------------------------------------------
// Laws of the derived views
// ---------------------------------------------------------------------------

/// Each group's positions are increasing and hold the group's key, and no two
/// groups share a key.
proof fn lemma_groups_well_formed<K>(keys: Seq<K>, k: int)
    requires
        0 <= k <= keys.len(),
    ensures
        forall|i: int, j: int|
            0 <= i < j < group_indices(keys, k).len() ==> group_indices(keys, k)[i].0
                != group_indices(keys, k)[j].0,
        forall|j: int, p: int|
            0 <= j < group_indices(keys, k).len() && 0 <= p < group_indices(keys, k)[j].1.len()
                ==> 0 <= group_indices(keys, k)[j].1[p] < k && keys[group_indices(keys, k)[j].1[p]]
                == group_indices(keys, k)[j].0,
        forall|j: int, p: int, q: int|
            0 <= j < group_indices(keys, k).len() && 0 <= p < q < group_indices(keys, k)[j].1.len()
                ==> group_indices(keys, k)[j].1[p] < group_indices(keys, k)[j].1[q],
        forall|j: int| 0 <= j < group_indices(keys, k).len() ==> group_indices(keys, k)[j].1.len() > 0,
    decreases k,
{
    if k > 0 {
        lemma_groups_well_formed(keys, k - 1);
        let g = group_indices(keys, k - 1);
        lemma_key_index(g, keys[k - 1], 0);
    }
}

/// What a filter keeps was in the sequence.
proof fn lemma_filter_subset<T>(s: Seq<T>, p: spec_fn(T) -> bool)
    ensures
        forall|i: int| 0 <= i < s.filter(p).len() ==> s.contains(#[trigger] s.filter(p)[i]),
    decreases s.len(),
{
    reveal(Seq::filter);
    if s.len() > 0 {
        lemma_filter_subset(s.drop_last(), p);
        let f = s.drop_last().filter(p);
        assert forall|i: int| 0 <= i < s.filter(p).len() implies s.contains(
            #[trigger] s.filter(p)[i],
        ) by {
            if i < f.len() {
                assert(s.filter(p)[i] == f[i]);
                assert(s.drop_last().contains(f[i]));
                let m = choose|m: int| 0 <= m < s.drop_last().len() && s.drop_last()[m] == f[i];
                assert(s[m] == f[i]);
            } else {
                assert(s.filter(p)[i] == s.last());
                assert(s[s.len() - 1] == s.last());
            }
        }
    }
}

/// The values that `key` gives are pairwise different.
pub open spec fn keys_distinct<T>(s: Seq<T>, key: spec_fn(T) -> Seq<char>) -> bool {
    forall|i: int, j: int| 0 <= i < j < s.len() ==> key(s[i]) != key(s[j])
}

/// A filter keeps keys pairwise different.
proof fn lemma_filter_keys_distinct<T>(s: Seq<T>, p: spec_fn(T) -> bool, key: spec_fn(T) -> Seq<char>)
    requires
        keys_distinct(s, key),
    ensures
        keys_distinct(s.filter(p), key),
    decreases s.len(),
{
    reveal(Seq::filter);
    if s.len() > 0 {
        let init = s.drop_last();
        assert(keys_distinct(init, key)) by {
            assert forall|i: int, j: int| 0 <= i < j < init.len() implies key(init[i]) != key(
                init[j],
            ) by {
                assert(init[i] == s[i] && init[j] == s[j]);
            }
        }
        lemma_filter_keys_distinct(init, p, key);
        lemma_filter_subset(init, p);
        let f = init.filter(p);
        if p(s.last()) {
            assert forall|i: int, j: int| 0 <= i < j < f.push(s.last()).len() implies key(
                f.push(s.last())[i],
            ) != key(f.push(s.last())[j]) by {
                if j == f.len() {
                    assert(init.contains(f[i]));
                    let m = choose|m: int| 0 <= m < init.len() && init[m] == f[i];
                    assert(s[m] == f[i]);
                    assert(s[s.len() - 1] == s.last());
                }
            }
        }
    }
}

/// An element of a sequence is in it.
proof fn lemma_contains_at<T>(s: Seq<T>, i: int)
    requires
        0 <= i < s.len(),
    ensures
        s.contains(s[i]),
{
}

/// The elements of `insert_desc(t, x)` are those of `t` and `x`.
proof fn lemma_insert_desc_members<T>(t: Seq<T>, x: T, key: spec_fn(T) -> int)
    ensures
        insert_desc(t, x, key).len() == t.len() + 1,
        forall|y: T|
            #![trigger insert_desc(t, x, key).contains(y)]
            #![trigger t.contains(y)]
            insert_desc(t, x, key).contains(y) <==> t.contains(y) || y == x,
    decreases t.len(),
{
    let r = insert_desc(t, x, key);
    if t.len() > 0 && key(t[0]) >= key(x) {
        let t2 = t.drop_first();
        lemma_insert_desc_members(t2, x, key);
        let r2 = insert_desc(t2, x, key);
        assert(r == seq![t[0]] + r2);
        assert forall|y: T| r.contains(y) implies t.contains(y) || y == x by {
            let i = choose|i: int| 0 <= i < r.len() && r[i] == y;
            if i > 0 {
                assert(r2[i - 1] == y);
                lemma_contains_at(r2, i - 1);
                if y != x {
                    let m = choose|m: int| 0 <= m < t2.len() && t2[m] == y;
                    assert(t[m + 1] == y);
                    lemma_contains_at(t, m + 1);
                }
            } else {
                lemma_contains_at(t, 0);
            }
        }
        assert forall|y: T| t.contains(y) || y == x implies r.contains(y) by {
            if y == x {
                lemma_contains_at(r, 0);
                assert(r2.contains(x));
                let i = choose|i: int| 0 <= i < r2.len() && r2[i] == x;
                assert(r[i + 1] == x);
                lemma_contains_at(r, i + 1);
            } else {
                let m = choose|m: int| 0 <= m < t.len() && t[m] == y;
                if m == 0 {
                    assert(r[0] == y);
                    lemma_contains_at(r, 0);
                } else {
                    assert(t2[m - 1] == y);
                    lemma_contains_at(t2, m - 1);
                    assert(r2.contains(y));
                    let i = choose|i: int| 0 <= i < r2.len() && r2[i] == y;
                    assert(r[i + 1] == y);
                    lemma_contains_at(r, i + 1);
                }
            }
        }
    } else if t.len() > 0 {
        assert(r == seq![x] + t);
        assert forall|y: T| r.contains(y) implies t.contains(y) || y == x by {
            let i = choose|i: int| 0 <= i < r.len() && r[i] == y;
            if i > 0 {
                assert(t[i - 1] == y);
                lemma_contains_at(t, i - 1);
            }
        }
        assert forall|y: T| t.contains(y) || y == x implies r.contains(y) by {
            if y == x {
                lemma_contains_at(r, 0);
            } else {
                let m = choose|m: int| 0 <= m < t.len() && t[m] == y;
                assert(r[m + 1] == y);
                lemma_contains_at(r, m + 1);
            }
        }
    } else {
        assert(r == seq![x]);
        assert forall|y: T| r.contains(y) <==> t.contains(y) || y == x by {
            if y == x {
                lemma_contains_at(r, 0);
            }
        }
    }
}

/// Inserting keeps the order by descending key.
proof fn lemma_insert_desc_sorted<T>(t: Seq<T>, x: T, key: spec_fn(T) -> int)
    requires
        forall|i: int, j: int| 0 <= i < j < t.len() ==> key(t[i]) >= key(t[j]),
    ensures
        forall|i: int, j: int|
            0 <= i < j < insert_desc(t, x, key).len() ==> key(insert_desc(t, x, key)[i]) >= key(
                insert_desc(t, x, key)[j],
            ),
    decreases t.len(),
{
    lemma_insert_desc_members(t, x, key);
    if t.len() > 0 && key(t[0]) >= key(x) {
        let t2 = t.drop_first();
        assert forall|i: int, j: int| 0 <= i < j < t2.len() implies key(t2[i]) >= key(t2[j]) by {
            assert(t2[i] == t[i + 1] && t2[j] == t[j + 1]);
        }
        lemma_insert_desc_sorted(t2, x, key);
        lemma_insert_desc_members(t2, x, key);
        let r2 = insert_desc(t2, x, key);
        let r = insert_desc(t, x, key);
        assert(r == seq![t[0]] + r2);
        assert forall|i: int, j: int| 0 <= i < j < r.len() implies key(r[i]) >= key(r[j]) by {
            if i == 0 {
                assert(r2.contains(r[j]));
                if r[j] != x {
                    assert(t2.contains(r[j]));
                    let m = choose|m: int| 0 <= m < t2.len() && t2[m] == r[j];
                    assert(t[m + 1] == r[j]);
                }
            } else {
                assert(r[i] == r2[i - 1] && r[j] == r2[j - 1]);
            }
        }
    } else if t.len() > 0 {
        let r = insert_desc(t, x, key);
        assert(r == seq![x] + t);
        assert forall|i: int, j: int| 0 <= i < j < r.len() implies key(r[i]) >= key(r[j]) by {
            if i == 0 {
                assert(key(t[0]) >= key(t[j - 1]) || j - 1 == 0);
            } else {
                assert(r[i] == t[i - 1] && r[j] == t[j - 1]);
            }
        }
    } else {
    }
}

/// Sorting by descending key orders the elements, keeps them, and keeps
/// pairwise different keys different.
proof fn lemma_sort_desc<T>(s: Seq<T>, key: spec_fn(T) -> int, id: spec_fn(T) -> Seq<char>)
    ensures
        sort_desc(s, key).len() == s.len(),
        forall|y: T|
            #![trigger sort_desc(s, key).contains(y)]
            #![trigger s.contains(y)]
            sort_desc(s, key).contains(y) <==> s.contains(y),
        forall|i: int, j: int|
            0 <= i < j < sort_desc(s, key).len() ==> key(sort_desc(s, key)[i]) >= key(
                sort_desc(s, key)[j],
            ),
        keys_distinct(s, id) ==> keys_distinct(sort_desc(s, key), id),
    decreases s.len(),
{
    if s.len() > 0 {
        let init = s.drop_last();
        let x = s.last();
        lemma_sort_desc(init, key, id);
        let t = sort_desc(init, key);
        lemma_insert_desc_members(t, x, key);
        lemma_insert_desc_sorted(t, x, key);
        let r = sort_desc(s, key);
        assert(r == insert_desc(t, x, key));
        assert forall|y: T| r.contains(y) <==> s.contains(y) by {
            if s.contains(y) && y != x {
                let m = choose|m: int| 0 <= m < s.len() && s[m] == y;
                assert(init[m] == y);
            }
            if init.contains(y) {
                let m = choose|m: int| 0 <= m < init.len() && init[m] == y;
                assert(s[m] == y);
            }
            assert(s[s.len() - 1] == x);
        }
        if keys_distinct(s, id) {
            assert(keys_distinct(init, id)) by {
                assert forall|i: int, j: int| 0 <= i < j < init.len() implies id(init[i]) != id(
                    init[j],
                ) by {
                    assert(init[i] == s[i] && init[j] == s[j]);
                }
            }
            lemma_insert_desc_distinct(t, x, key, id);
            assert forall|y: T| t.contains(y) implies id(y) != id(x) by {
                assert(init.contains(y));
                let m = choose|m: int| 0 <= m < init.len() && init[m] == y;
                assert(s[m] == y);
                assert(s[s.len() - 1] == x);
            }
        }
    }
}

/// Inserting an element whose key no element has keeps keys different.
proof fn lemma_insert_desc_distinct<T>(
    t: Seq<T>,
    x: T,
    key: spec_fn(T) -> int,
    id: spec_fn(T) -> Seq<char>,
)
    ensures
        keys_distinct(t, id) && (forall|y: T| t.contains(y) ==> id(y) != id(x)) ==> keys_distinct(
            insert_desc(t, x, key),
            id,
        ),
    decreases t.len(),
{
    if keys_distinct(t, id) && (forall|y: T| t.contains(y) ==> id(y) != id(x)) {
        let r = insert_desc(t, x, key);
        if t.len() > 0 && key(t[0]) >= key(x) {
            let t2 = t.drop_first();
            assert(keys_distinct(t2, id)) by {
                assert forall|i: int, j: int| 0 <= i < j < t2.len() implies id(t2[i]) != id(
                    t2[j],
                ) by {
                    assert(t2[i] == t[i + 1] && t2[j] == t[j + 1]);
                }
            }
            assert forall|y: T| t2.contains(y) implies id(y) != id(x) by {
                let m = choose|m: int| 0 <= m < t2.len() && t2[m] == y;
                assert(t[m + 1] == y);
                lemma_contains_at(t, m + 1);
            }
            lemma_insert_desc_distinct(t2, x, key, id);
            lemma_insert_desc_members(t2, x, key);
            let r2 = insert_desc(t2, x, key);
            assert(r == seq![t[0]] + r2);
            assert forall|i: int, j: int| 0 <= i < j < r.len() implies id(r[i]) != id(r[j]) by {
                if i == 0 {
                    assert(r[j] == r2[j - 1]);
                    lemma_contains_at(r2, j - 1);
                    lemma_contains_at(t, 0);
                    if r[j] != x {
                        let m = choose|m: int| 0 <= m < t2.len() && t2[m] == r[j];
                        assert(t[m + 1] == r[j]);
                        assert(id(t[0]) != id(t[m + 1]));
                    }
                } else {
                    assert(r[i] == r2[i - 1] && r[j] == r2[j - 1]);
                }
            }
        } else if t.len() > 0 {
            assert(r == seq![x] + t);
            assert forall|i: int, j: int| 0 <= i < j < r.len() implies id(r[i]) != id(r[j]) by {
                if i == 0 {
                    assert(t[j - 1] == r[j]);
                    lemma_contains_at(t, j - 1);
                } else {
                    assert(r[i] == t[i - 1] && r[j] == t[j - 1]);
                }
            }
        } else {
            assert(r == seq![x]);
        }
    }
}

/// Two different files have the key `h`.
pub open spec fn two_files_with_key(keys: Seq<Seq<char>>, h: Seq<char>) -> bool {
    exists|a: int, b: int| 0 <= a < b < keys.len() && #[trigger] keys[a] == h && #[trigger] keys[b] == h
}

/// What a list of groups of files with one key promises: at most forty
/// groups, the larger first, no two for one key, each made of at least two
/// files with its key, and each path that of a file with its key.
pub open spec fn keyed_groups_sound(
    files: Seq<FileRecordView>,
    keys: Seq<Seq<char>>,
    r: Seq<ExactGroupView>,
) -> bool {
    &&& r.len() <= 40
    &&& forall|i: int, j: int| 0 <= i < j < r.len() ==> r[i].paths.len() >= r[j].paths.len()
    &&& forall|i: int, j: int| 0 <= i < j < r.len() ==> r[i].content_hash != r[j].content_hash
    &&& forall|i: int| 0 <= i < r.len() ==> #[trigger] two_files_with_key(keys, r[i].content_hash)
    &&& forall|i: int, x: Seq<char>|
        0 <= i < r.len() && #[trigger] r[i].paths.contains(x) ==> exists|f: int|
            0 <= f < files.len() && #[trigger] files[f].path == x && keys[f] == r[i].content_hash
}

/// The groups of identical files keep the promises of `keyed_groups_sound`,
/// with the content hash as the key.
pub proof fn law_exact_duplicate_groups(files: Seq<FileRecordView>)
    ensures
        keyed_groups_sound(files, content_hashes(files), exact_duplicates_spec(files)),
{
    lemma_keyed_groups_sound(files, content_hashes(files));
}

/// The groups of files with one normalised text keep the promises of
/// `keyed_groups_sound`, with the hash of the normalised text as the key.
pub proof fn law_normalized_duplicate_groups(files: Seq<FileRecordView>)
    ensures
        keyed_groups_sound(files, normalized_hashes(files), normalized_duplicates_spec(files)),
{
    lemma_keyed_groups_sound(files, normalized_hashes(files));
}

proof fn lemma_keyed_groups_sound(files: Seq<FileRecordView>, keys: Seq<Seq<char>>)
    requires
        keys.len() == files.len(),
    ensures
        keyed_groups_sound(files, keys, keyed_duplicates(files, keys)),
{
    let n = files.len() as int;
    let g = group_indices(keys, n);
    lemma_groups_well_formed(keys, n);
    let pred = |x: (Seq<char>, Seq<int>)| x.1.len() >= 2;
    let mk = |x: (Seq<char>, Seq<int>)|
        ExactGroupView { content_hash: x.0, paths: sorted_distinct(paths_at(files, x.1)) };
    let gf = g.filter(pred);
    let d = gf.map_values(mk);
    assert(keyed_groups(files, keys) == d);
    lemma_filter_subset(g, pred);
    let gkey = |x: (Seq<char>, Seq<int>)| x.0;
    assert(keys_distinct(g, gkey));
    lemma_filter_keys_distinct(g, pred, gkey);
    let hid = |v: ExactGroupView| v.content_hash;
    assert(keys_distinct(d, hid)) by {
        assert forall|i: int, j: int| 0 <= i < j < d.len() implies hid(d[i]) != hid(d[j]) by {
            assert(gkey(gf[i]) != gkey(gf[j]));
        }
    }
    let key = group_size_fn();
    lemma_sort_desc(d, key, hid);
    let sd = sort_desc(d, key);
    let r = keyed_duplicates(files, keys);
    assert(r == first_n(sd, 40));
    assert forall|i: int| 0 <= i < r.len() implies sd.contains(#[trigger] r[i]) by {
        assert(r[i] == sd[i]);
        lemma_contains_at(sd, i);
    }
    // Every group listed comes from a group of positions with at least two
    // files of its hash.
    assert forall|i: int|
        #![trigger r[i]]
        0 <= i < r.len() implies exists|q: int| 0 <= q < gf.len() && #[trigger] mk(gf[q]) == r[i] by {
        assert(sd.contains(r[i]));
        assert(d.contains(r[i]));
        let q = choose|q: int| 0 <= q < d.len() && d[q] == r[i];
        assert(d[q] == mk(gf[q]));
    }
    assert forall|i: int| 0 <= i < r.len() implies #[trigger] two_files_with_key(
        keys,
        r[i].content_hash,
    ) by {
        let q = choose|q: int| 0 <= q < gf.len() && #[trigger] mk(gf[q]) == r[i];
        let x = gf[q];
        g.lemma_filter_pred(pred, q);
        assert(g.contains(x));
        let j = choose|j: int| 0 <= j < g.len() && g[j] == x;
        let a = x.1[0];
        let b = x.1[1];
        assert(a < b);
        assert(keys[a] == x.0 && keys[b] == x.0);
    }
    assert forall|i: int, z: Seq<char>|
        0 <= i < r.len() && #[trigger] r[i].paths.contains(z) implies exists|f: int|
        0 <= f < files.len() && #[trigger] files[f].path == z && keys[f] == r[i].content_hash by {
        let q = choose|q: int| 0 <= q < gf.len() && #[trigger] mk(gf[q]) == r[i];
        let x = gf[q];
        assert(g.contains(x));
        let j = choose|j: int| 0 <= j < g.len() && g[j] == x;
        lemma_sorted_distinct(paths_at(files, x.1));
        assert(paths_at(files, x.1).contains(z));
        let p = choose|p: int| 0 <= p < paths_at(files, x.1).len() && paths_at(files, x.1)[p] == z;
        let f = x.1[p];
        assert(keys[f] == x.0);
        assert(files[f].path == z);
    }
    assert forall|i: int, j: int| 0 <= i < j < r.len() implies r[i].paths.len() >= r[j].paths.len() by {
        assert(r[i] == sd[i] && r[j] == sd[j]);
        assert(key(sd[i]) >= key(sd[j]));
    }
    assert forall|i: int, j: int| 0 <= i < j < r.len() implies r[i].content_hash
        != r[j].content_hash by {
        assert(r[i] == sd[i] && r[j] == sd[j]);
        assert(hid(sd[i]) != hid(sd[j]));
    }
}

/// A candidate occurs at least twice, and in at least two files.
pub open spec fn candidate_sound(c: CloneGroupView) -> bool {
    &&& c.occurrences.len() >= 2
    &&& exists|a: int, b: int|
        0 <= a < c.occurrences.len() && 0 <= b < c.occurrences.len()
            && #[trigger] c.occurrences[a].path != #[trigger] c.occurrences[b].path
}

/// Every clone candidate, structural or textual, occurs at least twice and in
/// at least two files.
pub proof fn law_clone_candidates_span_two_files(
    files: Seq<FileRecordView>,
    min_lines: int,
    min_chars: int,
)
    ensures
        forall|i: int|
            0 <= i < structural_clones_spec(files).len() ==> #[trigger] candidate_sound(
                structural_clones_spec(files)[i],
            ),
        forall|i: int|
            0 <= i < text_clones_spec(files, min_lines, min_chars).len() ==> #[trigger] candidate_sound(
                text_clones_spec(files, min_lines, min_chars)[i],
            ),
{
    let sp = all_spans(files, files.len() as int);
    let g = group_indices(span_keys(sp), sp.len() as int);
    let pred = |x: ((Seq<char>, Seq<char>), Seq<int>)| is_structural_clone(sp, x);
    let mk = |x: ((Seq<char>, Seq<char>), Seq<int>)| structural_candidate(sp, x);
    let gf = g.filter(pred);
    assert(structural_clones_spec(files) == gf.map_values(mk));
    assert forall|i: int| 0 <= i < gf.len() implies #[trigger] candidate_sound(mk(gf[i])) by {
        g.lemma_filter_pred(pred, i);
        let x = gf[i];
        let c = mk(x);
        let (a, b) = choose|a: int, b: int|
            0 <= a < x.1.len() && 0 <= b < x.1.len() && #[trigger] sp[x.1[a]].path
                != #[trigger] sp[x.1[b]].path;
        assert(c.occurrences[a].path == sp[x.1[a]].path);
        assert(c.occurrences[b].path == sp[x.1[b]].path);
    }
    assert forall|i: int| 0 <= i < structural_clones_spec(files).len() implies #[trigger] candidate_sound(
        structural_clones_spec(files)[i],
    ) by {
        assert(structural_clones_spec(files)[i] == mk(gf[i]));
    }
    let w = all_windows(files, min_lines, min_chars, files.len() as int);
    let tg = group_indices(window_hashes(w), w.len() as int);
    let tpred = |x: (Seq<char>, Seq<int>)| is_text_clone(w, x);
    let tmk = |x: (Seq<char>, Seq<int>)| text_candidate(w, x);
    let tf = tg.filter(tpred);
    assert(text_clones_spec(files, min_lines, min_chars) == tf.map_values(tmk));
    assert forall|i: int| 0 <= i < tf.len() implies #[trigger] candidate_sound(tmk(tf[i])) by {
        tg.lemma_filter_pred(tpred, i);
        let x = tf[i];
        let c = tmk(x);
        let (a, b) = choose|a: int, b: int|
            0 <= a < x.1.len() && 0 <= b < x.1.len() && #[trigger] w[x.1[a]].span.path
                != #[trigger] w[x.1[b]].span.path;
        assert(c.occurrences[a].path == w[x.1[a]].span.path);
        assert(c.occurrences[b].path == w[x.1[b]].span.path);
    }
    assert forall|i: int|
        0 <= i < text_clones_spec(files, min_lines, min_chars).len() implies #[trigger] candidate_sound(
        text_clones_spec(files, min_lines, min_chars)[i],
    ) by {
        assert(text_clones_spec(files, min_lines, min_chars)[i] == tmk(tf[i]));
    }
}

/// Every position of the first `k` is in the group of its key.
proof fn lemma_groups_cover<K>(keys: Seq<K>, k: int, p: int)
    requires
        0 <= p < k <= keys.len(),
    ensures
        exists|j: int|
            0 <= j < group_indices(keys, k).len() && #[trigger] group_indices(keys, k)[j].0
                == keys[p] && group_indices(keys, k)[j].1.contains(p),
    decreases k,
{
    let g = group_indices(keys, k - 1);
    lemma_key_index(g, keys[k - 1], 0);
    let g2 = group_indices(keys, k);
    if p < k - 1 {
        lemma_groups_cover(keys, k - 1, p);
        let j = choose|j: int|
            0 <= j < g.len() && #[trigger] g[j].0 == keys[p] && g[j].1.contains(p);
        let q = choose|q: int| 0 <= q < g[j].1.len() && g[j].1[q] == p;
        match key_index(g, keys[k - 1], 0) {
            Some(f) => {
                if f == j {
                    assert(g2[j].1 == g[j].1.push(k - 1));
                    assert(g2[j].1[q] == p);
                } else {
                    assert(g2[j] == g[j]);
                }
                assert(g2[j].1.contains(p));
                assert(g2[j].0 == keys[p]);
                assert(0 <= j < g2.len());
            },
            None => {
                assert(g2[j] == g[j]);
                assert(g2[j].1.contains(p));
                assert(0 <= j < g2.len());
            },
        }
    } else {
        match key_index(g, keys[k - 1], 0) {
            Some(f) => {
                assert(g2[f].1 == g[f].1.push(k - 1));
                assert(g2[f].1[g[f].1.len() as int] == k - 1);
                assert(g2[f].1.contains(k - 1));
                assert(g2[f].0 == keys[p]);
                assert(0 <= f < g2.len());
            },
            None => {
                let j = g.len() as int;
                assert(g2[j] == (keys[k - 1], seq![k - 1]));
                assert(g2[j].1[0] == k - 1);
                assert(g2[j].1.contains(k - 1));
                assert(0 <= j < g2.len() && g2[j].0 == keys[p]);
            },
        }
    }
}

/// Files `a` and `b` are listed together: a group with their key holds both
/// their paths.
pub open spec fn listed_together(
    r: Seq<ExactGroupView>,
    files: Seq<FileRecordView>,
    keys: Seq<Seq<char>>,
    a: int,
    b: int,
) -> bool {
    exists|i: int|
        0 <= i < r.len() && #[trigger] r[i].content_hash == keys[a] && r[i].paths.contains(
            files[a].path,
        ) && r[i].paths.contains(files[b].path)
}

/// No file is left out of the groups of identical files: when two files
/// share a content hash, a group with that hash holds both their paths among
/// the groups of at least two files, and among the listed groups when there
/// are at most forty.
pub proof fn law_exact_duplicates_complete(files: Seq<FileRecordView>, a: int, b: int)
    requires
        0 <= a < b < files.len(),
        files[a].content_hash == files[b].content_hash,
    ensures
        listed_together(duplicate_groups(files), files, content_hashes(files), a, b),
        duplicate_groups(files).len() <= 40 ==> listed_together(
            exact_duplicates_spec(files),
            files,
            content_hashes(files),
            a,
            b,
        ),
{
    lemma_keyed_complete(files, content_hashes(files), a, b);
}

/// Files that are the same once normalised are listed together: when two
/// files have the same normalised lines, a group holds both their paths among
/// the groups of at least two files, and among the listed groups when there
/// are at most forty.
pub proof fn law_normalized_duplicates_complete(files: Seq<FileRecordView>, a: int, b: int)
    requires
        0 <= a < b < files.len(),
        files[a].normalized_lines == files[b].normalized_lines,
    ensures
        listed_together(
            keyed_groups(files, normalized_hashes(files)),
            files,
            normalized_hashes(files),
            a,
            b,
        ),
        keyed_groups(files, normalized_hashes(files)).len() <= 40 ==> listed_together(
            normalized_duplicates_spec(files),
            files,
            normalized_hashes(files),
            a,
            b,
        ),
{
    let keys = normalized_hashes(files);
    assert(keys[a] == normalized_hash(files[a]));
    assert(keys[b] == normalized_hash(files[b]));
    lemma_keyed_complete(files, keys, a, b);
}

proof fn lemma_keyed_complete(files: Seq<FileRecordView>, keys: Seq<Seq<char>>, a: int, b: int)
    requires
        keys.len() == files.len(),
        0 <= a < b < files.len(),
        keys[a] == keys[b],
    ensures
        listed_together(keyed_groups(files, keys), files, keys, a, b),
        keyed_groups(files, keys).len() <= 40 ==> listed_together(
            keyed_duplicates(files, keys),
            files,
            keys,
            a,
            b,
        ),
{
    let n = files.len() as int;
    let g = group_indices(keys, n);
    lemma_groups_well_formed(keys, n);
    lemma_groups_cover(keys, n, a);
    lemma_groups_cover(keys, n, b);
    let h = keys[a];
    let ja = choose|j: int| 0 <= j < g.len() && #[trigger] g[j].0 == keys[a] && g[j].1.contains(a);
    let jb = choose|j: int| 0 <= j < g.len() && #[trigger] g[j].0 == keys[b] && g[j].1.contains(b);
    assert(ja == jb);
    let x = g[ja];
    let qa = choose|q: int| 0 <= q < x.1.len() && x.1[q] == a;
    let qb = choose|q: int| 0 <= q < x.1.len() && x.1[q] == b;
    assert(qa != qb);
    assert(x.1.len() >= 2);
    let pred = |y: (Seq<char>, Seq<int>)| y.1.len() >= 2;
    let mk = |y: (Seq<char>, Seq<int>)|
        ExactGroupView { content_hash: y.0, paths: sorted_distinct(paths_at(files, y.1)) };
    let gf = g.filter(pred);
    assert(pred(g[ja]));
    g.lemma_filter_contains(pred, ja);
    let q = choose|q: int| 0 <= q < gf.len() && gf[q] == x;
    let d = keyed_groups(files, keys);
    assert(d == gf.map_values(mk));
    assert(d[q].content_hash == h);
    let ps = paths_at(files, x.1);
    assert(ps[qa] == files[a].path);
    assert(ps[qb] == files[b].path);
    lemma_contains_at(ps, qa);
    lemma_contains_at(ps, qb);
    lemma_sorted_distinct(ps);
    assert(d[q].paths.contains(files[a].path));
    assert(d[q].paths.contains(files[b].path));
    assert(listed_together(d, files, keys, a, b));
    if d.len() <= 40 {
        let key = group_size_fn();
        let hid = |v: ExactGroupView| v.content_hash;
        lemma_sort_desc(d, key, hid);
        let sd = sort_desc(d, key);
        lemma_contains_at(d, q);
        assert(sd.contains(d[q]));
        let i = choose|i: int| 0 <= i < sd.len() && sd[i] == d[q];
        assert(keyed_duplicates(files, keys) == sd);
        assert(keyed_duplicates(files, keys)[i] == d[q]);
        assert(listed_together(keyed_duplicates(files, keys), files, keys, a, b));
    }
}

} // verus!
