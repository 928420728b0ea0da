use scalpel::analysis::{fits_vue_size, FileAnalysis};
use scalpel::language::ParseStatus;
use scalpel::markdown::{render_markdown, CandidateLine, CodebaseReport};
use scalpel::model::{AstSpanRecord, FileSummary};
use scalpel::report::{
    build_notes, count_status, find_ast_clone_candidates, find_exact_duplicate_files,
    find_normalized_duplicate_files, find_text_clone_candidates, load_file, load_file_checked, to_file_fact, FileRecord,
};

fn strings(items: &[&str]) -> Vec<String> {
    items.iter().map(|s| s.to_string()).collect()
}

fn analysis(status: ParseStatus) -> FileAnalysis {
    FileAnalysis {
        parse_status: status,
        language: None,
        summary: FileSummary { total_named_nodes: 0, max_depth: 0 },
        top_level_nodes: Vec::new(),
        template_nodes: Vec::new(),
        symbols: Vec::new(),
        imports: Vec::new(),
        exports: Vec::new(),
        calls: Vec::new(),
        diagnostics: Vec::new(),
    }
}

fn record(path: &str, hash: &str, lines: &[&str], status: ParseStatus) -> FileRecord {
    FileRecord {
        path: path.to_string(),
        content_hash: hash.to_string(),
        normalized_lines: strings(lines),
        ast_spans: Vec::new(),
        analysis: analysis(status),
    }
}

fn span(path: &str, structural: &str, token: &str, lines: usize) -> AstSpanRecord {
    AstSpanRecord {
        path: path.to_string(),
        language: "rust".to_string(),
        node_kind: "function_item".to_string(),
        start_line: 1,
        end_line: lines,
        line_count: lines,
        structural_hash: structural.to_string(),
        token_hash: token.to_string(),
        structural_kinds: strings(&["function_item", "identifier"]),
        preview: strings(&["fn a() {"]),
    }
}

#[test]
fn load_file_skips_files_without_code_lines() {
    assert!(load_file("", "a.rs", 8, 160).is_none());
    assert!(load_file("\n  \n// only comments\n", "a.rs", 8, 160).is_none());
    let rec = load_file("fn a() {}\n", "src/a.rs", 8, 160).unwrap();
    assert_eq!(rec.path, "src/a.rs");
    assert_eq!(rec.normalized_lines, strings(&["fn a() {}"]));
    assert_eq!(rec.content_hash.len(), 64);
    assert_eq!(rec.analysis.parse_status, ParseStatus::Parsed);
    let other = load_file("SELECT 1;\n", "q.sql", 8, 160).unwrap();
    assert_eq!(other.analysis.parse_status, ParseStatus::Unsupported);
}

#[test]
fn load_file_checked_reads_small_files_as_load_file_does() {
    let vue = "<template>\n  <div>{{ a }}</div>\n</template>\n<script>\nexport default {}\n</script>\n";
    let checked = load_file_checked(vue, "c.vue", 8, 160).unwrap().unwrap();
    let plain = load_file(vue, "c.vue", 8, 160).unwrap();
    assert_eq!(checked.path, plain.path);
    assert_eq!(checked.content_hash, plain.content_hash);
    assert_eq!(checked.normalized_lines, plain.normalized_lines);
    assert_eq!(checked.analysis.language, Some("vue".to_string()));
    assert!(load_file_checked("", "a.rs", 8, 160).unwrap().is_none());
}

#[test]
fn vue_size_limit_is_the_line_number_bound() {
    assert!(fits_vue_size(0));
    assert!(fits_vue_size(1_000_000));
    if usize::MAX as u128 == u64::MAX as u128 {
        assert!(fits_vue_size(u32::MAX as usize - 2));
        assert!(!fits_vue_size(u32::MAX as usize - 1));
        assert!(!fits_vue_size(usize::MAX));
    }
}

#[test]
fn file_facts_count_each_kind_of_fact() {
    let rec = load_file("pub fn a() { b(); c(); }\n", "x.rs", 8, 160).unwrap();
    let hash = rec.content_hash.clone();
    let fact = to_file_fact(rec);
    assert_eq!(fact.path, "x.rs");
    assert_eq!(fact.language, Some("rust".to_string()));
    assert_eq!(fact.parse_status, "parsed");
    assert_eq!(fact.content_hash, hash);
    assert_eq!(fact.summary.symbol_count, fact.symbols.len());
    assert_eq!(fact.summary.call_count, 2);
    assert_eq!(fact.summary.call_count, fact.calls.len());
    assert_eq!(fact.summary.import_count, 0);
    assert_eq!(fact.summary.export_count, 1);
    assert_eq!(fact.summary.template_node_count, 0);
}

#[test]
fn status_counts_add_up_to_all_files() {
    let files = vec![
        record("a", "h1", &["x"], ParseStatus::Parsed),
        record("b", "h2", &["x"], ParseStatus::Unsupported),
        record("c", "h3", &["x"], ParseStatus::Parsed),
        record("d", "h4", &["x"], ParseStatus::ParseError),
    ];
    let parsed = count_status(&files, ParseStatus::Parsed);
    let unsupported = count_status(&files, ParseStatus::Unsupported);
    let failed = count_status(&files, ParseStatus::ParseError);
    assert_eq!((parsed, unsupported, failed), (2, 1, 1));
    assert_eq!(parsed + unsupported + failed, files.len());
}

#[test]
fn exact_duplicates_are_grouped_largest_first() {
    let files = vec![
        record("z.rs", "h1", &["x"], ParseStatus::Parsed),
        record("b.rs", "h2", &["x"], ParseStatus::Parsed),
        record("a.rs", "h1", &["x"], ParseStatus::Parsed),
        record("c.rs", "h2", &["x"], ParseStatus::Parsed),
        record("d.rs", "h2", &["x"], ParseStatus::Parsed),
        record("e.rs", "h3", &["x"], ParseStatus::Parsed),
    ];
    let groups = find_exact_duplicate_files(&files);
    assert_eq!(groups.len(), 2);
    assert_eq!(groups[0].content_hash, "h2");
    assert_eq!(groups[0].paths, strings(&["b.rs", "c.rs", "d.rs"]));
    assert_eq!(groups[1].content_hash, "h1");
    assert_eq!(groups[1].paths, strings(&["a.rs", "z.rs"]));
}

#[test]
fn files_equal_once_normalised_are_grouped() {
    let a = load_file("// first\nlet x = 1;\n", "a.js", 8, 160).unwrap();
    let b = load_file("let   x = 2; // note\n", "b.js", 8, 160).unwrap();
    let c = load_file("let y = 1;\n", "c.js", 8, 160).unwrap();
    assert_ne!(a.content_hash, b.content_hash);
    assert_eq!(a.normalized_lines, b.normalized_lines);
    let files = vec![a, b, c];
    assert!(find_exact_duplicate_files(&files).is_empty());
    let groups = find_normalized_duplicate_files(&files);
    assert_eq!(groups.len(), 1);
    assert_eq!(groups[0].paths, strings(&["a.js", "b.js"]));
    assert_eq!(groups[0].content_hash, scalpel::normalize::hash_string(&files[0].normalized_lines.join("\n")));
}

#[test]
fn exact_duplicates_keep_at_most_forty_groups() {
    let mut files = Vec::new();
    for i in 0..45 {
        let hash = format!("hash{i}");
        files.push(record(&format!("a{i}.rs"), &hash, &["x"], ParseStatus::Parsed));
        files.push(record(&format!("b{i}.rs"), &hash, &["x"], ParseStatus::Parsed));
    }
    let groups = find_exact_duplicate_files(&files);
    assert_eq!(groups.len(), 40);
    assert_eq!(groups[0].content_hash, "hash0");
    assert_eq!(groups[39].content_hash, "hash39");
}

#[test]
fn structural_clones_need_two_files() {
    let mut a = record("a.rs", "h1", &["x"], ParseStatus::Parsed);
    let mut b = record("b.rs", "h2", &["x"], ParseStatus::Parsed);
    a.ast_spans.push(span("a.rs", "s1", "t1", 12));
    a.ast_spans.push(span("a.rs", "s2", "t9", 9));
    a.ast_spans.push(span("a.rs", "s2", "t9", 9));
    b.ast_spans.push(span("b.rs", "s1", "t1", 10));
    b.ast_spans.push(span("b.rs", "s1", "t2", 10));
    let groups = find_ast_clone_candidates(&vec![a, b]);
    assert_eq!(groups.len(), 1);
    let g = &groups[0];
    assert_eq!(g.candidate_kind, "structural_clone");
    assert_eq!(g.match_basis, "ast_shape");
    assert_eq!(g.language, "rust");
    assert_eq!(g.structural_hash, "s1");
    assert_eq!(g.token_hash, "t1");
    assert_eq!(g.occurrence_count, 3);
    assert_eq!(g.token_matches, 2);
    assert_eq!(g.representative_lines, 12);
    assert_eq!(g.sample_node_kinds, strings(&["function_item", "identifier"]));
    let paths: Vec<&str> = g.occurrences.iter().map(|o| o.path.as_str()).collect();
    assert_eq!(paths, vec!["a.rs", "b.rs", "b.rs"]);
    assert_eq!(g.occurrences[0].node_kind, Some("function_item".to_string()));
}

#[test]
fn text_clones_come_from_files_without_trees() {
    let lines = ["let a = 0;", "let b = a + 0;", "print(b);"];
    let files = vec![
        record("a.sql", "h1", &lines, ParseStatus::Unsupported),
        record("b.sql", "h2", &["other", "let a = 0;", "let b = a + 0;", "print(b);"], ParseStatus::ParseError),
        record("c.rs", "h3", &lines, ParseStatus::Parsed),
    ];
    let groups = find_text_clone_candidates(&files, 3, 10);
    assert_eq!(groups.len(), 1);
    let g = &groups[0];
    assert_eq!(g.candidate_kind, "fallback_clone");
    assert_eq!(g.match_basis, "normalized_text_window");
    assert_eq!(g.language, "fallback");
    assert_eq!(g.structural_hash, "n/a");
    assert_eq!(g.occurrence_count, 2);
    assert_eq!((g.occurrences[0].path.as_str(), g.occurrences[0].start_line, g.occurrences[0].end_line), ("a.sql", 1, 3));
    assert_eq!((g.occurrences[1].path.as_str(), g.occurrences[1].start_line, g.occurrences[1].end_line), ("b.sql", 2, 4));
    assert_eq!(g.preview, strings(&lines));
    assert_eq!(g.token_hash, scalpel::normalize::hash_string("let a = 0;\nlet b = a + 0;\nprint(b);"));
    assert!(find_text_clone_candidates(&files, 3, 1000).is_empty());
}

#[test]
fn notes_report_the_counts() {
    let notes = build_notes(3, 1, 0, 2, 5);
    assert_eq!(
        notes,
        strings(&[
            "工具当前以 AST 事实采集为主，重复候选仅作为 derived 视图附带输出。",
            "已解析 3 个文件，未支持 1 个文件，解析失败 0 个文件。",
            "当前 derived 中包含 2 组完全重复文件、5 组重复候选。",
        ])
    );
}

#[test]
fn markdown_of_an_empty_scan() {
    let report = CodebaseReport {
        root: "/repo".to_string(),
        scanned_files: 0,
        parsed_files: 0,
        unsupported_files: 0,
        parse_error_files: 0,
        files: Vec::new(),
        exact_duplicate_files: Vec::new(),
        normalized_duplicate_files: Vec::new(),
        clone_candidates: Vec::new(),
        notes: build_notes(0, 0, 0, 0, 0),
    };
    let expected = "# Scalpel 代码库 AST 报告\n\n- 扫描根目录: `/repo`\n- 扫描文件数: `0`\n- AST 成功解析: `0`\n- AST 未支持: `0`\n- AST 解析失败: `0`\n\n## 文件事实\n\n未发现可分析文件。\n\n## 派生视图\n\n- 完全重复文件: 无\n- 归一化后重复文件: 无\n- 重复候选: 无\n\n## 说明\n\n- 工具当前以 AST 事实采集为主，重复候选仅作为 derived 视图附带输出。\n- 已解析 0 个文件，未支持 0 个文件，解析失败 0 个文件。\n- 当前 derived 中包含 0 组完全重复文件、0 组重复候选。\n";
    assert_eq!(render_markdown(&report), expected);
}

#[test]
fn markdown_lists_files_groups_and_candidates() {
    let rec = load_file("pub fn a() { b(); }\n", "x.rs", 8, 160).unwrap();
    let fact = to_file_fact(rec);
    let files = vec![
        record("p.rs", "0123456789abcdef0123", &["x"], ParseStatus::Parsed),
        record("q.rs", "0123456789abcdef0123", &["x"], ParseStatus::Parsed),
    ];
    let groups = find_exact_duplicate_files(&files);
    let normalized = find_normalized_duplicate_files(&files);
    let report = CodebaseReport {
        root: "/r".to_string(),
        scanned_files: 1,
        parsed_files: 1,
        unsupported_files: 0,
        parse_error_files: 0,
        files: vec![fact],
        exact_duplicate_files: groups,
        normalized_duplicate_files: normalized,
        clone_candidates: vec![CandidateLine {
            language: "rust".to_string(),
            match_basis: "ast_shape".to_string(),
            occurrence_count: 2,
            confidence: "0.91".to_string(),
        }],
        notes: Vec::new(),
    };
    let md = render_markdown(&report);
    assert!(md.contains("- `x.rs`: language=`rust` status=`parsed` template_nodes=`0` symbols=`1` imports=`0` exports=`1` calls=`1` nodes=`"));
    assert!(md.contains("  - 顶层节点:\n    - `function_item`:1-1\n"));
    assert!(md.contains("  - 符号样本:\n    - `function` `a` 1-1\n"));
    assert!(md.contains("  - 调用样本:\n    - `b` 1-1\n"));
    assert!(md.contains("- 完全重复文件:\n  - `0123456789ab` -> p.rs, q.rs\n- 归一化后重复文件:\n  - `"));
    assert!(md.contains("- 重复候选:\n  - `rust` `ast_shape` occurrences=`2` confidence=`0.91`\n\n## 说明\n\n"));
}
