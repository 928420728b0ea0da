use scalpel::analysis::{
    analysis_from_parse, analyze_file, analyze_vue_file, analyze_with_parser, merge_summary,
    offset_node_summaries, offset_symbols,
};
use scalpel::facts::{classify_leaf, classify_symbol_kind, matches_symbol_kind};
use scalpel::language::{LanguageKind, ParseStatus};
use scalpel::model::{FileSummary, NodeSummary, Span, SymbolFact};
use scalpel::syntax::{parse_syntax, ParseFailure};

fn strings(items: &[&str]) -> Vec<String> {
    items.iter().map(|s| s.to_string()).collect()
}

#[test]
fn symbol_kinds_and_classes() {
    assert!(matches_symbol_kind("function_item"));
    assert!(matches_symbol_kind("arrow_function"));
    assert!(matches_symbol_kind("static_item"));
    assert!(!matches_symbol_kind("call_expression"));
    assert_eq!(classify_symbol_kind("function_item"), "function");
    assert_eq!(classify_symbol_kind("method_definition"), "function");
    assert_eq!(classify_symbol_kind("arrow_function"), "function");
    assert_eq!(classify_symbol_kind("class_declaration"), "class");
    assert_eq!(classify_symbol_kind("struct_item"), "struct");
    assert_eq!(classify_symbol_kind("enum_item"), "enum");
    assert_eq!(classify_symbol_kind("trait_item"), "interface");
    assert_eq!(classify_symbol_kind("interface_declaration"), "interface");
    assert_eq!(classify_symbol_kind("impl_item"), "impl");
    assert_eq!(classify_symbol_kind("type_alias_declaration"), "type_alias");
    assert_eq!(classify_symbol_kind("const_item"), "constant");
    assert_eq!(classify_symbol_kind("static_item"), "constant");
    assert_eq!(classify_symbol_kind("lexical_declaration"), "declaration");
    assert_eq!(classify_symbol_kind("mystery"), "mystery");
}

#[test]
fn leaf_token_classes() {
    assert_eq!(classify_leaf("identifier", "x"), "ID");
    assert_eq!(classify_leaf("Type_Identifier", "T"), "ID");
    assert_eq!(classify_leaf("string_content", "abc"), "STR");
    assert_eq!(classify_leaf("integer_literal", "42"), "NUM");
    assert_eq!(classify_leaf("float", "1.5"), "float");
    assert_eq!(classify_leaf("number", "1.5"), "NUM");
    assert_eq!(classify_leaf("line_comment", "// hi"), "COMMENT");
    assert_eq!(classify_leaf("true", "true"), "true");
}

#[test]
fn summaries_merge_by_sum_and_max() {
    let mut a = FileSummary { total_named_nodes: 3, max_depth: 2 };
    merge_summary(&mut a, &FileSummary { total_named_nodes: 4, max_depth: 5 });
    assert_eq!(a, FileSummary { total_named_nodes: 7, max_depth: 5 });
    merge_summary(&mut a, &FileSummary { total_named_nodes: 0, max_depth: 1 });
    assert_eq!(a, FileSummary { total_named_nodes: 7, max_depth: 5 });
}

#[test]
fn offsets_move_every_line() {
    let mut nodes = vec![
        NodeSummary { kind: "a".to_string(), start_line: 1, end_line: 3 },
        NodeSummary { kind: "b".to_string(), start_line: 4, end_line: 4 },
    ];
    offset_node_summaries(&mut nodes, 10);
    assert_eq!((nodes[0].start_line, nodes[0].end_line), (11, 13));
    assert_eq!((nodes[1].start_line, nodes[1].end_line), (14, 14));
    let mut symbols = vec![SymbolFact {
        name: "f".to_string(),
        kind: "function".to_string(),
        visibility: "local".to_string(),
        span: Span { start_line: 2, end_line: 5 },
    }];
    offset_symbols(&mut symbols, 7);
    assert_eq!(symbols[0].span, Span { start_line: 9, end_line: 12 });
}

#[test]
fn parse_gives_nodes_in_document_order() {
    let parsed = match parse_syntax(LanguageKind::Rust, "fn a() {}") {
        Ok(p) => p,
        Err(_) => panic!("the Rust grammar loads"),
    };
    assert!(!parsed.has_error);
    assert_eq!(parsed.nodes[0].kind, "source_file");
    assert_eq!(parsed.nodes[0].depth, 0);
    assert_eq!(parsed.nodes[1].kind, "function_item");
    assert_eq!(parsed.nodes[1].depth, 1);
    assert!(parsed.nodes[1].name_field.is_some());
    assert_eq!(parsed.nodes[1].start_byte, 0);
    assert_eq!(parsed.nodes[1].end_byte, 9);
}

#[test]
fn failed_parses_give_parse_errors() {
    let (a, spans) = analysis_from_parse(
        Err(ParseFailure::NoTree),
        "x",
        "a.rs",
        LanguageKind::Rust,
        "rust".to_string(),
        0,
        8,
        160,
    );
    assert_eq!(a.parse_status, ParseStatus::ParseError);
    assert_eq!(a.language, Some("rust".to_string()));
    assert_eq!(a.diagnostics.len(), 1);
    assert_eq!(a.diagnostics[0].level, "error");
    assert_eq!(a.diagnostics[0].message, "parser 未返回语法树");
    assert!(spans.is_empty());

    let (b, _) = analysis_from_parse(
        Err(ParseFailure::Language("incompatible".to_string())),
        "x",
        "a.rs",
        LanguageKind::Rust,
        "rust".to_string(),
        0,
        8,
        160,
    );
    assert_eq!(b.diagnostics[0].message, "parser 初始化失败: incompatible");
    assert!(b.symbols.is_empty());
}

const RUST_SRC: &str = "use std::fmt;\n\npub fn main() {\n    helper(1);\n}\n\nfn helper(x: i32) -> i32 {\n    x + 1\n}\n";

#[test]
fn rust_file_facts() {
    let (a, _) = analyze_file(RUST_SRC, "src/main.rs", Some(LanguageKind::Rust), 8, 160);
    assert_eq!(a.parse_status, ParseStatus::Parsed);
    assert_eq!(a.language, Some("rust".to_string()));
    assert!(a.diagnostics.is_empty());
    let top: Vec<(String, usize, usize)> =
        a.top_level_nodes.iter().map(|n| (n.kind.clone(), n.start_line, n.end_line)).collect();
    assert_eq!(
        top,
        vec![
            ("use_declaration".to_string(), 1, 1),
            ("function_item".to_string(), 3, 5),
            ("function_item".to_string(), 7, 9),
        ]
    );
    let symbols: Vec<(String, String, String, usize)> = a
        .symbols
        .iter()
        .map(|s| (s.name.clone(), s.kind.clone(), s.visibility.clone(), s.span.start_line))
        .collect();
    assert_eq!(
        symbols,
        vec![
            ("main".to_string(), "function".to_string(), "public".to_string(), 3),
            ("helper".to_string(), "function".to_string(), "local".to_string(), 7),
        ]
    );
    assert_eq!(a.imports.len(), 1);
    assert_eq!(a.imports[0].source, None);
    assert_eq!(a.imports[0].imported_names, strings(&["std::fmt", "std", "fmt"]));
    assert_eq!(a.calls.len(), 1);
    assert_eq!(a.calls[0].callee, Some("helper".to_string()));
    assert_eq!(a.calls[0].span, Span { start_line: 4, end_line: 4 });
    assert_eq!(a.exports.len(), 1);
    assert_eq!(a.exports[0].kind, "visibility_modifier");
    assert!(a.summary.total_named_nodes > 10);
}

#[test]
fn python_imports_and_typescript_exports() {
    let (py, _) = analyze_file(
        "from os import path\nimport sys\n",
        "tool.py",
        Some(LanguageKind::Python),
        8,
        160,
    );
    assert_eq!(py.imports.len(), 2);
    assert_eq!(py.imports[0].imported_names, strings(&["os", "path"]));
    assert_eq!(py.imports[1].imported_names, strings(&["sys"]));

    let (ts, _) = analyze_file(
        "import { a } from './a';\nexport function f() { return a(); }\n",
        "index.ts",
        Some(LanguageKind::TypeScript),
        8,
        160,
    );
    assert_eq!(ts.imports[0].source, Some("./a".to_string()));
    assert_eq!(ts.exports[0].kind, "export_statement");
    assert_eq!(ts.symbols[0].name, "f");
    assert_eq!(ts.symbols[0].visibility, "local");
    assert_eq!(ts.calls[0].callee, Some("a".to_string()));
}

#[test]
fn syntax_errors_are_reported_as_warnings() {
    let (a, _) = analyze_file("fn broken( {\n", "a.rs", Some(LanguageKind::Rust), 8, 160);
    assert_eq!(a.parse_status, ParseStatus::Parsed);
    assert_eq!(a.diagnostics.len(), 1);
    assert_eq!(a.diagnostics[0].level, "warning");
    assert_eq!(a.diagnostics[0].message, "语法树包含 error 节点，结果可能不完整");
}

#[test]
fn unknown_languages_are_unsupported() {
    let (a, spans) = analyze_file("class A {}", "A.java", None, 8, 160);
    assert_eq!(a.parse_status, ParseStatus::Unsupported);
    assert_eq!(a.language, None);
    assert_eq!(a.diagnostics[0].level, "info");
    assert_eq!(a.diagnostics[0].message, "当前版本未接入该语言的 tree-sitter parser");
    assert!(spans.is_empty());
}

#[test]
fn large_functions_become_clone_records() {
    let body: String = (0..10).map(|i| format!("    let value_{i} = compute_something({i}) + other_value;\n")).collect();
    let src = format!("fn big() {{\n{body}}}\n");
    let (_, spans) = analyze_with_parser(&src, "big.rs", LanguageKind::Rust, "rust".to_string(), 0, 8, 160);
    let item = spans.iter().find(|s| s.node_kind == "function_item").unwrap();
    assert_eq!(item.path, "big.rs");
    assert_eq!(item.language, "rust");
    assert_eq!((item.start_line, item.end_line, item.line_count), (1, 12, 12));
    assert_eq!(item.structural_kinds[0], "function_item");
    assert_eq!(item.structural_hash.len(), 64);
    assert_eq!(item.preview, vec!["fn big() {".to_string(), "let value_0 = compute_something(0) + other_value;".to_string(), "let value_0 = compute_something(0) + other_value;".to_string()]);
    let (_, shifted) = analyze_with_parser(&src, "big.rs", LanguageKind::Rust, "rust".to_string(), 5, 8, 160);
    let moved = shifted.iter().find(|s| s.node_kind == "function_item").unwrap();
    assert_eq!((moved.start_line, moved.end_line), (6, 17));
    assert_eq!(moved.structural_hash, item.structural_hash);
}

const VUE_SRC: &str = "<template>\n  <div>{{ title }}</div>\n</template>\n<script setup lang=\"ts\">\nimport { ref } from 'vue'\nconst title = ref('x')\n</script>\n<style>\n.a {}\n</style>\n";

#[test]
fn vue_files_combine_their_blocks() {
    let (a, _) = analyze_vue_file(VUE_SRC, "App.vue", 8, 160);
    assert_eq!(a.parse_status, ParseStatus::Parsed);
    assert_eq!(a.language, Some("vue".to_string()));
    assert_eq!(a.top_level_nodes[0].kind, "vue_template");
    assert_eq!((a.top_level_nodes[0].start_line, a.top_level_nodes[0].end_line), (1, 3));
    assert_eq!(a.top_level_nodes[1].kind, "vue_script");
    assert_eq!(a.top_level_nodes[2].kind, "import_statement");
    assert_eq!(a.top_level_nodes[2].start_line, 5);
    assert_eq!(a.template_nodes.len(), 2);
    assert_eq!(a.imports[0].source, Some("vue".to_string()));
    assert_eq!(a.imports[0].span, Span { start_line: 5, end_line: 5 });
    assert_eq!(a.symbols[0].name, "<anonymous>");
    assert_eq!(a.symbols[0].kind, "declaration");
    assert_eq!(a.symbols[0].span.start_line, 6);
    let last = a.diagnostics.last().unwrap();
    assert_eq!(last.level, "info");
    assert_eq!(last.message, "style block 已识别，当前版本不做样式 AST 提取 (8-10)");
}

#[test]
fn vue_files_without_script_or_blocks() {
    let (a, _) = analyze_vue_file("<template>\n<p/>\n</template>\n", "A.vue", 8, 160);
    assert_eq!(a.parse_status, ParseStatus::Parsed);
    assert_eq!(a.diagnostics.last().unwrap().message, "Vue 文件未包含可解析的 script/script setup block");
    let (b, _) = analyze_vue_file("just text\n", "B.vue", 8, 160);
    assert_eq!(b.parse_status, ParseStatus::ParseError);
    assert_eq!(b.diagnostics[0].message, "未识别到任何 Vue SFC block，已作为空文件处理");
}

#[test]
fn parsed_syntax_lists_the_root_first() {
    let parsed = match parse_syntax(LanguageKind::Rust, "fn a() { b(); }\n") {
        Ok(p) => p,
        Err(_) => panic!("the Rust grammar parses"),
    };
    assert!(!parsed.has_error);
    assert_eq!(parsed.nodes[0].kind, "source_file");
    assert_eq!(parsed.nodes[0].depth, 0);
    assert!(parsed.nodes[1..].iter().all(|n| n.depth >= 1));
    assert!(parsed.nodes.iter().any(|n| n.kind == "function_item" && n.depth == 1));
}

#[test]
fn moving_the_offset_only_moves_the_lines() {
    let src = "use std::fmt;\npub fn a() {\n    b();\n}\n";
    let (a0, s0) = analyze_with_parser(src, "m.rs", LanguageKind::Rust, "rust".to_string(), 0, 1, 1);
    let (a7, s7) = analyze_with_parser(src, "m.rs", LanguageKind::Rust, "rust".to_string(), 7, 1, 1);
    assert_eq!(a0.parse_status, a7.parse_status);
    assert_eq!(a0.summary, a7.summary);
    assert_eq!(a0.top_level_nodes.len(), a7.top_level_nodes.len());
    for (x, y) in a0.top_level_nodes.iter().zip(a7.top_level_nodes.iter()) {
        assert_eq!((x.kind.as_str(), x.start_line + 7, x.end_line + 7), (y.kind.as_str(), y.start_line, y.end_line));
    }
    assert_eq!(a0.symbols.len(), a7.symbols.len());
    for (x, y) in a0.symbols.iter().zip(a7.symbols.iter()) {
        assert_eq!(x.name, y.name);
        assert_eq!((x.span.start_line + 7, x.span.end_line + 7), (y.span.start_line, y.span.end_line));
    }
    assert_eq!(a0.calls.len(), a7.calls.len());
    for (x, y) in a0.calls.iter().zip(a7.calls.iter()) {
        assert_eq!((x.span.start_line + 7, x.span.end_line + 7), (y.span.start_line, y.span.end_line));
    }
    assert_eq!(s0.len(), s7.len());
    for (x, y) in s0.iter().zip(s7.iter()) {
        assert_eq!((x.start_line + 7, x.end_line + 7, x.line_count), (y.start_line, y.end_line, y.line_count));
    }
}
