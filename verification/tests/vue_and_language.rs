use scalpel::language::{
    is_code_file, keep_entry, scan_excludes, scan_extensions, LanguageKind, ParseStatus,
};
use scalpel::vue::{
    analyze_vue_template_block, extract_interpolations, extract_lang_attr, extract_vue_blocks,
    is_component_name, is_template_directive, parse_template_tag, parse_vue_open_tag,
};

fn strings(items: &[&str]) -> Vec<String> {
    items.iter().map(|s| s.to_string()).collect()
}

#[test]
fn language_from_extension() {
    assert_eq!(LanguageKind::from_extension("src/main.rs"), Some(LanguageKind::Rust));
    assert_eq!(LanguageKind::from_extension("a/b/app.jsx"), Some(LanguageKind::JavaScript));
    assert_eq!(LanguageKind::from_extension("index.ts"), Some(LanguageKind::TypeScript));
    assert_eq!(LanguageKind::from_extension("view.tsx"), Some(LanguageKind::Tsx));
    assert_eq!(LanguageKind::from_extension("tool.py"), Some(LanguageKind::Python));
    assert_eq!(LanguageKind::from_extension("cmd/main.go"), Some(LanguageKind::Go));
    assert_eq!(LanguageKind::from_extension("App.vue"), Some(LanguageKind::Vue));
    assert_eq!(LanguageKind::from_extension("Main.java"), None);
    assert_eq!(LanguageKind::from_extension("Makefile"), None);
    assert_eq!(LanguageKind::from_extension(".rs"), None);
}

#[test]
fn language_and_status_names() {
    assert_eq!(LanguageKind::Rust.as_str(), "rust");
    assert_eq!(LanguageKind::JavaScript.as_str(), "javascript");
    assert_eq!(LanguageKind::TypeScript.as_str(), "typescript");
    assert_eq!(LanguageKind::Tsx.as_str(), "tsx");
    assert_eq!(LanguageKind::Python.as_str(), "python");
    assert_eq!(LanguageKind::Go.as_str(), "go");
    assert_eq!(LanguageKind::Vue.as_str(), "vue");
    assert_eq!(ParseStatus::Parsed.as_str(), "parsed");
    assert_eq!(ParseStatus::Unsupported.as_str(), "unsupported");
    assert_eq!(ParseStatus::ParseError.as_str(), "parse_error");
}

#[test]
fn scanned_extensions_and_excludes() {
    let defaults = scan_extensions(&Vec::new());
    assert_eq!(defaults.len(), 23);
    assert_eq!(defaults[0], "rs");
    assert_eq!(defaults[22], "lua");
    assert_eq!(scan_extensions(&strings(&[".rs", "ts", "..py"])), strings(&["rs", "ts", "py"]));
    let excludes = scan_excludes(&strings(&["coverage"]));
    assert_eq!(
        excludes,
        strings(&[".git", "node_modules", "target", "dist", "build", "vendor", ".next", ".turbo", "coverage"])
    );
}

#[test]
fn code_files_are_told_by_extension() {
    let exts = strings(&["rs", "vue"]);
    assert!(is_code_file("src/lib.rs", &exts));
    assert!(is_code_file("App.vue", &exts));
    assert!(!is_code_file("README.md", &exts));
    assert!(!is_code_file("Makefile", &exts));
}

#[test]
fn entries_are_kept_unless_excluded() {
    let excludes = scan_excludes(&Vec::new());
    assert!(keep_entry(0, "target", &excludes));
    assert!(!keep_entry(1, "target", &excludes));
    assert!(!keep_entry(3, "node_modules", &excludes));
    assert!(keep_entry(1, "src", &excludes));
}

#[test]
fn component_and_directive_names() {
    assert!(is_component_name("my-item"));
    assert!(is_component_name("UserCard"));
    assert!(!is_component_name("div"));
    assert!(!is_component_name(""));
    assert!(is_template_directive("v-if"));
    assert!(is_template_directive(":key"));
    assert!(is_template_directive("@click"));
    assert!(is_template_directive("#default"));
    assert!(!is_template_directive("class"));
}

#[test]
fn interpolations_are_trimmed_and_non_empty() {
    assert_eq!(
        extract_interpolations("<p>{{ user.name }} - {{count}}{{ }}</p>"),
        strings(&["user.name", "count"])
    );
    assert_eq!(extract_interpolations("{{ open"), Vec::<String>::new());
    assert_eq!(extract_interpolations("no braces"), Vec::<String>::new());
}

#[test]
fn template_tags_split_directives_from_attributes() {
    let tag = parse_template_tag("<UserCard v-for=\"u in users\" :key=\"u.id\" class=\"row\" @click=\"pick\" />")
        .unwrap();
    assert_eq!(tag.name, "UserCard");
    assert_eq!(tag.directives, strings(&["v-for", ":key", "@click"]));
    // Tokens are split at whitespace, so a quoted value with spaces leaves
    // its later words as attributes.
    assert_eq!(tag.attributes, strings(&["in", "users\"", "class"]));
    assert!(tag.self_closing);

    let open = parse_template_tag("<div id=\"app\">").unwrap();
    assert_eq!(open.name, "div");
    assert_eq!(open.attributes, strings(&["id"]));
    assert!(!open.self_closing);

    assert!(parse_template_tag("<>").is_none());
    assert!(parse_template_tag("< / >").is_none());
}

#[test]
fn vue_open_tags_and_lang() {
    assert_eq!(
        parse_vue_open_tag("<script setup lang=\"ts\">"),
        Some(("script".to_string(), Some("ts".to_string())))
    );
    assert_eq!(parse_vue_open_tag("<template>"), Some(("template".to_string(), None)));
    assert_eq!(
        parse_vue_open_tag("<style scoped lang='scss'>"),
        Some(("style".to_string(), Some("scss".to_string())))
    );
    assert_eq!(parse_vue_open_tag("<div>"), None);
    assert_eq!(extract_lang_attr("<script lang=ts>"), None);
    assert_eq!(extract_lang_attr("<script lang=\"\">"), None);
    assert_eq!(extract_lang_attr("<script lang=\"tsx\">"), Some("tsx".to_string()));
}

const SFC: &str = "<template>\n  <div class=\"app\">\n    <MyItem v-if=\"ok\" :id=\"1\" />\n    <p>{{ msg }}</p>\n  </div>\n</template>\n\n<script lang=\"ts\">\nexport default {}\n</script>\n<style>\n.a { color: red; }\n</style>\n";

#[test]
fn vue_blocks_are_split_by_top_level_tags() {
    let blocks = extract_vue_blocks(SFC);
    assert_eq!(blocks.len(), 3);
    assert_eq!(blocks[0].tag, "template");
    assert_eq!((blocks[0].start_line, blocks[0].end_line, blocks[0].content_start_line), (1, 6, 2));
    assert_eq!(
        blocks[0].content,
        "  <div class=\"app\">\n    <MyItem v-if=\"ok\" :id=\"1\" />\n    <p>{{ msg }}</p>\n  </div>"
    );
    assert_eq!(blocks[1].tag, "script");
    assert_eq!(blocks[1].lang, Some("ts".to_string()));
    assert_eq!((blocks[1].start_line, blocks[1].end_line), (8, 10));
    assert_eq!(blocks[1].content, "export default {}");
    assert_eq!(blocks[2].tag, "style");
    assert_eq!((blocks[2].start_line, blocks[2].end_line), (11, 13));
}

#[test]
fn unclosed_vue_block_runs_to_the_end() {
    let blocks = extract_vue_blocks("<script>\nlet a = 1;\nlet b = 2;");
    assert_eq!(blocks.len(), 1);
    assert_eq!((blocks[0].start_line, blocks[0].end_line), (1, 1));
    assert_eq!(blocks[0].content, "let a = 1;\nlet b = 2;");
}

#[test]
fn template_nodes_with_depth_and_lines() {
    let blocks = extract_vue_blocks(SFC);
    let nodes = analyze_vue_template_block(&blocks[0]);
    let summary: Vec<(String, Option<String>, usize, usize)> = nodes
        .iter()
        .map(|n| (n.kind.clone(), n.name.clone(), n.depth, n.span.start_line))
        .collect();
    assert_eq!(
        summary,
        vec![
            ("element".to_string(), Some("div".to_string()), 0, 2),
            ("component".to_string(), Some("MyItem".to_string()), 1, 3),
            ("interpolation".to_string(), None, 1, 4),
            ("element".to_string(), Some("p".to_string()), 1, 4),
        ]
    );
    assert_eq!(nodes[1].directives, strings(&["v-if", ":id"]));
    assert_eq!(nodes[2].expression, Some("msg".to_string()));
}
