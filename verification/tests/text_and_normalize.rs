use scalpel::normalize::{dedup_vec, hash_string, normalize_line, normalized_lines, shorten_hash, sorted, strip_quotes};
use scalpel::text::{from_chars, to_chars, usize_to_decimal};

fn strings(items: &[&str]) -> Vec<String> {
    items.iter().map(|s| s.to_string()).collect()
}

#[test]
fn normalize_line_masks_digits_and_collapses_spaces() {
    assert_eq!(normalize_line("  let  x =\t42;  "), "let x = 00;");
}

#[test]
fn normalize_line_drops_line_comments() {
    assert_eq!(normalize_line("foo(1) // call foo"), "foo(0)");
    assert_eq!(normalize_line("x = 1 # python comment"), "x = 0");
    assert_eq!(normalize_line("// only a comment"), "");
    assert_eq!(normalize_line("   "), "");
}

#[test]
fn normalize_line_is_idempotent_on_examples() {
    for line in ["  a\t\tb  ", "x = 12 // c", "值 = 3 #注释", "a  /  b"] {
        let once = normalize_line(line);
        assert_eq!(normalize_line(&once), once);
    }
}

#[test]
fn normalized_lines_skip_empty_lines() {
    let lines = normalized_lines("a = 1\n\n// note\r\nb  =  22\r\n");
    assert_eq!(lines, strings(&["a = 0", "b = 00"]));
}

#[test]
fn strip_quotes_removes_each_quote_kind_in_turn() {
    assert_eq!(strip_quotes("\"react\""), "react");
    assert_eq!(strip_quotes("'`x`'"), "x");
    assert_eq!(strip_quotes("`tpl`"), "tpl");
    assert_eq!(strip_quotes("\"'mixed\""), "mixed");
}

#[test]
fn dedup_vec_keeps_first_occurrences_in_order() {
    assert_eq!(dedup_vec(strings(&["b", "a", "b", "c", "a"])), strings(&["b", "a", "c"]));
    assert_eq!(dedup_vec(Vec::new()), Vec::<String>::new());
}

#[test]
fn sorted_orders_and_removes_repeats() {
    assert_eq!(sorted(strings(&["src/b.rs", "src/a.rs", "src/b.rs"])), strings(&["src/a.rs", "src/b.rs"]));
    assert_eq!(sorted(strings(&["b", "B", "a"])), strings(&["B", "a", "b"]));
}

#[test]
fn hash_string_is_sha256_in_lowercase_hex() {
    assert_eq!(
        hash_string(""),
        "e3b0c44298fc1c149afbf4c8996fb92427ae41e4649b934ca495991b7852b855"
    );
    assert_eq!(
        hash_string("abc"),
        "ba7816bf8f01cfea414140de5dae2223b00361a396177a9cb410ff61f20015ad"
    );
    assert_eq!(hash_string("some text").len(), 64);
}

#[test]
fn shorten_hash_keeps_twelve_bytes() {
    assert_eq!(shorten_hash("0123456789abcdef"), "0123456789ab");
    assert_eq!(shorten_hash("0123456789ab"), "0123456789ab");
    assert_eq!(shorten_hash("abc"), "abc");
}

#[test]
fn char_conversions_round_trip() {
    let v = to_chars("héllo");
    assert_eq!(v, vec!['h', 'é', 'l', 'l', 'o']);
    assert_eq!(from_chars(&v), "héllo");
}

#[test]
fn decimal_text_of_numbers() {
    assert_eq!(usize_to_decimal(0), "0");
    assert_eq!(usize_to_decimal(7), "7");
    assert_eq!(usize_to_decimal(1204), "1204");
}
