//! Line normalisation, quote stripping, de-duplication, sorting and hashing of
//! strings.
use vstd::prelude::*;

use crate::text::{
    before, before_exec, char_is_ascii_ws, char_is_digit, find, from_chars, is_ascii_ws, is_digit,
    is_ws, lemma_find_from, lemma_trim_start_len, lines, matches_at, trim_end, trim_start,
    lines_exec, string_is_empty, string_views, to_chars, trim, trim_char, trim_char_exec, trim_exec, views,
};

use sha2::Digest;
use vstd::string::StringSliceAdditionalSpecFns;

verus! {

// ---------------------------------------------------------------------------
// normalize_line
// ---------------------------------------------------------------------------

/// How one character of a line is rewritten: ASCII digits become `'0'` and
/// ASCII whitespace becomes a space.
pub open spec fn normalized_char(c: char) -> char {
    if is_digit(c) {
        '0'
    } else if is_ascii_ws(c) {
        ' '
    } else {
        c
    }
}

/// The rewritten characters of `s`, with every run of spaces after the first
/// dropped; `last_space` says whether a space was emitted just before `s`.
pub open spec fn collapse(s: Seq<char>, last_space: bool) -> Seq<char>
    decreases s.len(),
{
    if s.len() == 0 {
        seq![]
    } else {
        let m = normalized_char(s[0]);
        if m == ' ' {
            if last_space {
                collapse(s.drop_first(), true)
            } else {
                seq![' '] + collapse(s.drop_first(), true)
            }
        } else {
            seq![m] + collapse(s.drop_first(), false)
        }
    }
}

/// The code part of a line: what precedes the first `"//"` and then the first
/// `'#'`, trimmed.
pub open spec fn code_part(line: Seq<char>) -> Seq<char> {
    trim(before(before(line, seq!['/', '/']), seq!['#']))
}

/// A line reduced for comparison: comments cut, digits replaced by `'0'`,
/// whitespace runs collapsed to one space, and the ends trimmed.
pub open spec fn normalize_line_spec(line: Seq<char>) -> Seq<char> {
    let code = code_part(line);
    if code.len() == 0 {
        seq![]
    } else {
        trim(collapse(code, false))
    }
}

// ---------------------------------------------------------------------------
// Normalising twice changes nothing
// ---------------------------------------------------------------------------

/// The characters `a` then `b` never stand next to each other in `s`.
pub open spec fn no_pair(s: Seq<char>, a: char, b: char) -> bool {
    forall|i: int| 0 <= i < s.len() - 1 ==> !(#[trigger] s[i] == a && s[i + 1] == b)
}

/// A line as normalisation leaves it: every character is its own rewrite,
/// no two spaces stand together, no comment marker is left, and the ends are
/// not whitespace.
pub open spec fn is_normal(y: Seq<char>) -> bool {
    &&& forall|i: int| 0 <= i < y.len() ==> normalized_char(#[trigger] y[i]) == y[i]
    &&& no_pair(y, ' ', ' ')
    &&& no_pair(y, '/', '/')
    &&& forall|i: int| 0 <= i < y.len() ==> #[trigger] y[i] != '#'
    &&& y.len() > 0 ==> !is_ws(y[0]) && !is_ws(y.last())
}

/// `trim(s)` is a piece of `s` whose ends are not whitespace; a sequence
/// whose ends are not whitespace is its own trim.
proof fn lemma_trim_piece(s: Seq<char>)
    ensures
        exists|a: int, b: int| 0 <= a <= b <= s.len() && trim(s) == s.subrange(a, b),
        trim(s).len() > 0 ==> !is_ws(trim(s)[0]) && !is_ws(trim(s).last()),
        (s.len() == 0 || (!is_ws(s[0]) && !is_ws(s.last()))) ==> trim(s) == s,
{
    lemma_trim_start_len(s);
    let t = trim_start(s);
    let a = choose|a: int| 0 <= a <= s.len() && t == s.skip(a);
    lemma_trim_end_piece(t);
    let b = choose|b: int| 0 <= b <= t.len() && trim_end(t) == t.take(b);
    assert(t.take(b) =~= s.subrange(a, a + b));
    if trim_end(t).len() > 0 {
        assert(trim_end(t)[0] == t[0]);
    }
    if s.len() > 0 && !is_ws(s[0]) && !is_ws(s.last()) {
        assert(t == s);
        assert(trim_end(s) == s);
    }
    if s.len() == 0 {
        assert(trim(s) == s);
    }
}

proof fn lemma_trim_end_piece(s: Seq<char>)
    ensures
        exists|b: int| 0 <= b <= s.len() && trim_end(s) == s.take(b),
        trim_end(s).len() > 0 ==> !is_ws(trim_end(s).last()),
    decreases s.len(),
{
    if s.len() > 0 && is_ws(s.last()) {
        lemma_trim_end_piece(s.drop_last());
        let b = choose|b: int|
            0 <= b <= s.drop_last().len() && trim_end(s.drop_last()) == s.drop_last().take(b);
        assert(s.drop_last().take(b) =~= s.take(b));
    } else {
        assert(s.take(s.len() as int) =~= s);
    }
}

/// `before(s, p)` is a prefix of `s` in which `p` does not occur, and is `s`
/// itself when `p` does not occur in `s`.
proof fn lemma_before(s: Seq<char>, p: Seq<char>)
    requires
        p.len() > 0,
    ensures
        exists|k: int| 0 <= k <= s.len() && before(s, p) == s.take(k),
        forall|j: int| !matches_at(before(s, p), j, p),
        (forall|j: int| !matches_at(s, j, p)) ==> before(s, p) == s,
{
    lemma_find_from(s, p, 0);
    match find(s, p) {
        Some(i) => {
            assert forall|j: int| !matches_at(before(s, p), j, p) by {
                if matches_at(before(s, p), j, p) {
                    assert(before(s, p).subrange(j, j + p.len()) =~= s.subrange(j, j + p.len()));
                    assert(matches_at(s, j, p));
                }
            }
        },
        None => {
            assert(s.take(s.len() as int) =~= s);
        },
    }
}

/// Two-character patterns: not occurring is not standing together.
proof fn lemma_no_pair_matches(s: Seq<char>, a: char, b: char)
    ensures
        no_pair(s, a, b) <==> forall|j: int| !matches_at(s, j, seq![a, b]),
{
    if no_pair(s, a, b) {
        assert forall|j: int| !matches_at(s, j, seq![a, b]) by {
            if matches_at(s, j, seq![a, b]) {
                assert(s.subrange(j, j + 2)[0] == a);
                assert(s.subrange(j, j + 2)[1] == b);
                assert(s[j] == a && s[j + 1] == b);
            }
        }
    }
    if forall|j: int| !matches_at(s, j, seq![a, b]) {
        assert forall|i: int| 0 <= i < s.len() - 1 implies !(#[trigger] s[i] == a && s[i + 1]
            == b) by {
            if s[i] == a && s[i + 1] == b {
                assert(s.subrange(i, i + 2) =~= seq![a, b]);
                assert(matches_at(s, i, seq![a, b]));
            }
        }
    }
}

/// A one-character pattern: not occurring is not being any character.
proof fn lemma_no_char_matches(s: Seq<char>, c: char)
    ensures
        (forall|i: int| 0 <= i < s.len() ==> #[trigger] s[i] != c) <==> forall|j: int|
            !matches_at(s, j, seq![c]),
{
    if forall|i: int| 0 <= i < s.len() ==> #[trigger] s[i] != c {
        assert forall|j: int| !matches_at(s, j, seq![c]) by {
            if matches_at(s, j, seq![c]) {
                assert(s.subrange(j, j + 1)[0] == c);
                assert(s[j] == c);
            }
        }
    }
    if forall|j: int| !matches_at(s, j, seq![c]) {
        assert forall|i: int| 0 <= i < s.len() implies #[trigger] s[i] != c by {
            if s[i] == c {
                assert(s.subrange(i, i + 1) =~= seq![c]);
                assert(matches_at(s, i, seq![c]));
            }
        }
    }
}

/// The first character that `collapse` emits, when `last_space` is false,
/// is the rewrite of the first input character.
proof fn lemma_collapse_first(s: Seq<char>)
    requires
        s.len() > 0,
    ensures
        collapse(s, false).len() > 0,
        collapse(s, false)[0] == normalized_char(s[0]),
{
}

/// What `collapse` emits: rewritten characters, no two spaces together, no
/// space first after a space, and neither `'#'` nor `"//"` unless the input
/// had them.
proof fn lemma_collapse_shape(s: Seq<char>, last_space: bool)
    ensures
        forall|i: int|
            0 <= i < collapse(s, last_space).len() ==> normalized_char(
                #[trigger] collapse(s, last_space)[i],
            ) == collapse(s, last_space)[i],
        no_pair(collapse(s, last_space), ' ', ' '),
        last_space && collapse(s, last_space).len() > 0 ==> collapse(s, last_space)[0] != ' ',
        (forall|i: int| 0 <= i < s.len() ==> #[trigger] s[i] != '#') ==> forall|i: int|
            0 <= i < collapse(s, last_space).len() ==> #[trigger] collapse(s, last_space)[i]
                != '#',
        no_pair(s, '/', '/') ==> no_pair(collapse(s, last_space), '/', '/'),
    decreases s.len(),
{
    if s.len() > 0 {
        let rest = s.drop_first();
        let m = normalized_char(s[0]);
        let ls2 = m == ' ';
        lemma_collapse_shape(rest, ls2);
        let c = collapse(s, last_space);
        let cr = collapse(rest, ls2);
        if (forall|i: int| 0 <= i < s.len() ==> #[trigger] s[i] != '#') {
            assert forall|i: int| 0 <= i < rest.len() implies #[trigger] rest[i] != '#' by {
                assert(rest[i] == s[i + 1]);
            }
        }
        if no_pair(s, '/', '/') {
            assert forall|i: int| 0 <= i < rest.len() - 1 implies !(#[trigger] rest[i] == '/'
                && rest[i + 1] == '/') by {
                assert(rest[i] == s[i + 1] && rest[i + 1] == s[i + 2]);
            }
        }
        if m == ' ' && last_space {
            assert(c == cr);
        } else {
            assert(c == seq![m] + cr);
            assert forall|i: int| 0 <= i < c.len() implies normalized_char(#[trigger] c[i]) == c[i] by {
                if i > 0 {
                    assert(c[i] == cr[i - 1]);
                }
            }
            assert forall|i: int| 0 <= i < c.len() - 1 implies !(#[trigger] c[i] == ' ' && c[i + 1]
                == ' ') by {
                if i > 0 {
                    assert(c[i] == cr[i - 1] && c[i + 1] == cr[i]);
                } else {
                    assert(c[1] == cr[0]);
                }
            }
            if (forall|i: int| 0 <= i < s.len() ==> #[trigger] s[i] != '#') {
                assert forall|i: int| 0 <= i < c.len() implies #[trigger] c[i] != '#' by {
                    if i > 0 {
                        assert(c[i] == cr[i - 1]);
                    }
                }
            }
            if no_pair(s, '/', '/') {
                assert forall|i: int| 0 <= i < c.len() - 1 implies !(#[trigger] c[i] == '/'
                    && c[i + 1] == '/') by {
                    if i > 0 {
                        assert(c[i] == cr[i - 1] && c[i + 1] == cr[i]);
                    } else {
                        assert(c[1] == cr[0]);
                        if m == '/' {
                            assert(!ls2);
                            lemma_collapse_first(rest);
                            assert(cr[0] == normalized_char(rest[0]));
                            assert(s[0] == '/' && rest[0] == s[1]);
                        }
                    }
                }
            }
        }
    }
}

/// `collapse` leaves a line that is already collapsed as it is.
proof fn lemma_collapse_fixed(y: Seq<char>, last_space: bool)
    requires
        forall|i: int| 0 <= i < y.len() ==> normalized_char(#[trigger] y[i]) == y[i],
        no_pair(y, ' ', ' '),
        last_space && y.len() > 0 ==> y[0] != ' ',
    ensures
        collapse(y, last_space) == y,
    decreases y.len(),
{
    if y.len() > 0 {
        let rest = y.drop_first();
        assert(normalized_char(y[0]) == y[0]);
        assert forall|i: int| 0 <= i < rest.len() implies normalized_char(#[trigger] rest[i])
            == rest[i] by {
            assert(rest[i] == y[i + 1]);
        }
        assert forall|i: int| 0 <= i < rest.len() - 1 implies !(#[trigger] rest[i] == ' '
            && rest[i + 1] == ' ') by {
            assert(rest[i] == y[i + 1] && rest[i + 1] == y[i + 2]);
        }
        if rest.len() > 0 && y[0] == ' ' {
            assert(rest[0] == y[1]);
        }
        lemma_collapse_fixed(rest, y[0] == ' ');
        assert(y =~= seq![y[0]] + rest);
    } else {
        assert(collapse(y, last_space) =~= y);
    }
}

/// A piece of a sequence keeps what holds of every character and of every
/// two neighbours.
proof fn lemma_piece_keeps(s: Seq<char>, a: int, b: int)
    requires
        0 <= a <= b <= s.len(),
    ensures
        (forall|i: int| 0 <= i < s.len() ==> normalized_char(#[trigger] s[i]) == s[i]) ==> (forall|
            i: int,
        | 0 <= i < s.subrange(a, b).len() ==> normalized_char(#[trigger] s.subrange(a, b)[i])
            == s.subrange(a, b)[i]),
        no_pair(s, ' ', ' ') ==> no_pair(s.subrange(a, b), ' ', ' '),
        no_pair(s, '/', '/') ==> no_pair(s.subrange(a, b), '/', '/'),
        (forall|i: int| 0 <= i < s.len() ==> #[trigger] s[i] != '#') ==> (forall|i: int|
            0 <= i < s.subrange(a, b).len() ==> #[trigger] s.subrange(a, b)[i] != '#'),
{
    let t = s.subrange(a, b);
    if forall|i: int| 0 <= i < s.len() ==> normalized_char(#[trigger] s[i]) == s[i] {
        assert forall|i: int| 0 <= i < t.len() implies normalized_char(#[trigger] t[i]) == t[i] by {
            assert(t[i] == s[a + i]);
        }
    }
    if no_pair(s, ' ', ' ') {
        assert forall|i: int| 0 <= i < t.len() - 1 implies !(#[trigger] t[i] == ' ' && t[i + 1]
            == ' ') by {
            assert(t[i] == s[a + i] && t[i + 1] == s[a + i + 1]);
        }
    }
    if no_pair(s, '/', '/') {
        assert forall|i: int| 0 <= i < t.len() - 1 implies !(#[trigger] t[i] == '/' && t[i + 1]
            == '/') by {
            assert(t[i] == s[a + i] && t[i + 1] == s[a + i + 1]);
        }
    }
    if forall|i: int| 0 <= i < s.len() ==> #[trigger] s[i] != '#' {
        assert forall|i: int| 0 <= i < t.len() implies #[trigger] t[i] != '#' by {
            assert(t[i] == s[a + i]);
        }
    }
}

/// A normalised line is normal.
pub proof fn lemma_normalize_line_is_normal(line: Seq<char>)
    ensures
        is_normal(normalize_line_spec(line)),
{
    let b1 = before(line, seq!['/', '/']);
    lemma_before(line, seq!['/', '/']);
    let b2 = before(b1, seq!['#']);
    lemma_before(b1, seq!['#']);
    let k = choose|k: int| 0 <= k <= b1.len() && b2 == b1.take(k);
    lemma_no_pair_matches(b1, '/', '/');
    assert(no_pair(b2, '/', '/')) by {
        assert(b2 == b1.subrange(0, k));
        lemma_piece_keeps(b1, 0, k);
    }
    lemma_no_char_matches(b2, '#');
    let code = trim(b2);
    lemma_trim_piece(b2);
    let (a, b) = choose|a: int, b: int| 0 <= a <= b <= b2.len() && code == b2.subrange(a, b);
    lemma_piece_keeps(b2, a, b);
    assert(code_part(line) == code);
    if code.len() > 0 {
        let c = collapse(code, false);
        lemma_collapse_shape(code, false);
        let y = trim(c);
        lemma_trim_piece(c);
        let (a2, b2x) = choose|a2: int, b2x: int| 0 <= a2 <= b2x <= c.len() && y == c.subrange(a2, b2x);
        lemma_piece_keeps(c, a2, b2x);
        assert(normalize_line_spec(line) == y);
    } else {
        assert(normalize_line_spec(line) == Seq::<char>::empty());
    }
}

/// Normalising a normalised line changes nothing: a line's normal form is a
/// fixed point of normalisation.
pub proof fn law_normalize_line_idempotent(line: Seq<char>)
    ensures
        normalize_line_spec(normalize_line_spec(line)) == normalize_line_spec(line),
{
    let y = normalize_line_spec(line);
    lemma_normalize_line_is_normal(line);
    lemma_no_pair_matches(y, '/', '/');
    lemma_before(y, seq!['/', '/']);
    lemma_no_char_matches(y, '#');
    lemma_before(y, seq!['#']);
    lemma_trim_piece(y);
    assert(code_part(y) == y);
    if y.len() > 0 {
        lemma_collapse_fixed(y, false);
        assert(normalize_line_spec(y) == trim(y));
    } else {
        assert(normalize_line_spec(y) == Seq::<char>::empty());
        assert(y =~= Seq::<char>::empty());
    }
}

proof fn lemma_collapse_step(s: Seq<char>, i: int, ls: bool)
    requires
        0 <= i < s.len(),
    ensures
        collapse(s.skip(i), ls) == (if normalized_char(s[i]) == ' ' {
            if ls {
                collapse(s.skip(i + 1), true)
            } else {
                seq![' '] + collapse(s.skip(i + 1), true)
            }
        } else {
            seq![normalized_char(s[i])] + collapse(s.skip(i + 1), false)
        }),
{
    assert(s.skip(i).drop_first() =~= s.skip(i + 1));
    assert(s.skip(i)[0] == s[i]);
}

/// Normalises a line for text comparison.
pub fn normalize_line(line: &str) -> (r: String)
    ensures
        r@ == normalize_line_spec(line@),
{
    let chars = to_chars(line);
    let slashes = vec!['/', '/'];
    let hash = vec!['#'];
    assert(slashes@ == seq!['/', '/']);
    assert(hash@ == seq!['#']);
    let a = before_exec(chars.as_slice(), slashes.as_slice());
    let b = before_exec(a.as_slice(), hash.as_slice());
    let code = trim_exec(b.as_slice());
    if code.len() == 0 {
        return String::new();
    }
    let mut out: Vec<char> = Vec::new();
    let mut last_space = false;
    let n = code.len();
    assert(code@.skip(0) =~= code@);
    for i in 0..n
        invariant
            n == code@.len(),
            collapse(code@, false) == out@ + collapse(code@.skip(i as int), last_space),
    {
        let ch = code[i];
        let mapped = if char_is_digit(ch) {
            '0'
        } else if char_is_ascii_ws(ch) {
            ' '
        } else {
            ch
        };
        proof {
            lemma_collapse_step(code@, i as int, last_space);
        }
        if mapped == ' ' {
            if !last_space {
                out.push(mapped);
            }
            last_space = true;
        } else {
            out.push(mapped);
            last_space = false;
        }
    }
    assert(code@.skip(n as int) =~= seq![]);
    assert(out@ + seq![] =~= out@);
    from_chars(trim_exec(out.as_slice()).as_slice())
}

// ---------------------------------------------------------------------------
// strip_quotes
// ---------------------------------------------------------------------------

/// The lines that are not empty once normalised, normalised, in order.
pub open spec fn nonempty_normalized(ls: Seq<Seq<char>>) -> Seq<Seq<char>>
    decreases ls.len(),
{
    if ls.len() == 0 {
        seq![]
    } else {
        let r = nonempty_normalized(ls.drop_last());
        let x = normalize_line_spec(ls.last());
        if x.len() > 0 {
            r.push(x)
        } else {
            r
        }
    }
}

/// The normalised lines of a text, the empty ones left out.
pub fn normalized_lines(text: &str) -> (r: Vec<String>)
    ensures
        string_views(r@) == nonempty_normalized(lines(text@)),
{
    let ls = lines_exec(to_chars(text).as_slice());
    let mut out: Vec<String> = Vec::new();
    let n = ls.len();
    assert(views(ls@).take(0) =~= seq![]);
    for i in 0..n
        invariant
            n == ls@.len(),
            string_views(out@) == nonempty_normalized(views(ls@).take(i as int)),
    {
        let line = from_chars(ls[i].as_slice());
        let x = normalize_line(line.as_str());
        let ghost t = views(ls@).take(i + 1);
        assert(t.drop_last() =~= views(ls@).take(i as int));
        assert(t.last() == ls@[i as int]@);
        if !string_is_empty(&x) {
            let ghost before = string_views(out@);
            out.push(x);
            assert(string_views(out@) =~= before.push(x@));
        }
    }
    assert(views(ls@).take(n as int) =~= views(ls@));
    out
}

/// The text with surrounding `"`, then `'`, then `` ` `` characters trimmed.
pub open spec fn strip_quotes_spec(s: Seq<char>) -> Seq<char> {
    trim_char(trim_char(trim_char(s, '"'), '\''), '`')
}

/// Strips the quote characters around a literal.
pub fn strip_quotes(input: &str) -> (r: String)
    ensures
        r@ == strip_quotes_spec(input@),
{
    let chars = to_chars(input);
    let a = trim_char_exec(chars.as_slice(), '"');
    let b = trim_char_exec(a.as_slice(), '\'');
    let c = trim_char_exec(b.as_slice(), '`');
    from_chars(c.as_slice())
}

// ---------------------------------------------------------------------------
// dedup_vec
// ---------------------------------------------------------------------------

/// The values in order of first occurrence, each once.
pub open spec fn dedup_spec(s: Seq<Seq<char>>) -> Seq<Seq<char>>
    decreases s.len(),
{
    if s.len() == 0 {
        seq![]
    } else {
        let d = dedup_spec(s.drop_last());
        if d.contains(s.last()) {
            d
        } else {
            d.push(s.last())
        }
    }
}

/// Removing repeats keeps each value exactly once: the result holds no value
/// twice, and holds exactly the values of the input.
pub proof fn law_dedup_keeps_each_value_once(s: Seq<Seq<char>>)
    ensures
        dedup_spec(s).no_duplicates(),
        forall|x: Seq<char>| dedup_spec(s).contains(x) <==> s.contains(x),
    decreases s.len(),
{
    if s.len() > 0 {
        let init = s.drop_last();
        let last = s.last();
        law_dedup_keeps_each_value_once(init);
        let d = dedup_spec(init);
        assert(s.contains(last)) by {
            assert(s[s.len() - 1] == last);
        }
        assert forall|x: Seq<char>| init.contains(x) implies s.contains(x) by {
            let i = choose|i: int| 0 <= i < init.len() && init[i] == x;
            assert(s[i] == x);
        }
        assert forall|x: Seq<char>| s.contains(x) && x != last implies init.contains(x) by {
            let i = choose|i: int| 0 <= i < s.len() && s[i] == x;
            assert(i != s.len() - 1);
            assert(init[i] == x);
        }
        if d.contains(last) {
            assert(dedup_spec(s) == d);
        } else {
            let e = d.push(last);
            assert(dedup_spec(s) == e);
            assert forall|x: Seq<char>| e.contains(x) <==> d.contains(x) || x == last by {
                if e.contains(x) && x != last {
                    let i = choose|i: int| 0 <= i < e.len() && e[i] == x;
                    assert(d[i] == x);
                }
                if d.contains(x) {
                    let i = choose|i: int| 0 <= i < d.len() && d[i] == x;
                    assert(e[i] == x);
                }
                if x == last {
                    assert(e[d.len() as int] == x);
                }
            }
            assert forall|i: int, j: int| 0 <= i < e.len() && 0 <= j < e.len() && i != j implies e[i]
                != e[j] by {
                if i < d.len() && j < d.len() {
                } else if i < d.len() {
                    assert(d.contains(e[i]));
                } else {
                    assert(d.contains(e[j]));
                }
            }
        }
    }
}

/// Whether some string in `v` has the characters `x`.
pub fn contains_string(v: &Vec<String>, x: &String) -> (r: bool)
    ensures
        r == string_views(v@).contains(x@),
{
    let n = v.len();
    for i in 0..n
        invariant
            n == v@.len(),
            forall|j: int| 0 <= j < i ==> v@[j]@ != x@,
    {
        if v[i] == *x {
            assert(string_views(v@)[i as int] == x@);
            return true;
        }
    }
    proof {
        if string_views(v@).contains(x@) {
            let j = choose|j: int| 0 <= j < string_views(v@).len() && string_views(v@)[j] == x@;
            assert(v@[j]@ == x@);
        }
    }
    false
}

/// Removes repeated values, keeping the first occurrence of each.
pub fn dedup_vec(values: Vec<String>) -> (r: Vec<String>)
    ensures
        string_views(r@) == dedup_spec(string_views(values@)),
{
    let mut out: Vec<String> = Vec::new();
    let n = values.len();
    assert(string_views(out@) =~= seq![]);
    assert(string_views(values@).take(0) =~= seq![]);
    for i in 0..n
        invariant
            n == values@.len(),
            string_views(out@) == dedup_spec(string_views(values@).take(i as int)),
    {
        let v = values[i].clone();
        let ghost pre = string_views(values@).take(i as int);
        let ghost next = string_views(values@).take(i + 1);
        assert(next.drop_last() =~= pre);
        assert(next.last() == v@);
        if !contains_string(&out, &v) {
            let ghost before_push = string_views(out@);
            out.push(v);
            assert(string_views(out@) =~= before_push.push(next.last()));
        }
    }
    assert(string_views(values@).take(n as int) =~= string_views(values@));
    out
}

// ---------------------------------------------------------------------------
// sorted
// ---------------------------------------------------------------------------

/// The order of `String`: lexicographic by code point.
pub open spec fn seq_lt(a: Seq<char>, b: Seq<char>) -> bool
    decreases a.len(),
{
    if a.len() == 0 {
        b.len() > 0
    } else if b.len() == 0 {
        false
    } else if a[0] != b[0] {
        a[0] < b[0]
    } else {
        seq_lt(a.drop_first(), b.drop_first())
    }
}

/// Each value strictly precedes the next.
pub open spec fn strictly_sorted(s: Seq<Seq<char>>) -> bool {
    forall|i: int, j: int| 0 <= i < j < s.len() ==> seq_lt(s[i], s[j])
}

/// No string precedes itself.
pub proof fn lemma_seq_lt_irreflexive(a: Seq<char>)
    ensures
        !seq_lt(a, a),
    decreases a.len(),
{
    if a.len() > 0 {
        lemma_seq_lt_irreflexive(a.drop_first());
    }
}

/// The order of strings is transitive.
pub proof fn lemma_seq_lt_transitive(a: Seq<char>, b: Seq<char>, c: Seq<char>)
    requires
        seq_lt(a, b),
        seq_lt(b, c),
    ensures
        seq_lt(a, c),
    decreases a.len(),
{
    if a.len() > 0 && b.len() > 0 && c.len() > 0 {
        if a[0] == b[0] && b[0] == c[0] {
            lemma_seq_lt_transitive(a.drop_first(), b.drop_first(), c.drop_first());
        }
    }
}

/// Of two different strings, one precedes the other.
pub proof fn lemma_seq_lt_total(a: Seq<char>, b: Seq<char>)
    ensures
        a != b ==> seq_lt(a, b) || seq_lt(b, a),
    decreases a.len(),
{
    if a.len() > 0 && b.len() > 0 && a[0] == b[0] {
        lemma_seq_lt_total(a.drop_first(), b.drop_first());
        if a.drop_first() == b.drop_first() {
            assert(a =~= seq![a[0]] + a.drop_first());
            assert(b =~= seq![b[0]] + b.drop_first());
        }
    } else if a.len() == 0 && b.len() == 0 {
        assert(a =~= b);
    }
}

/// Of two strings, at most one precedes the other.
pub proof fn lemma_seq_lt_asymmetric(a: Seq<char>, b: Seq<char>)
    requires
        seq_lt(a, b),
    ensures
        !seq_lt(b, a),
{
    if seq_lt(b, a) {
        lemma_seq_lt_transitive(a, b, a);
        lemma_seq_lt_irreflexive(a);
    }
}

/// Whether `a` precedes `b` in the order of `String`.
pub fn chars_lt(a: &[char], b: &[char]) -> (r: bool)
    ensures
        r == seq_lt(a@, b@),
{
    let mut i: usize = 0;
    let n = a.len();
    let m = b.len();
    assert(a@.skip(0) =~= a@);
    assert(b@.skip(0) =~= b@);
    loop
        invariant
            i <= n == a@.len(),
            m == b@.len(),
            i <= m,
            seq_lt(a@, b@) == seq_lt(a@.skip(i as int), b@.skip(i as int)),
        decreases n - i,
    {
        let ghost sa = a@.skip(i as int);
        let ghost sb = b@.skip(i as int);
        if i == n {
            return i < m;
        }
        if i == m {
            return false;
        }
        if a[i] != b[i] {
            return a[i] < b[i];
        }
        assert(sa.drop_first() =~= a@.skip(i + 1));
        assert(sb.drop_first() =~= b@.skip(i + 1));
        i += 1;
    }
}

/// Whether string `a` precedes string `b`.
pub fn string_lt(a: &String, b: &String) -> (r: bool)
    ensures
        r == seq_lt(a@, b@),
{
    let ca = to_chars(a.as_str());
    let cb = to_chars(b.as_str());
    chars_lt(ca.as_slice(), cb.as_slice())
}

/// The distinct values in ascending order.
pub open spec fn sorted_distinct(s: Seq<Seq<char>>) -> Seq<Seq<char>> {
    choose|t: Seq<Seq<char>>|
        strictly_sorted(t) && forall|x: Seq<char>| t.contains(x) <==> s.contains(x)
}

/// Every sequence of strings has an ascending arrangement of its distinct
/// values, so `sorted_distinct` holds them.
pub proof fn lemma_sorted_distinct(s: Seq<Seq<char>>)
    ensures
        strictly_sorted(sorted_distinct(s)),
        forall|x: Seq<char>| sorted_distinct(s).contains(x) <==> s.contains(x),
{
    let t = sorted_witness(s);
    assert(strictly_sorted(t) && forall|x: Seq<char>| t.contains(x) <==> s.contains(x));
}

/// An ascending arrangement of the distinct values of `s`, built by
/// insertion.
proof fn sorted_witness(s: Seq<Seq<char>>) -> (t: Seq<Seq<char>>)
    ensures
        strictly_sorted(t),
        forall|x: Seq<char>| t.contains(x) <==> s.contains(x),
    decreases s.len(),
{
    if s.len() == 0 {
        seq![]
    } else {
        let init = s.drop_last();
        let x = s.last();
        let t0 = sorted_witness(init);
        assert(s[s.len() - 1] == x);
        assert forall|y: Seq<char>| init.contains(y) implies s.contains(y) by {
            let i = choose|i: int| 0 <= i < init.len() && init[i] == y;
            assert(s[i] == y);
        }
        assert forall|y: Seq<char>| s.contains(y) && y != x implies init.contains(y) by {
            let i = choose|i: int| 0 <= i < s.len() && s[i] == y;
            assert(init[i] == y);
        }
        if t0.contains(x) {
            t0
        } else {
            let pos = first_above(t0, x, 0);
            lemma_first_above(t0, x, 0);
            let t = t0.insert(pos, x);
            assert forall|i: int, j: int| 0 <= i < j < t.len() implies seq_lt(t[i], t[j]) by {
                if j < pos {
                    assert(t[i] == t0[i] && t[j] == t0[j]);
                } else if j == pos {
                    assert(t[i] == t0[i]);
                    lemma_seq_lt_total(t0[i], x);
                    assert(t0.contains(t0[i]));
                } else if i == pos {
                    assert(t[j] == t0[j - 1]);
                    if j - 1 > pos {
                        lemma_seq_lt_transitive(x, t0[pos], t0[j - 1]);
                    }
                } else if i < pos {
                    assert(t[i] == t0[i] && t[j] == t0[j - 1]);
                } else {
                    assert(t[i] == t0[i - 1] && t[j] == t0[j - 1]);
                }
            }
            assert forall|y: Seq<char>| t.contains(y) <==> s.contains(y) by {
                if t.contains(y) {
                    let i = choose|i: int| 0 <= i < t.len() && t[i] == y;
                    if i < pos {
                        assert(t0[i] == y);
                    } else if i > pos {
                        assert(t0[i - 1] == y);
                    }
                }
                if s.contains(y) {
                    if y == x {
                        assert(t[pos] == x);
                    } else {
                        assert(t0.contains(y));
                        let i = choose|i: int| 0 <= i < t0.len() && t0[i] == y;
                        if i < pos {
                            assert(t[i] == y);
                        } else {
                            assert(t[i + 1] == y);
                        }
                    }
                }
            }
            t
        }
    }
}

/// The first position from `k` on whose value follows `x`.
spec fn first_above(t: Seq<Seq<char>>, x: Seq<char>, k: int) -> int
    decreases t.len() - k,
{
    if k < 0 || k >= t.len() {
        t.len() as int
    } else if seq_lt(x, t[k]) {
        k
    } else {
        first_above(t, x, k + 1)
    }
}

proof fn lemma_first_above(t: Seq<Seq<char>>, x: Seq<char>, k: int)
    requires
        0 <= k <= t.len(),
    ensures
        k <= first_above(t, x, k) <= t.len(),
        forall|i: int| k <= i < first_above(t, x, k) ==> !seq_lt(x, #[trigger] t[i]),
        first_above(t, x, k) < t.len() ==> seq_lt(x, t[first_above(t, x, k)]),
    decreases t.len() - k,
{
    if k < t.len() && !seq_lt(x, t[k]) {
        lemma_first_above(t, x, k + 1);
    }
}

/// Two ascending sequences without repeats that hold the same values are
/// equal.
pub proof fn lemma_strictly_sorted_unique(a: Seq<Seq<char>>, b: Seq<Seq<char>>)
    requires
        strictly_sorted(a),
        strictly_sorted(b),
        forall|x: Seq<char>| a.contains(x) <==> b.contains(x),
    ensures
        a == b,
    decreases a.len(),
{
    if a.len() == 0 {
        if b.len() > 0 {
            assert(b.contains(b[0]));
        }
        assert(a =~= b);
    } else if b.len() == 0 {
        assert(a.contains(a[0]));
    } else {
        assert(a.contains(a[0]));
        assert(b.contains(b[0]));
        let i = choose|i: int| 0 <= i < b.len() && b[i] == a[0];
        let j = choose|j: int| 0 <= j < a.len() && a[j] == b[0];
        if i > 0 {
            assert(seq_lt(b[0], b[i]));
            if j > 0 {
                assert(seq_lt(a[0], a[j]));
                lemma_seq_lt_asymmetric(a[0], b[0]);
            } else {
                lemma_seq_lt_irreflexive(a[0]);
            }
        }
        assert(a[0] == b[0]);
        let a2 = a.drop_first();
        let b2 = b.drop_first();
        assert forall|x: Seq<char>| a2.contains(x) <==> b2.contains(x) by {
            if a2.contains(x) {
                let k = choose|k: int| 0 <= k < a2.len() && a2[k] == x;
                assert(seq_lt(a[0], a[k + 1]));
                lemma_seq_lt_irreflexive(x);
                assert(b.contains(x));
                let m = choose|m: int| 0 <= m < b.len() && b[m] == x;
                assert(m != 0);
                assert(b2[m - 1] == x);
            }
            if b2.contains(x) {
                let k = choose|k: int| 0 <= k < b2.len() && b2[k] == x;
                assert(seq_lt(b[0], b[k + 1]));
                lemma_seq_lt_irreflexive(x);
                assert(a.contains(x));
                let m = choose|m: int| 0 <= m < a.len() && a[m] == x;
                assert(m != 0);
                assert(a2[m - 1] == x);
            }
        }
        lemma_strictly_sorted_unique(a2, b2);
        assert(a =~= seq![a[0]] + a2);
        assert(b =~= seq![b[0]] + b2);
    }
}


/// The values in ascending order, each once.
pub fn sorted(values: Vec<String>) -> (r: Vec<String>)
    ensures
        strictly_sorted(string_views(r@)),
        forall|x: Seq<char>| string_views(r@).contains(x) <==> string_views(values@).contains(x),
        string_views(r@) == sorted_distinct(string_views(values@)),
{
    let mut out: Vec<String> = Vec::new();
    let n = values.len();
    for i in 0..n
        invariant
            n == values@.len(),
            strictly_sorted(string_views(out@)),
            forall|x: Seq<char>|
                string_views(out@).contains(x) <==> string_views(values@).take(i as int).contains(
                    x,
                ),
    {
        let v = values[i].clone();
        let ghost old_out = string_views(out@);
        let ghost pre = string_views(values@).take(i as int);
        let ghost next = string_views(values@).take(i + 1);
        assert(next =~= pre.push(v@));
        // find the first position whose value does not precede `v`
        let mut k: usize = 0;
        let len = out.len();
        while k < len && string_lt(&out[k], &v)
            invariant
                k <= len == out@.len(),
                string_views(out@) == old_out,
                forall|j: int| 0 <= j < k ==> seq_lt(old_out[j], v@),
            decreases len - k,
        {
            k += 1;
        }
        if k < len && out[k] == v {
            assert(old_out[k as int] == v@);
            assert forall|x: Seq<char>| old_out.contains(x) <==> next.contains(x) by {
                if x == v@ {
                    assert(next[i as int] == x);
                }
                if next.contains(x) {
                    let j = choose|j: int| 0 <= j < next.len() && next[j] == x;
                    if j < i {
                        assert(pre[j] == x);
                    }
                }
                if pre.contains(x) {
                    let j = choose|j: int| 0 <= j < pre.len() && pre[j] == x;
                    assert(next[j] == x);
                }
            }
        } else {
            proof {
                if k < len {
                    lemma_seq_lt_total(old_out[k as int], v@);
                }
            }
            out.insert(k, v);
            let ghost new_out = string_views(out@);
            assert(new_out =~= old_out.insert(k as int, next.last()));
            assert forall|a: int, b: int| 0 <= a < b < new_out.len() implies seq_lt(
                new_out[a],
                new_out[b],
            ) by {
                if b < k {
                } else if b == k {
                } else if a < k {
                    assert(new_out[b] == old_out[b - 1]);
                    if k < len {
                        if b - 1 > k {
                            lemma_seq_lt_transitive(v@, old_out[k as int], old_out[b - 1]);
                        }
                    }
                    lemma_seq_lt_transitive(new_out[a], v@, new_out[b]);
                } else if a == k {
                    if b - 1 > k {
                        lemma_seq_lt_transitive(v@, old_out[k as int], old_out[b - 1]);
                    }
                } else {
                }
            }
            assert forall|x: Seq<char>| new_out.contains(x) <==> next.contains(x) by {
                if new_out.contains(x) {
                    let j = choose|j: int| 0 <= j < new_out.len() && new_out[j] == x;
                    if j < k {
                        assert(old_out[j] == x);
                    } else if j > k {
                        assert(old_out[j - 1] == x);
                    } else {
                        assert(next[i as int] == x);
                    }
                    if x != v@ {
                        assert(old_out.contains(x));
                        let jj = choose|jj: int| 0 <= jj < pre.len() && pre[jj] == x;
                        assert(next[jj] == x);
                    }
                }
                if next.contains(x) {
                    let j = choose|j: int| 0 <= j < next.len() && next[j] == x;
                    if j < i {
                        assert(pre[j] == x);
                        assert(old_out.contains(x));
                        let jj = choose|jj: int| 0 <= jj < old_out.len() && old_out[jj] == x;
                        if jj < k {
                            assert(new_out[jj] == x);
                        } else {
                            assert(new_out[jj + 1] == x);
                        }
                    } else {
                        assert(new_out[k as int] == x);
                    }
                }
            }
        }
    }
    assert(string_views(values@).take(n as int) =~= string_views(values@));
    proof {
        let t = sorted_distinct(string_views(values@));
        assert(strictly_sorted(t) && forall|x: Seq<char>|
            t.contains(x) <==> string_views(values@).contains(x));
        lemma_strictly_sorted_unique(string_views(out@), t);
    }
    out
}

// ---------------------------------------------------------------------------
// Hashing
// ---------------------------------------------------------------------------

/// The SHA-256 digest of a byte sequence.
pub uninterp spec fn sha256(data: Seq<u8>) -> Seq<u8>;

/// `sha2::Sha256::digest`: the 32-byte SHA-256 digest of `data`. The contract
/// names the digest `sha256(data)` and states its length; nothing else about
/// the digest is stated.
#[verifier::external_body]
fn sha256_digest(data: &[u8]) -> (r: Vec<u8>)
    ensures
        r@ == sha256(data@),
        r@.len() == 32,
{
    sha2::Sha256::digest(data).to_vec()
}

/// The lowercase hexadecimal digit for a value below 16.
pub open spec fn hex_digit(v: int) -> char {
    if v < 10 {
        ((v + 48) as u8) as char
    } else {
        ((v + 87) as u8) as char
    }
}

/// Lowercase hexadecimal text of a byte sequence, two digits per byte.
pub open spec fn hex_lower(data: Seq<u8>) -> Seq<char>
    decreases data.len(),
{
    if data.len() == 0 {
        seq![]
    } else {
        hex_lower(data.drop_last()) + seq![
            hex_digit(data.last() as int / 16),
            hex_digit(data.last() as int % 16),
        ]
    }
}

fn hex_digit_exec(v: u8) -> (r: char)
    requires
        v < 16,
    ensures
        r == hex_digit(v as int),
{
    if v < 10 {
        ((v + 48) as u8) as char
    } else {
        ((v + 87) as u8) as char
    }
}

/// Lowercase hexadecimal text of bytes.
pub fn to_hex_lower(data: &[u8]) -> (r: Vec<char>)
    ensures
        r@ == hex_lower(data@),
        r@.len() == 2 * data@.len(),
{
    let mut out: Vec<char> = Vec::new();
    let n = data.len();
    assert(data@.take(0) =~= seq![]);
    for i in 0..n
        invariant
            n == data@.len(),
            out@ == hex_lower(data@.take(i as int)),
            out@.len() == 2 * i,
    {
        let b = data[i];
        let hi = hex_digit_exec(b / 16);
        let lo = hex_digit_exec(b % 16);
        out.push(hi);
        out.push(lo);
        let ghost t = data@.take(i + 1);
        assert(t.drop_last() =~= data@.take(i as int));
        assert(t.last() == b);
    }
    assert(data@.take(n as int) =~= data@);
    out
}

/// The SHA-256 digest of the text's UTF-8 bytes, in lowercase hexadecimal.
pub open spec fn hash_string_spec(input: Seq<char>) -> Seq<char> {
    hex_lower(sha256(vstd::utf8::encode_utf8(input)))
}

/// Hashes text with SHA-256 and renders the digest in lowercase hexadecimal.
pub fn hash_string(input: &str) -> (r: String)
    ensures
        r@ == hash_string_spec(input@),
        r@.len() == 64,
{
    let digest = sha256_digest(input.as_bytes());
    from_chars(to_hex_lower(digest.as_slice()).as_slice())
}

/// The first twelve bytes of a hash, or the whole hash when it is not longer.
pub fn shorten_hash(hash: &str) -> (r: &str)
    requires
        hash.spec_bytes().len() > 12 ==> vstd::utf8::is_char_boundary(hash.spec_bytes(), 12),
    ensures
        hash.spec_bytes().len() > 12 ==> r.spec_bytes() == hash.spec_bytes().take(12),
        hash.spec_bytes().len() <= 12 ==> r@ == hash@,
{
    if hash.as_bytes().len() > 12 {
        let parts = hash.split_at(12);
        assert(hash.spec_bytes().subrange(0, 12) =~= hash.spec_bytes().take(12));
        parts.0
    } else {
        hash
    }
}

} // verus!
