//! Character-level text operations: the few `str` methods that the analysis
//! relies on, each stated as a spec function over `Seq<char>` and implemented
//! over `&[char]`.
use vstd::prelude::*;

verus! {

// ---------------------------------------------------------------------------
// Character classes
// ---------------------------------------------------------------------------

/// `char::is_whitespace`: the Unicode `White_Space` property.
pub open spec fn is_ws(c: char) -> bool {
    ||| (9 <= (c as u32) && (c as u32) <= 13)
    ||| c == ' '
    ||| c == '\u{85}'
    ||| c == '\u{a0}'
    ||| c == '\u{1680}'
    ||| (0x2000 <= (c as u32) && (c as u32) <= 0x200a)
    ||| c == '\u{2028}'
    ||| c == '\u{2029}'
    ||| c == '\u{202f}'
    ||| c == '\u{205f}'
    ||| c == '\u{3000}'
}

/// `char::is_ascii_whitespace`: space, tab, line feed, form feed, carriage return.
pub open spec fn is_ascii_ws(c: char) -> bool {
    c == ' ' || c == '\t' || c == '\n' || c == '\u{c}' || c == '\r'
}

/// `char::is_ascii_digit`.
pub open spec fn is_digit(c: char) -> bool {
    '0' <= c && c <= '9'
}

/// `char::is_ascii_uppercase`.
pub open spec fn is_upper(c: char) -> bool {
    'A' <= c && c <= 'Z'
}

/// `char::is_whitespace`.
pub fn char_is_ws(c: char) -> (r: bool)
    ensures
        r == is_ws(c),
{
    let u = c as u32;
    (9 <= u && u <= 13) || c == ' ' || c == '\u{85}' || c == '\u{a0}' || c == '\u{1680}'
        || (0x2000 <= u && u <= 0x200a) || c == '\u{2028}' || c == '\u{2029}' || c == '\u{202f}'
        || c == '\u{205f}' || c == '\u{3000}'
}

/// `char::is_ascii_whitespace`.
pub fn char_is_ascii_ws(c: char) -> (r: bool)
    ensures
        r == is_ascii_ws(c),
{
    c == ' ' || c == '\t' || c == '\n' || c == '\u{c}' || c == '\r'
}

/// `char::is_ascii_digit`.
pub fn char_is_digit(c: char) -> (r: bool)
    ensures
        r == is_digit(c),
{
    '0' <= c && c <= '9'
}

// ---------------------------------------------------------------------------
// Conversions between `str`/`String` and character vectors
// ---------------------------------------------------------------------------

/// The characters of a string slice, in order.
pub fn to_chars(s: &str) -> (r: Vec<char>)
    ensures
        r@ == s@,
{
    let mut r: Vec<char> = Vec::new();
    for c in it: s.chars()
        invariant
            r@ == it.seq().take(it.index() as int),
            it.seq() == s@,
    {
        r.push(c);
    }
    r
}

/// `String::push`, which appends one character to the string.
#[verifier::external_body]
fn string_push(s: &mut String, c: char)
    ensures
        final(s)@ == old(s)@.push(c),
{
    s.push(c);
}

/// The string made of the given characters.
pub fn from_chars(v: &[char]) -> (r: String)
    ensures
        r@ == v@,
{
    let mut r = String::new();
    let n = v.len();
    for i in 0..n
        invariant
            n == v@.len(),
            r@ == v@.take(i as int),
    {
        string_push(&mut r, v[i]);
        assert(v@.take(i + 1) == v@.take(i as int).push(v@[i as int]));
    }
    assert(v@.take(n as int) == v@);
    r
}

/// Whether a string has no characters.
pub fn string_is_empty(s: &String) -> (r: bool)
    ensures
        r == (s@.len() == 0),
{
    let e = String::new();
    let r = *s == e;
    assert(s@.len() == 0 ==> s@ =~= e@);
    r
}

/// A copy of the characters `v[from..to]`.
pub fn slice_chars(v: &[char], from: usize, to: usize) -> (r: Vec<char>)
    requires
        from <= to <= v@.len(),
    ensures
        r@ == v@.subrange(from as int, to as int),
{
    let mut r: Vec<char> = Vec::new();
    let mut i = from;
    while i < to
        invariant
            from <= i <= to <= v@.len(),
            r@ == v@.subrange(from as int, i as int),
        decreases to - i,
    {
        r.push(v[i]);
        i += 1;
    }
    r
}

/// Whether two character sequences are equal.
pub fn chars_eq(a: &[char], b: &[char]) -> (r: bool)
    ensures
        r == (a@ == b@),
{
    if a.len() != b.len() {
        return false;
    }
    let n = a.len();
    for i in 0..n
        invariant
            n == a@.len() == b@.len(),
            forall|j: int| 0 <= j < i ==> a@[j] == b@[j],
    {
        if a[i] != b[i] {
            return false;
        }
    }
    assert(a@ =~= b@);
    true
}

/// Whether the string's characters equal the given characters.
pub fn str_is(s: &str, lit: &[char]) -> (r: bool)
    ensures
        r == (s@ == lit@),
{
    let v = to_chars(s);
    chars_eq(v.as_slice(), lit)
}

// ---------------------------------------------------------------------------
// Searching: `find`, `starts_with`, `ends_with`, `contains`
// ---------------------------------------------------------------------------

/// `p` occurs in `s` at position `i`.
pub open spec fn matches_at(s: Seq<char>, i: int, p: Seq<char>) -> bool {
    0 <= i && i + p.len() <= s.len() && s.subrange(i, i + p.len()) == p
}

/// The first position at or after `i` where `p` occurs in `s`.
pub open spec fn find_from(s: Seq<char>, p: Seq<char>, i: int) -> Option<int>
    decreases s.len() + 1 - i,
{
    if i < 0 || i + p.len() > s.len() {
        None
    } else if matches_at(s, i, p) {
        Some(i)
    } else {
        find_from(s, p, i + 1)
    }
}

/// `str::find`: the first position where `p` occurs in `s`.
pub open spec fn find(s: Seq<char>, p: Seq<char>) -> Option<int> {
    find_from(s, p, 0)
}

/// `str::starts_with`.
pub open spec fn starts_with(s: Seq<char>, p: Seq<char>) -> bool {
    p.len() <= s.len() && s.take(p.len() as int) == p
}

/// `str::ends_with`.
pub open spec fn ends_with(s: Seq<char>, p: Seq<char>) -> bool {
    p.len() <= s.len() && s.skip(s.len() - p.len()) == p
}

/// `str::contains`.
pub open spec fn contains(s: Seq<char>, p: Seq<char>) -> bool {
    find(s, p) is Some
}

/// What `find_from` returns, stated without recursion.
pub proof fn lemma_find_from(s: Seq<char>, p: Seq<char>, i: int)
    requires
        0 <= i,
    ensures
        find_from(s, p, i) matches Some(k) ==> i <= k && matches_at(s, k, p) && forall|j: int|
            i <= j < k ==> !matches_at(s, j, p),
        find_from(s, p, i) is None ==> forall|j: int| i <= j ==> !matches_at(s, j, p),
    decreases s.len() + 1 - i,
{
    if i + p.len() > s.len() {
    } else if matches_at(s, i, p) {
    } else {
        lemma_find_from(s, p, i + 1);
        if find_from(s, p, i) is None {
            assert forall|j: int| i <= j implies !matches_at(s, j, p) by {
                if j > i {
                }
            }
        }
    }
}

/// Whether `p` occurs in `s` at position `i`.
pub fn matches_at_exec(s: &[char], i: usize, p: &[char]) -> (r: bool)
    ensures
        r == matches_at(s@, i as int, p@),
{
    if i > s.len() || p.len() > s.len() - i {
        return false;
    }
    let n = p.len();
    let slen = s.len();
    for j in 0..n
        invariant
            n == p@.len(),
            slen == s@.len(),
            i + n <= s@.len(),
            forall|k: int| 0 <= k < j ==> s@[i + k] == p@[k],
    {
        if s[i + j] != p[j] {
            assert(s@.subrange(i as int, i + n)[j as int] != p@[j as int]);
            return false;
        }
    }
    assert(s@.subrange(i as int, i + n) =~= p@);
    true
}

/// `str::find` from a starting position: the first occurrence of `p` in `s`
/// at or after `from`.
pub fn find_from_exec(s: &[char], p: &[char], from: usize) -> (r: Option<usize>)
    ensures
        r matches Some(k) ==> find_from(s@, p@, from as int) == Some(k as int),
        r is None ==> find_from(s@, p@, from as int) is None,
{
    let mut i = from;
    loop
        invariant
            from <= i,
            find_from(s@, p@, from as int) == find_from(s@, p@, i as int),
        decreases s@.len() + 1 - i,
    {
        if i > s.len() || p.len() > s.len() - i {
            return None;
        }
        if matches_at_exec(s, i, p) {
            return Some(i);
        }
        if i == s.len() {
            assert(s@.subrange(i as int, i as int) =~= p@);
        }
        i += 1;
    }
}

/// `str::contains` over characters.
pub fn contains_exec(s: &[char], p: &[char]) -> (r: bool)
    ensures
        r == contains(s@, p@),
{
    find_from_exec(s, p, 0).is_some()
}

/// `str::starts_with` over characters.
pub fn starts_with_exec(s: &[char], p: &[char]) -> (r: bool)
    ensures
        r == starts_with(s@, p@),
{
    let r = matches_at_exec(s, 0, p);
    assert(s@.subrange(0, p@.len() as int) == s@.take(p@.len() as int));
    r
}

/// `str::ends_with` over characters.
pub fn ends_with_exec(s: &[char], p: &[char]) -> (r: bool)
    ensures
        r == ends_with(s@, p@),
{
    if p.len() > s.len() {
        return false;
    }
    let i = s.len() - p.len();
    let r = matches_at_exec(s, i, p);
    assert(s@.subrange(i as int, s@.len() as int) == s@.skip(i as int));
    r
}

// ---------------------------------------------------------------------------
// Trimming
// ---------------------------------------------------------------------------

/// `str::trim_start`.
pub open spec fn trim_start(s: Seq<char>) -> Seq<char>
    decreases s.len(),
{
    if s.len() > 0 && is_ws(s[0]) {
        trim_start(s.drop_first())
    } else {
        s
    }
}

/// `str::trim_end`.
pub open spec fn trim_end(s: Seq<char>) -> Seq<char>
    decreases s.len(),
{
    if s.len() > 0 && is_ws(s.last()) {
        trim_end(s.drop_last())
    } else {
        s
    }
}

/// `str::trim`: leading and trailing Unicode whitespace removed.
pub open spec fn trim(s: Seq<char>) -> Seq<char> {
    trim_end(trim_start(s))
}

/// `str::trim_start_matches(c)` for a single character.
pub open spec fn trim_start_char(s: Seq<char>, c: char) -> Seq<char>
    decreases s.len(),
{
    if s.len() > 0 && s[0] == c {
        trim_start_char(s.drop_first(), c)
    } else {
        s
    }
}

/// `str::trim_end_matches(c)` for a single character.
pub open spec fn trim_end_char(s: Seq<char>, c: char) -> Seq<char>
    decreases s.len(),
{
    if s.len() > 0 && s.last() == c {
        trim_end_char(s.drop_last(), c)
    } else {
        s
    }
}

/// `str::trim_matches(c)` for a single character.
pub open spec fn trim_char(s: Seq<char>, c: char) -> Seq<char> {
    trim_end_char(trim_start_char(s, c), c)
}

proof fn lemma_trim_start_skip(s: Seq<char>, i: int)
    requires
        0 <= i <= s.len(),
        forall|j: int| 0 <= j < i ==> is_ws(s[j]),
    ensures
        trim_start(s) == trim_start(s.skip(i)),
    decreases i,
{
    if i > 0 {
        assert(s.drop_first().skip(i - 1) =~= s.skip(i));
        lemma_trim_start_skip(s.drop_first(), i - 1);
    } else {
        assert(s.skip(0) =~= s);
    }
}

proof fn lemma_trim_end_take(s: Seq<char>, i: int)
    requires
        0 <= i <= s.len(),
        forall|j: int| i <= j < s.len() ==> is_ws(s[j]),
    ensures
        trim_end(s) == trim_end(s.take(i)),
    decreases s.len() - i,
{
    if i < s.len() {
        assert(s.drop_last().take(i) =~= s.take(i));
        lemma_trim_end_take(s.drop_last(), i);
    } else {
        assert(s.take(i) =~= s);
    }
}

proof fn lemma_trim_start_char_skip(s: Seq<char>, c: char, i: int)
    requires
        0 <= i <= s.len(),
        forall|j: int| 0 <= j < i ==> s[j] == c,
    ensures
        trim_start_char(s, c) == trim_start_char(s.skip(i), c),
    decreases i,
{
    if i > 0 {
        assert(s.drop_first().skip(i - 1) =~= s.skip(i));
        lemma_trim_start_char_skip(s.drop_first(), c, i - 1);
    } else {
        assert(s.skip(0) =~= s);
    }
}

proof fn lemma_trim_end_char_take(s: Seq<char>, c: char, i: int)
    requires
        0 <= i <= s.len(),
        forall|j: int| i <= j < s.len() ==> s[j] == c,
    ensures
        trim_end_char(s, c) == trim_end_char(s.take(i), c),
    decreases s.len() - i,
{
    if i < s.len() {
        assert(s.drop_last().take(i) =~= s.take(i));
        lemma_trim_end_char_take(s.drop_last(), c, i);
    } else {
        assert(s.take(i) =~= s);
    }
}

/// The bounds `(start, end)` of `trim(s)` inside `s`.
pub fn trim_bounds(s: &[char]) -> (r: (usize, usize))
    ensures
        r.0 <= r.1 <= s@.len(),
        trim(s@) == s@.subrange(r.0 as int, r.1 as int),
{
    let n = s.len();
    let mut i: usize = 0;
    while i < n && char_is_ws(s[i])
        invariant
            i <= n == s@.len(),
            forall|j: int| 0 <= j < i ==> is_ws(s@[j]),
        decreases n - i,
    {
        i += 1;
    }
    proof {
        lemma_trim_start_skip(s@, i as int);
    }
    let mut k: usize = n;
    while k > i && char_is_ws(s[k - 1])
        invariant
            i <= k <= n == s@.len(),
            forall|j: int| k <= j < n ==> is_ws(s@[j]),
        decreases k,
    {
        k -= 1;
    }
    proof {
        let t = s@.skip(i as int);
        assert(trim_start(t) == t);
        lemma_trim_end_take(t, k - i);
        assert(t.take(k - i) =~= s@.subrange(i as int, k as int));
        let u = s@.subrange(i as int, k as int);
        assert(trim_end(u) == u);
    }
    (i, k)
}

/// `str::trim`.
pub fn trim_exec(s: &[char]) -> (r: Vec<char>)
    ensures
        r@ == trim(s@),
{
    let (a, b) = trim_bounds(s);
    slice_chars(s, a, b)
}

/// `str::trim_end`.
pub fn trim_end_exec(s: &[char]) -> (r: Vec<char>)
    ensures
        r@ == trim_end(s@),
{
    let n = s.len();
    let mut k: usize = n;
    while k > 0 && char_is_ws(s[k - 1])
        invariant
            k <= n == s@.len(),
            forall|j: int| k <= j < n ==> is_ws(s@[j]),
        decreases k,
    {
        k -= 1;
    }
    proof {
        lemma_trim_end_take(s@, k as int);
        let u = s@.take(k as int);
        assert(trim_end(u) == u);
        assert(u =~= s@.subrange(0, k as int));
    }
    slice_chars(s, 0, k)
}

/// `str::trim_start_matches(c)`.
pub fn trim_start_char_exec(s: &[char], c: char) -> (r: Vec<char>)
    ensures
        r@ == trim_start_char(s@, c),
{
    let n = s.len();
    let mut i: usize = 0;
    while i < n && s[i] == c
        invariant
            i <= n == s@.len(),
            forall|j: int| 0 <= j < i ==> s@[j] == c,
        decreases n - i,
    {
        i += 1;
    }
    proof {
        lemma_trim_start_char_skip(s@, c, i as int);
        assert(s@.skip(i as int) =~= s@.subrange(i as int, n as int));
    }
    slice_chars(s, i, n)
}

/// `str::trim_end_matches(c)`.
pub fn trim_end_char_exec(s: &[char], c: char) -> (r: Vec<char>)
    ensures
        r@ == trim_end_char(s@, c),
{
    let n = s.len();
    let mut k: usize = n;
    while k > 0 && s[k - 1] == c
        invariant
            k <= n == s@.len(),
            forall|j: int| k <= j < n ==> s@[j] == c,
        decreases k,
    {
        k -= 1;
    }
    proof {
        lemma_trim_end_char_take(s@, c, k as int);
        assert(s@.take(k as int) =~= s@.subrange(0, k as int));
    }
    slice_chars(s, 0, k)
}

/// `str::trim_matches(c)`.
pub fn trim_char_exec(s: &[char], c: char) -> (r: Vec<char>)
    ensures
        r@ == trim_char(s@, c),
{
    let a = trim_start_char_exec(s, c);
    trim_end_char_exec(a.as_slice(), c)
}

// ---------------------------------------------------------------------------
// Splitting
// ---------------------------------------------------------------------------

/// The part of `s` before the first occurrence of `p`: `s.split(p).next()`.
pub open spec fn before(s: Seq<char>, p: Seq<char>) -> Seq<char> {
    match find(s, p) {
        Some(i) => s.take(i),
        None => s,
    }
}

/// What precedes the first occurrence of `p` in `s`, or all of `s`.
pub fn before_exec(s: &[char], p: &[char]) -> (r: Vec<char>)
    ensures
        r@ == before(s@, p@),
{
    match find_from_exec(s, p, 0) {
        Some(i) => {
            proof {
                lemma_find_from(s@, p@, 0);
            }
            let r = slice_chars(s, 0, i);
            assert(r@ == s@.take(i as int));
            r
        },
        None => slice_chars(s, 0, s.len()),
    }
}

/// A line without its `"\r"` terminator.
pub open spec fn strip_cr(l: Seq<char>) -> Seq<char> {
    if l.len() > 0 && l.last() == '\r' {
        l.drop_last()
    } else {
        l
    }
}

/// `str::lines`: the text split at `"\n"`, a `"\r"` right before a `"\n"`
/// removed, and no empty line after a final `"\n"`.
pub open spec fn lines(s: Seq<char>) -> Seq<Seq<char>>
    decreases s.len(),
{
    if s.len() == 0 {
        seq![]
    } else {
        match find(s, seq!['\n']) {
            None => seq![s],
            Some(k) => {
                proof {
                    lemma_find_from(s, seq!['\n'], 0);
                }
                seq![strip_cr(s.take(k))] + lines(s.skip(k + 1))
            },
        }
    }
}

pub proof fn lemma_lines_len(s: Seq<char>)
    ensures
        lines(s).len() <= s.len(),
    decreases s.len(),
{
    if s.len() > 0 {
        lemma_find_from(s, seq!['\n'], 0);
        if let Some(k) = find(s, seq!['\n']) {
            lemma_lines_len(s.skip(k + 1));
        }
    }
}

/// The character sequences held by a sequence of strings.
pub open spec fn string_views(v: Seq<String>) -> Seq<Seq<char>> {
    v.map_values(|s: String| s@)
}

/// The characters of an optional string.
pub open spec fn opt_view(o: Option<String>) -> Option<Seq<char>> {
    match o {
        Some(s) => Some(s@),
        None => None,
    }
}

/// The strings made of the given character sequences.
pub fn strings_of(v: &Vec<Vec<char>>) -> (r: Vec<String>)
    ensures
        string_views(r@) == views(v@),
{
    let mut out: Vec<String> = Vec::new();
    let n = v.len();
    for i in 0..n
        invariant
            n == v@.len(),
            string_views(out@) == views(v@).take(i as int),
    {
        let s = from_chars(v[i].as_slice());
        let ghost before_push = string_views(out@);
        out.push(s);
        assert(string_views(out@) =~= before_push.push(v@[i as int]@));
        assert(views(v@).take(i + 1) =~= views(v@).take(i as int).push(v@[i as int]@));
    }
    assert(views(v@).take(n as int) =~= views(v@));
    out
}

/// The character sequences held by a vector of character vectors.
pub open spec fn views(v: Seq<Vec<char>>) -> Seq<Seq<char>> {
    v.map_values(|l: Vec<char>| l@)
}

/// `str::lines`.
pub fn lines_exec(s: &[char]) -> (r: Vec<Vec<char>>)
    ensures
        views(r@) == lines(s@),
{
    let nl = vec!['\n'];
    let mut out: Vec<Vec<char>> = Vec::new();
    let mut pos: usize = 0;
    let n = s.len();
    assert(views(out@) =~= seq![]);
    assert(s@.skip(0) =~= s@);
    loop
        invariant
            pos <= n == s@.len(),
            nl@ == seq!['\n'],
            lines(s@) == views(out@) + lines(s@.skip(pos as int)),
        decreases n - pos,
    {
        if pos == n {
            assert(s@.skip(pos as int).len() == 0);
            assert(views(out@) + seq![] =~= views(out@));
            return out;
        }
        let ghost rest = s@.skip(pos as int);
        match find_from_exec(s, nl.as_slice(), pos) {
            None => {
                proof {
                    lemma_find_from(s@, nl@, pos as int);
                    lemma_find_from(rest, nl@, 0);
                    if let Some(k) = find(rest, nl@) {
                        assert(rest.subrange(k, k + 1) =~= s@.subrange(pos + k, pos + k + 1));
                        assert(matches_at(s@, pos + k, nl@));
                    }
                }
                let line = slice_chars(s, pos, n);
                assert(line@ =~= rest);
                let ghost before_push = views(out@);
                out.push(line);
                assert(views(out@) =~= before_push.push(line@));
                assert(views(out@) =~= before_push + lines(rest));
                return out;
            },
            Some(k) => {
                proof {
                    lemma_find_from(s@, nl@, pos as int);
                    lemma_find_from(rest, nl@, 0);
                    let kk = (k - pos) as int;
                    assert(rest.subrange(kk, kk + 1) =~= s@.subrange(k as int, k + 1));
                    assert(matches_at(rest, kk, nl@));
                    assert forall|j: int| 0 <= j < kk implies !matches_at(rest, j, nl@) by {
                        assert(rest.subrange(j, j + 1) =~= s@.subrange(pos + j, pos + j + 1));
                        assert(!matches_at(s@, pos + j, nl@));
                    }
                    if find(rest, nl@) != Some(kk) {
                        let k2 = find(rest, nl@)->0;
                        assert(k2 < kk || k2 > kk);
                    }
                    assert(rest.skip(kk + 1) =~= s@.skip(k + 1));
                }
                let mut line = slice_chars(s, pos, k);
                if line.len() > 0 && line[line.len() - 1] == '\r' {
                    line.pop();
                }
                assert(line@ =~= strip_cr(rest.take(k - pos)));
                let ghost before_push = views(out@);
                out.push(line);
                assert(views(out@) =~= before_push.push(line@));
                assert(lines(rest) == seq![line@] + lines(s@.skip(k + 1)));
                assert(before_push + lines(rest) =~= views(out@) + lines(s@.skip(k + 1)));
                pos = k + 1;
            },
        }
    }
}

} // verus!

verus! {

// ---------------------------------------------------------------------------
// split_whitespace and joining lines
// ---------------------------------------------------------------------------

/// The longest prefix of `s` without whitespace.
pub open spec fn word_prefix(s: Seq<char>) -> Seq<char>
    decreases s.len(),
{
    if s.len() == 0 || is_ws(s[0]) {
        seq![]
    } else {
        seq![s[0]] + word_prefix(s.drop_first())
    }
}

/// `str::split_whitespace`: the maximal runs of non-whitespace characters.
pub open spec fn words(s: Seq<char>) -> Seq<Seq<char>>
    decreases s.len(),
{
    let t = trim_start(s);
    if t.len() == 0 {
        seq![]
    } else {
        proof {
            lemma_trim_start_len(s);
            lemma_word_prefix(t);
        }
        seq![word_prefix(t)] + words(t.skip(word_prefix(t).len() as int))
    }
}

pub proof fn lemma_trim_start_len(s: Seq<char>)
    ensures
        trim_start(s).len() <= s.len(),
        trim_start(s).len() > 0 ==> !is_ws(trim_start(s)[0]),
        exists|i: int| 0 <= i <= s.len() && trim_start(s) == s.skip(i),
    decreases s.len(),
{
    if s.len() > 0 && is_ws(s[0]) {
        lemma_trim_start_len(s.drop_first());
        let i = choose|i: int|
            0 <= i <= s.drop_first().len() && trim_start(s.drop_first()) == s.drop_first().skip(i);
        assert(s.drop_first().skip(i) =~= s.skip(i + 1));
    } else {
        assert(s.skip(0) =~= s);
    }
}

pub proof fn lemma_word_prefix(s: Seq<char>)
    ensures
        word_prefix(s).len() <= s.len(),
        s.len() > 0 && !is_ws(s[0]) ==> word_prefix(s).len() > 0,
        word_prefix(s) == s.take(word_prefix(s).len() as int),
        forall|j: int| 0 <= j < word_prefix(s).len() ==> !is_ws(s[j]),
        word_prefix(s).len() < s.len() ==> is_ws(s[word_prefix(s).len() as int]),
    decreases s.len(),
{
    if s.len() == 0 || is_ws(s[0]) {
        assert(s.take(0) =~= seq![]);
    } else {
        lemma_word_prefix(s.drop_first());
        let w = word_prefix(s.drop_first());
        assert(word_prefix(s) == seq![s[0]] + w);
        assert(s.take(w.len() as int + 1) =~= seq![s[0]] + s.drop_first().take(w.len() as int));
        assert forall|j: int| 0 <= j < word_prefix(s).len() implies !is_ws(s[j]) by {
            if j > 0 {
                assert(s[j] == s.drop_first()[j - 1]);
            }
        }
    }
}

/// `str::split_whitespace`.
pub fn split_whitespace_exec(s: &[char]) -> (r: Vec<Vec<char>>)
    ensures
        views(r@) == words(s@),
{
    let mut out: Vec<Vec<char>> = Vec::new();
    let n = s.len();
    let mut pos: usize = 0;
    assert(s@.skip(0) =~= s@);
    assert(views(out@) =~= seq![]);
    loop
        invariant
            pos <= n == s@.len(),
            words(s@) == views(out@) + words(s@.skip(pos as int)),
        decreases n - pos,
    {
        let ghost rest = s@.skip(pos as int);
        let mut i = pos;
        while i < n && char_is_ws(s[i])
            invariant
                pos <= i <= n == s@.len(),
                forall|j: int| pos <= j < i ==> is_ws(s@[j]),
            decreases n - i,
        {
            i += 1;
        }
        proof {
            lemma_trim_start_skip(rest, i - pos);
            assert(rest.skip(i - pos) =~= s@.skip(i as int));
        }
        if i == n {
            assert(s@.skip(i as int).len() == 0);
            assert(trim_start(s@.skip(i as int)) == s@.skip(i as int));
            assert(words(rest) == Seq::<Seq<char>>::empty());
            assert(views(out@) + seq![] =~= views(out@));
            return out;
        }
        let ghost t = s@.skip(i as int);
        proof {
            assert(trim_start(t) == t);
            assert(trim_start(rest) == t);
        }
        let mut k = i;
        while k < n && !char_is_ws(s[k])
            invariant
                i <= k <= n == s@.len(),
                forall|j: int| i <= j < k ==> !is_ws(s@[j]),
            decreases n - k,
        {
            k += 1;
        }
        proof {
            lemma_word_prefix(t);
            let w = word_prefix(t);
            if w.len() < k - i {
                assert(is_ws(t[w.len() as int]));
                assert(t[w.len() as int] == s@[i + w.len()]);
            }
            if w.len() > k - i {
                assert(!is_ws(t[k - i]));
                assert(t[k - i] == s@[k as int]);
            }
            assert(w.len() == k - i);
            assert(t.skip(k - i) =~= s@.skip(k as int));
            assert(w =~= s@.subrange(i as int, k as int));
        }
        let word = slice_chars(s, i, k);
        let ghost before_push = views(out@);
        out.push(word);
        assert(views(out@) =~= before_push.push(word@));
        assert(words(rest) == seq![word@] + words(s@.skip(k as int)));
        assert(before_push + words(rest) =~= views(out@) + words(s@.skip(k as int)));
        pos = k;
    }
}

/// Lines joined with `"\n"` between them.
pub open spec fn join_lines(ls: Seq<Seq<char>>) -> Seq<char>
    decreases ls.len(),
{
    if ls.len() == 0 {
        seq![]
    } else if ls.len() == 1 {
        ls[0]
    } else {
        join_lines(ls.drop_last()) + seq!['\n'] + ls.last()
    }
}

/// `[&str]::join("\n")`.
pub fn join_lines_exec(ls: &Vec<Vec<char>>) -> (r: Vec<char>)
    ensures
        r@ == join_lines(views(ls@)),
{
    let mut out: Vec<char> = Vec::new();
    let n = ls.len();
    assert(views(ls@).take(0) =~= seq![]);
    for i in 0..n
        invariant
            n == ls@.len(),
            out@ == join_lines(views(ls@).take(i as int)),
    {
        let ghost t = views(ls@).take(i + 1);
        assert(t.drop_last() =~= views(ls@).take(i as int));
        assert(t.last() == ls@[i as int]@);
        if i > 0 {
            out.push('\n');
        } else {
            assert(t =~= seq![ls@[0]@]);
        }
        let line = &ls[i];
        let m = line.len();
        let ghost start = out@;
        for j in 0..m
            invariant
                m == line@.len(),
                out@ == start + line@.take(j as int),
        {
            out.push(line[j]);
            assert(line@.take(j + 1) =~= line@.take(j as int).push(line@[j as int]));
        }
        assert(line@.take(m as int) =~= line@);
        if i == 0 {
            assert(out@ =~= line@);
        }
    }
    assert(views(ls@).take(n as int) =~= views(ls@));
    out
}


/// The characters of the lines plus one line end each.
pub open spec fn lines_total(ls: Seq<Seq<char>>) -> int
    decreases ls.len(),
{
    if ls.len() == 0 {
        0
    } else {
        lines_total(ls.drop_last()) + ls.last().len() + 1
    }
}

pub proof fn lemma_lines_total_concat(x: Seq<Seq<char>>, y: Seq<Seq<char>>)
    ensures
        lines_total(x + y) == lines_total(x) + lines_total(y),
    decreases y.len(),
{
    if y.len() == 0 {
        assert(x + y =~= x);
    } else {
        assert((x + y).drop_last() =~= x + y.drop_last());
        lemma_lines_total_concat(x, y.drop_last());
    }
}

pub proof fn lemma_lines_total_lower(ls: Seq<Seq<char>>)
    ensures
        lines_total(ls) >= ls.len(),
    decreases ls.len(),
{
    if ls.len() > 0 {
        lemma_lines_total_lower(ls.drop_last());
    }
}

pub proof fn lemma_join_lines_len(ls: Seq<Seq<char>>)
    ensures
        ls.len() > 0 ==> join_lines(ls).len() + 1 == lines_total(ls),
        ls.len() == 0 ==> join_lines(ls).len() == 0,
    decreases ls.len(),
{
    if ls.len() > 1 {
        lemma_join_lines_len(ls.drop_last());
        assert(join_lines(ls) == join_lines(ls.drop_last()) + seq!['\n'] + ls.last());
        assert(lines_total(ls) == lines_total(ls.drop_last()) + ls.last().len() + 1);
    } else if ls.len() == 1 {
        assert(ls.drop_last().len() == 0);
        assert(lines_total(ls.drop_last()) == 0);
        assert(lines_total(ls) == lines_total(ls.drop_last()) + ls.last().len() + 1);
        assert(join_lines(ls) == ls[0]);
    }
}

pub proof fn lemma_lines_total_bound(s: Seq<char>)
    ensures
        lines_total(lines(s)) <= s.len() + 1,
    decreases s.len(),
{
    if s.len() > 0 {
        lemma_find_from(s, seq!['\n'], 0);
        match find(s, seq!['\n']) {
            None => {
                let one = seq![s];
                assert(one.drop_last().len() == 0);
                assert(lines_total(one.drop_last()) == 0);
                assert(lines_total(one) == s.len() + 1);
            },
            Some(k) => {
                lemma_lines_total_bound(s.skip(k + 1));
                let first = seq![strip_cr(s.take(k))];
                lemma_lines_total_concat(first, lines(s.skip(k + 1)));
                assert(first.drop_last().len() == 0);
                assert(lines_total(first.drop_last()) == 0);
                assert(lines_total(first) == strip_cr(s.take(k)).len() + 1);
                assert(strip_cr(s.take(k)).len() <= k);
                assert(s.skip(k + 1).len() == s.len() - k - 1);
            },
        }
    }
}

/// Lines `a..b` of a text, joined again, are not longer than what is left
/// of the text after `a` line ends.
pub proof fn lemma_join_within(s: Seq<char>, a: int, b: int)
    requires
        0 <= a <= b <= lines(s).len(),
    ensures
        a + 1 + join_lines(lines(s).subrange(a, b)).len() <= s.len() + 1,
{
    let ls = lines(s);
    lemma_lines_len(s);
    lemma_lines_total_bound(s);
    assert(ls =~= ls.take(a) + ls.subrange(a, b) + ls.skip(b));
    lemma_lines_total_concat(ls.take(a) + ls.subrange(a, b), ls.skip(b));
    lemma_lines_total_concat(ls.take(a), ls.subrange(a, b));
    lemma_lines_total_lower(ls.take(a));
    lemma_lines_total_lower(ls.skip(b));
    lemma_join_lines_len(ls.subrange(a, b));
}


/// Strings joined with a separator character between them.
pub open spec fn join_with(ls: Seq<Seq<char>>, sep: char) -> Seq<char>
    decreases ls.len(),
{
    if ls.len() == 0 {
        seq![]
    } else if ls.len() == 1 {
        ls[0]
    } else {
        join_with(ls.drop_last(), sep) + seq![sep] + ls.last()
    }
}

/// `[String]::join` with a one-character separator.
pub fn join_strings_with(ls: &Vec<String>, sep: char) -> (r: String)
    ensures
        r@ == join_with(string_views(ls@), sep),
{
    let mut out: Vec<char> = Vec::new();
    let n = ls.len();
    assert(string_views(ls@).take(0) =~= seq![]);
    for i in 0..n
        invariant
            n == ls@.len(),
            out@ == join_with(string_views(ls@).take(i as int), sep),
    {
        let ghost t = string_views(ls@).take(i + 1);
        assert(t.drop_last() =~= string_views(ls@).take(i as int));
        assert(t.last() == ls@[i as int]@);
        if i > 0 {
            out.push(sep);
        } else {
            assert(t =~= seq![ls@[0]@]);
        }
        let line = to_chars(ls[i].as_str());
        let m = line.len();
        let ghost start = out@;
        for j in 0..m
            invariant
                m == line@.len(),
                out@ == start + line@.take(j as int),
        {
            out.push(line[j]);
            assert(line@.take(j + 1) =~= line@.take(j as int).push(line@[j as int]));
        }
        assert(line@.take(m as int) =~= line@);
        if i == 0 {
            assert(out@ =~= line@);
        }
    }
    assert(string_views(ls@).take(n as int) =~= string_views(ls@));
    from_chars(out.as_slice())
}

/// `char::to_ascii_lowercase`.
pub open spec fn ascii_lower(c: char) -> char {
    if is_upper(c) {
        ((c as u32 + 32) as u8) as char
    } else {
        c
    }
}

/// `str::to_ascii_lowercase`.
pub open spec fn ascii_lower_seq(s: Seq<char>) -> Seq<char> {
    s.map_values(|c: char| ascii_lower(c))
}

/// `str::to_ascii_lowercase` over characters.
pub fn to_ascii_lowercase(s: &[char]) -> (r: Vec<char>)
    ensures
        r@ == ascii_lower_seq(s@),
{
    let mut out: Vec<char> = Vec::new();
    let n = s.len();
    for i in 0..n
        invariant
            n == s@.len(),
            out@ == ascii_lower_seq(s@.take(i as int)),
    {
        let c = s[i];
        let l = if 'A' <= c && c <= 'Z' {
            ((c as u32 + 32) as u8) as char
        } else {
            c
        };
        out.push(l);
        assert(ascii_lower_seq(s@.take(i + 1)) =~= ascii_lower_seq(s@.take(i as int)).push(
            ascii_lower(s@[i as int]),
        ));
    }
    assert(s@.take(n as int) =~= s@);
    out
}


/// The decimal digits of a number, most significant first.
pub open spec fn decimal(n: nat) -> Seq<char>
    decreases n,
{
    if n < 10 {
        seq![((n + 48) as u8) as char]
    } else {
        decimal(n / 10) + seq![((n % 10 + 48) as u8) as char]
    }
}

fn push_decimal(n: usize, out: &mut Vec<char>)
    ensures
        final(out)@ == old(out)@ + decimal(n as nat),
    decreases n,
{
    if n >= 10 {
        push_decimal(n / 10, out);
    }
    let d = (n % 10) as u8;
    out.push((d + 48) as char);
    assert(final(out)@ =~= old(out)@ + decimal(n as nat));
}

/// The decimal text of a number, as `{}` formats it.
pub fn usize_to_decimal(n: usize) -> (r: String)
    ensures
        r@ == decimal(n as nat),
{
    let mut out: Vec<char> = Vec::new();
    push_decimal(n, &mut out);
    assert(out@ =~= decimal(n as nat));
    from_chars(out.as_slice())
}

} // verus!
