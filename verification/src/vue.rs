//! Vue single-file components: splitting a file into its top-level blocks and
//! reading the elements, components, directives and interpolations of a
//! template block.
use vstd::prelude::*;

use crate::model::{Span, TemplateNodeFact, TemplateNodeView, template_views};
use crate::text::{
    before, before_exec, contains, contains_exec, ends_with, ends_with_exec, find_from,
    find, find_from_exec, from_chars, is_upper, join_lines, join_lines_exec, lemma_find_from,
    lemma_join_within, lemma_lines_len, lines, lines_exec, opt_view, slice_chars, starts_with, starts_with_exec,
    string_views, strings_of, split_whitespace_exec, to_chars, trim, trim_char, trim_char_exec,
    trim_end, trim_end_char, trim_end_exec, trim_end_char_exec, trim_exec, trim_start_char,
    trim_start_char_exec, views, words, is_ws, trim_start, matches_at,
};

verus! {

// ---------------------------------------------------------------------------
// Small predicates
// ---------------------------------------------------------------------------

/// A tag name is a component when it holds a `'-'` or starts with an ASCII
/// capital letter.
pub open spec fn is_component_name_spec(name: Seq<char>) -> bool {
    contains(name, seq!['-']) || (name.len() > 0 && is_upper(name[0]))
}

/// Whether a tag names a component rather than an HTML element.
pub fn is_component_name(name: &str) -> (r: bool)
    ensures
        r == is_component_name_spec(name@),
{
    let name_chars = to_chars(name);
    let name = name_chars.as_slice();
    let dash = vec!['-'];
    assert(dash@ == seq!['-']);
    contains_exec(name, dash.as_slice()) || (name.len() > 0 && 'A' <= name[0] && name[0] <= 'Z')
}

proof fn lemma_starts_with_one(s: Seq<char>, c: char)
    ensures
        starts_with(s, seq![c]) <==> (s.len() > 0 && s[0] == c),
{
    if s.len() > 0 {
        assert(s.take(1) =~= seq![s[0]]);
        if s[0] == c {
            assert(seq![s[0]] =~= seq![c]);
        } else if s.take(1) == seq![c] {
            assert(s.take(1)[0] == c);
        }
    }
}

/// An attribute is a directive when it starts with `v-`, `:`, `@` or `#`.
pub open spec fn is_template_directive_spec(attr: Seq<char>) -> bool {
    starts_with(attr, seq!['v', '-']) || starts_with(attr, seq![':']) || starts_with(
        attr,
        seq!['@'],
    ) || starts_with(attr, seq!['#'])
}

/// Whether a template attribute is a Vue directive.
pub fn is_template_directive(attr: &str) -> (r: bool)
    ensures
        r == is_template_directive_spec(attr@),
{
    let attr_chars = to_chars(attr);
    let attr = attr_chars.as_slice();
    proof {
        lemma_starts_with_one(attr@, ':');
        lemma_starts_with_one(attr@, '@');
        lemma_starts_with_one(attr@, '#');
        assert(starts_with(attr@, seq!['v', '-']) <==> (attr@.len() > 1 && attr@[0] == 'v'
            && attr@[1] == '-')) by {
            if attr@.len() > 1 {
                assert(attr@.take(2) =~= seq![attr@[0], attr@[1]]);
                if attr@[0] == 'v' && attr@[1] == '-' {
                    assert(seq![attr@[0], attr@[1]] =~= seq!['v', '-']);
                } else if attr@.take(2) == seq!['v', '-'] {
                    assert(attr@.take(2)[0] == 'v');
                    assert(attr@.take(2)[1] == '-');
                }
            }
        }
    }
    (attr.len() > 1 && attr[0] == 'v' && attr[1] == '-') || (attr.len() > 0 && (attr[0] == ':'
        || attr[0] == '@' || attr[0] == '#'))
}

// ---------------------------------------------------------------------------
// Interpolations
// ---------------------------------------------------------------------------

/// The trimmed, non-empty `{{ ... }}` expressions of a line, from position
/// `cursor` on.
pub open spec fn interpolations_from(line: Seq<char>, cursor: int) -> Seq<Seq<char>>
    decreases line.len() + 1 - cursor,
{
    if cursor < 0 || cursor > line.len() {
        seq![]
    } else {
        match find_from(line, seq!['{', '{'], cursor) {
            None => seq![],
            Some(s) => {
                let start = s + 2;
                match find_from(line, seq!['}', '}'], start) {
                    None => seq![],
                    Some(end) => {
                        proof {
                            lemma_find_from(line, seq!['{', '{'], cursor);
                            lemma_find_from(line, seq!['}', '}'], start);
                        }
                        let expr = trim(line.subrange(start, end));
                        (if expr.len() > 0 {
                            seq![expr]
                        } else {
                            seq![]
                        }) + interpolations_from(line, end + 2)
                    },
                }
            },
        }
    }
}

/// The trimmed, non-empty `{{ ... }}` expressions of a line.
pub open spec fn interpolations(line: Seq<char>) -> Seq<Seq<char>> {
    interpolations_from(line, 0)
}

/// The `{{ ... }}` expressions of a line, trimmed, the empty ones left out.
pub fn extract_interpolations(line: &str) -> (r: Vec<String>)
    ensures
        string_views(r@) == interpolations(line@),
        forall|i: int| 0 <= i < r@.len() ==> r@[i]@.len() > 0,
{
    let line_chars = to_chars(line);
    let line = line_chars.as_slice();
    let open = vec!['{', '{'];
    let close = vec!['}', '}'];
    assert(open@ == seq!['{', '{']);
    assert(close@ == seq!['}', '}']);
    let mut out: Vec<Vec<char>> = Vec::new();
    let mut cursor: usize = 0;
    let n = line.len();
    assert(views(out@) =~= seq![]);
    loop
        invariant
            n == line@.len(),
            cursor <= line@.len(),
            open@ == seq!['{', '{'],
            close@ == seq!['}', '}'],
            interpolations(line@) == views(out@) + interpolations_from(line@, cursor as int),
            forall|i: int| 0 <= i < out@.len() ==> out@[i]@.len() > 0,
        ensures
            interpolations(line@) == views(out@),
            forall|i: int| 0 <= i < out@.len() ==> out@[i]@.len() > 0,
        decreases line@.len() + 1 - cursor,
    {
        let start_rel = match find_from_exec(line, open.as_slice(), cursor) {
            Some(s) => s,
            None => {
                assert(views(out@) + seq![] =~= views(out@));
                break ;
            },
        };
        proof {
            lemma_find_from(line@, open@, cursor as int);
        }
        let start = start_rel + 2;
        let end = match find_from_exec(line, close.as_slice(), start) {
            Some(e) => e,
            None => {
                assert(views(out@) + seq![] =~= views(out@));
                break ;
            },
        };
        proof {
            lemma_find_from(line@, close@, start as int);
        }
        let piece = slice_chars(line, start, end);
        let expr = trim_exec(piece.as_slice());
        let ghost before_push = views(out@);
        if expr.len() > 0 {
            out.push(expr);
            assert(views(out@) =~= before_push + seq![trim(line@.subrange(start as int, end as int))]);
            assert(out@[out@.len() - 1]@.len() > 0);
        } else {
            assert(before_push + seq![] =~= before_push);
        }
        assert(views(out@) + interpolations_from(line@, end + 2) =~= before_push + interpolations_from(
            line@,
            cursor as int,
        ));
        cursor = end + 2;
    }
    let r = strings_of(&out);
    assert forall|i: int| 0 <= i < r@.len() implies r@[i]@.len() > 0 by {
        assert(string_views(r@)[i] == views(out@)[i]);
    }
    r
}

// ---------------------------------------------------------------------------
// Template tags
// ---------------------------------------------------------------------------

/// An opening or self-closing template tag.
#[derive(Debug)]
pub struct ParsedTemplateTag {
    pub name: String,
    pub directives: Vec<String>,
    pub attributes: Vec<String>,
    pub self_closing: bool,
}

pub struct TagView {
    pub name: Seq<char>,
    pub directives: Seq<Seq<char>>,
    pub attributes: Seq<Seq<char>>,
    pub self_closing: bool,
}

impl View for ParsedTemplateTag {
    type V = TagView;

    open spec fn view(&self) -> TagView {
        TagView {
            name: self.name@,
            directives: string_views(self.directives@),
            attributes: string_views(self.attributes@),
            self_closing: self.self_closing,
        }
    }
}

/// The text between `<` and `>` (and a closing `/`), trimmed.
pub open spec fn tag_inner(t: Seq<char>) -> Seq<char> {
    trim(trim_end_char(trim_end_char(trim_start_char(trim(t), '<'), '>'), '/'))
}

/// The name of an attribute token: what precedes `=`, a trailing `/` removed,
/// trimmed.
pub open spec fn attr_name(token: Seq<char>) -> Seq<char> {
    trim(before(trim_end_char(token, '/'), seq!['=']))
}

/// The attribute names of the tokens, split into directives and other
/// attributes; empty names are left out.
pub open spec fn split_attrs(tokens: Seq<Seq<char>>) -> (Seq<Seq<char>>, Seq<Seq<char>>)
    decreases tokens.len(),
{
    if tokens.len() == 0 {
        (seq![], seq![])
    } else {
        let (d, a) = split_attrs(tokens.drop_last());
        let x = attr_name(tokens.last());
        if x.len() == 0 {
            (d, a)
        } else if is_template_directive_spec(x) {
            (d.push(x), a)
        } else {
            (d, a.push(x))
        }
    }
}

/// What `parse_template_tag` reads from a tag's text.
pub open spec fn parse_template_tag_spec(t: Seq<char>) -> Option<TagView> {
    let inner = tag_inner(t);
    let ws = words(inner);
    if inner.len() == 0 || ws.len() == 0 {
        None
    } else {
        let name = trim_char(ws[0], '/');
        if name.len() == 0 {
            None
        } else {
            let (d, a) = split_attrs(ws.drop_first());
            Some(
                TagView {
                    name,
                    directives: d,
                    attributes: a,
                    self_closing: ends_with(trim_end(t), seq!['/', '>']),
                },
            )
        }
    }
}

/// Directives are non-empty directive names; attributes are non-empty
/// non-directive names.
pub proof fn lemma_split_attrs(tokens: Seq<Seq<char>>)
    ensures
        forall|i: int|
            0 <= i < split_attrs(tokens).0.len() ==> split_attrs(tokens).0[i].len() > 0
                && is_template_directive_spec(#[trigger] split_attrs(tokens).0[i]),
        forall|i: int|
            0 <= i < split_attrs(tokens).1.len() ==> split_attrs(tokens).1[i].len() > 0
                && !is_template_directive_spec(#[trigger] split_attrs(tokens).1[i]),
    decreases tokens.len(),
{
    if tokens.len() > 0 {
        lemma_split_attrs(tokens.drop_last());
        let (d, a) = split_attrs(tokens.drop_last());
        let x = attr_name(tokens.last());
        let (d2, a2) = split_attrs(tokens);
        if x.len() == 0 {
        } else if is_template_directive_spec(x) {
            assert(d2 == d.push(x));
            assert forall|i: int| 0 <= i < d2.len() implies d2[i].len() > 0
                && is_template_directive_spec(#[trigger] d2[i]) by {
                if i < d.len() {
                    assert(d2[i] == d[i]);
                }
            }
        } else {
            assert(a2 == a.push(x));
            assert forall|i: int| 0 <= i < a2.len() implies a2[i].len() > 0
                && !is_template_directive_spec(#[trigger] a2[i]) by {
                if i < a.len() {
                    assert(a2[i] == a[i]);
                }
            }
        }
    }
}

/// Reads the name, directives and attributes of a template tag such as
/// `<my-item v-for="x in xs" :key="x" class="row" />`.
pub fn parse_template_tag(tag_text: &str) -> (r: Option<ParsedTemplateTag>)
    ensures
        match r {
            Some(t) => parse_template_tag_spec(tag_text@) == Some(t@),
            None => parse_template_tag_spec(tag_text@) is None,
        },
        r matches Some(t) ==> t@.name.len() > 0,
        r matches Some(t) ==> forall|i: int|
            0 <= i < t@.directives.len() ==> is_template_directive_spec(#[trigger] t@.directives[i]),
        r matches Some(t) ==> forall|i: int|
            0 <= i < t@.attributes.len() ==> !is_template_directive_spec(
                #[trigger] t@.attributes[i],
            ),
{
    let tag_text_chars = to_chars(tag_text);
    let tag_text = tag_text_chars.as_slice();
    let t0 = trim_exec(tag_text);
    let t1 = trim_start_char_exec(t0.as_slice(), '<');
    let t2 = trim_end_char_exec(t1.as_slice(), '>');
    let t3 = trim_end_char_exec(t2.as_slice(), '/');
    let inner = trim_exec(t3.as_slice());
    if inner.len() == 0 {
        return None;
    }
    let parts = split_whitespace_exec(inner.as_slice());
    if parts.len() == 0 {
        return None;
    }
    let name = trim_char_exec(parts[0].as_slice(), '/');
    if name.len() == 0 {
        return None;
    }
    let mut directives: Vec<Vec<char>> = Vec::new();
    let mut attributes: Vec<Vec<char>> = Vec::new();
    let eq = vec!['='];
    assert(eq@ == seq!['=']);
    let n = parts.len();
    let ghost tokens = views(parts@).drop_first();
    assert(tokens.take(0) =~= seq![]);
    for i in 1..n
        invariant
            n == parts@.len(),
            eq@ == seq!['='],
            tokens == views(parts@).drop_first(),
            (views(directives@), views(attributes@)) == split_attrs(tokens.take(i - 1)),
    {
        let ghost pre = tokens.take(i - 1);
        let ghost next = tokens.take(i as int);
        assert(next.drop_last() =~= pre);
        assert(next.last() == parts@[i as int]@);
        let a0 = trim_end_char_exec(parts[i].as_slice(), '/');
        let a1 = before_exec(a0.as_slice(), eq.as_slice());
        let attr = trim_exec(a1.as_slice());
        if attr.len() == 0 {
        } else if is_template_directive(from_chars(attr.as_slice()).as_str()) {
            let ghost before_push = views(directives@);
            directives.push(attr);
            assert(views(directives@) =~= before_push.push(attr_name(next.last())));
        } else {
            let ghost before_push = views(attributes@);
            attributes.push(attr);
            assert(views(attributes@) =~= before_push.push(attr_name(next.last())));
        }
    }
    if n >= 1 {
        assert(tokens.take(n - 1) =~= tokens);
    }
    let t_end = trim_end_exec(tag_text);
    let close = vec!['/', '>'];
    assert(close@ == seq!['/', '>']);
    let self_closing = ends_with_exec(t_end.as_slice(), close.as_slice());
    proof {
        lemma_split_attrs(tokens);
    }
    Some(
        ParsedTemplateTag {
            name: from_chars(name.as_slice()),
            directives: strings_of(&directives),
            attributes: strings_of(&attributes),
            self_closing,
        },
    )
}

// ---------------------------------------------------------------------------
// Template blocks
// ---------------------------------------------------------------------------

/// What the template analysis reports for a tag at a given depth and line.
pub open spec fn element_view(t: TagView, depth: int, line_no: int) -> TemplateNodeView {
    TemplateNodeView {
        kind: if is_component_name_spec(t.name) {
            seq!['c', 'o', 'm', 'p', 'o', 'n', 'e', 'n', 't']
        } else {
            seq!['e', 'l', 'e', 'm', 'e', 'n', 't']
        },
        name: Some(t.name),
        directives: t.directives,
        attributes: t.attributes,
        expression: None,
        depth: depth as usize,
        span: Span { start_line: line_no as usize, end_line: line_no as usize },
    }
}

/// What the template analysis reports for an interpolation.
pub open spec fn interpolation_view(expr: Seq<char>, depth: int, line_no: int) -> TemplateNodeView {
    TemplateNodeView {
        kind: seq!['i', 'n', 't', 'e', 'r', 'p', 'o', 'l', 'a', 't', 'i', 'o', 'n'],
        name: None,
        directives: seq![],
        attributes: seq![],
        expression: Some(expr),
        depth: depth as usize,
        span: Span { start_line: line_no as usize, end_line: line_no as usize },
    }
}

/// The tags of a line from position `cursor` on, with the nesting depth
/// before them: the nodes they report and the depth after them. A closing
/// tag lowers the depth (not below 0), comments and `<!...>` are skipped, and
/// an opening tag that is not self-closing raises it.
pub open spec fn scan_tags(line: Seq<char>, cursor: int, depth: int, line_no: int) -> (
    Seq<TemplateNodeView>,
    int,
)
    decreases line.len() + 1 - cursor,
{
    if cursor < 0 || cursor > line.len() {
        (seq![], depth)
    } else {
        match find_from(line, seq!['<'], cursor) {
            None => (seq![], depth),
            Some(st) => match find_from(line, seq!['>'], st) {
                None => (seq![], depth),
                Some(e) => {
                    proof {
                        lemma_find_from(line, seq!['<'], cursor);
                        lemma_find_from(line, seq!['>'], st);
                    }
                    let tag = line.subrange(st, e + 1);
                    let next = e + 1;
                    if starts_with(tag, seq!['<', '/']) {
                        scan_tags(
                            line,
                            next,
                            if depth > 0 {
                                depth - 1
                            } else {
                                0
                            },
                            line_no,
                        )
                    } else if starts_with(tag, seq!['<', '!']) {
                        scan_tags(line, next, depth, line_no)
                    } else {
                        match parse_template_tag_spec(tag) {
                            None => scan_tags(line, next, depth, line_no),
                            Some(t) => {
                                let rest = scan_tags(
                                    line,
                                    next,
                                    if t.self_closing {
                                        depth
                                    } else {
                                        depth + 1
                                    },
                                    line_no,
                                );
                                (seq![element_view(t, depth, line_no)] + rest.0, rest.1)
                            },
                        }
                    }
                },
            },
        }
    }
}

/// The interpolation nodes of a line.
pub open spec fn interpolation_views(exprs: Seq<Seq<char>>, depth: int, line_no: int) -> Seq<
    TemplateNodeView,
> {
    exprs.map_values(|e: Seq<char>| interpolation_view(e, depth, line_no))
}

/// The template nodes of the lines from index `i` on, the depth before them
/// being `depth` and line `i` being numbered `first_line + i`.
pub open spec fn scan_lines(ls: Seq<Seq<char>>, i: int, depth: int, first_line: int) -> Seq<
    TemplateNodeView,
>
    decreases ls.len() - i,
{
    if i < 0 || i >= ls.len() {
        seq![]
    } else if trim(ls[i]).len() == 0 {
        scan_lines(ls, i + 1, depth, first_line)
    } else {
        let no = first_line + i;
        let tags = scan_tags(ls[i], 0, depth, no);
        interpolation_views(interpolations(ls[i]), depth, no) + tags.0 + scan_lines(
            ls,
            i + 1,
            tags.1,
            first_line,
        )
    }
}

/// A top-level block of a Vue file: `<template>`, `<script>` or `<style>`.
#[derive(Debug)]
pub struct VueBlock {
    pub tag: String,
    pub lang: Option<String>,
    pub start_line: usize,
    pub end_line: usize,
    pub content_start_line: usize,
    pub content: String,
}

pub struct VueBlockView {
    pub tag: Seq<char>,
    pub lang: Option<Seq<char>>,
    pub start_line: int,
    pub end_line: int,
    pub content_start_line: int,
    pub content: Seq<char>,
}

impl View for VueBlock {
    type V = VueBlockView;

    open spec fn view(&self) -> VueBlockView {
        VueBlockView {
            tag: self.tag@,
            lang: opt_view(self.lang),
            start_line: self.start_line as int,
            end_line: self.end_line as int,
            content_start_line: self.content_start_line as int,
            content: self.content@,
        }
    }
}

pub open spec fn vue_block_views(v: Seq<VueBlock>) -> Seq<VueBlockView> {
    v.map_values(|b: VueBlock| b@)
}

/// The template nodes of a template block.
pub open spec fn template_nodes_spec(block: VueBlockView) -> Seq<TemplateNodeView> {
    scan_lines(lines(block.content), 0, 0, block.content_start_line)
}

/// Reads the elements, components and interpolations of a template block,
/// line by line, with their nesting depth.
pub fn analyze_vue_template_block(block: &VueBlock) -> (r: Vec<TemplateNodeFact>)
    requires
        block.content_start_line + block.content@.len() <= usize::MAX,
    ensures
        template_views(r@) == template_nodes_spec(block@),
{
    let content = to_chars(block.content.as_str());
    let ls = lines_exec(content.as_slice());
    proof {
        lemma_lines_len(content@);
    }
    let mut nodes: Vec<TemplateNodeFact> = Vec::new();
    let mut stack: Vec<String> = Vec::new();
    let n = ls.len();
    let lt = vec!['<'];
    let gt = vec!['>'];
    let close_prefix = vec!['<', '/'];
    let bang_prefix = vec!['<', '!'];
    let ghost first = block.content_start_line as int;
    assert(template_views(nodes@) =~= seq![]);
    for idx in 0..n
        invariant
            n == ls@.len(),
            n <= content@.len() == block.content@.len(),
            block.content_start_line + block.content@.len() <= usize::MAX,
            first == block.content_start_line as int,
            views(ls@) == lines(block.content@),
            lt@ == seq!['<'],
            gt@ == seq!['>'],
            close_prefix@ == seq!['<', '/'],
            bang_prefix@ == seq!['<', '!'],
            template_nodes_spec(block@) == template_views(nodes@) + scan_lines(
                views(ls@),
                idx as int,
                stack@.len() as int,
                first,
            ),
    {
        let line_no = block.content_start_line + idx;
        let raw = ls[idx].as_slice();
        let ghost lview = views(ls@)[idx as int];
        assert(raw@ == lview);
        let trimmed = trim_exec(raw);
        if trimmed.len() > 0 {
            let ghost depth0 = stack@.len() as int;
            let ghost nodes0 = template_views(nodes@);
            let interps = extract_interpolations(from_chars(raw).as_str());
            let m = interps.len();
            for k in 0..m
                invariant
                    m == interps@.len(),
                    string_views(interps@) == interpolations(lview),
                    stack@.len() == depth0,
                    template_views(nodes@) == nodes0 + interpolation_views(
                        interpolations(lview),
                        depth0,
                        line_no as int,
                    ).take(k as int),
            {
                let expr = interps[k].clone();
                let ghost before_push = template_views(nodes@);
                nodes.push(
                    TemplateNodeFact {
                        kind: String::from_str("interpolation"),
                        name: None,
                        directives: Vec::new(),
                        attributes: Vec::new(),
                        expression: Some(expr),
                        depth: stack.len(),
                        span: Span { start_line: line_no, end_line: line_no },
                    },
                );
                proof {
                    reveal_strlit("interpolation");
                    let iv = interpolation_views(interpolations(lview), depth0, line_no as int);
                    assert(iv[k as int] == interpolation_view(
                        string_views(interps@)[k as int],
                        depth0,
                        line_no as int,
                    ));
                    assert(template_views(nodes@)[nodes@.len() - 1] =~= iv[k as int]) by {
                        assert(string_views(Seq::<String>::empty()) =~= seq![]);
                    }
                    assert(template_views(nodes@) =~= before_push.push(iv[k as int]));
                    assert(iv.take(k + 1) =~= iv.take(k as int).push(iv[k as int]));
                }
            }
            let ghost nodes1 = template_views(nodes@);
            assert(interpolation_views(interpolations(lview), depth0, line_no as int).take(
                m as int,
            ) =~= interpolation_views(interpolations(lview), depth0, line_no as int));
            let mut cursor: usize = 0;
            let len = raw.len();
            loop
                invariant
                    len == raw@.len(),
                    raw@ == lview,
                    cursor <= len,
                    lt@ == seq!['<'],
                    gt@ == seq!['>'],
                    close_prefix@ == seq!['<', '/'],
                    bang_prefix@ == seq!['<', '!'],
                    scan_tags(lview, 0, depth0, line_no as int).0 == template_views(nodes@).skip(
                        nodes1.len() as int,
                    ) + scan_tags(lview, cursor as int, stack@.len() as int, line_no as int).0,
                    scan_tags(lview, 0, depth0, line_no as int).1 == scan_tags(
                        lview,
                        cursor as int,
                        stack@.len() as int,
                        line_no as int,
                    ).1,
                    template_views(nodes@).take(nodes1.len() as int) == nodes1,
                    nodes1.len() <= nodes@.len(),
                ensures
                    scan_tags(lview, 0, depth0, line_no as int).0 == template_views(nodes@).skip(
                        nodes1.len() as int,
                    ),
                    scan_tags(lview, 0, depth0, line_no as int).1 == stack@.len(),
                    template_views(nodes@).take(nodes1.len() as int) == nodes1,
                    nodes1.len() <= nodes@.len(),
                decreases len + 1 - cursor,
            {
                let ghost d = stack@.len() as int;
                let ghost sc = scan_tags(lview, cursor as int, d, line_no as int);
                let ghost skipped = template_views(nodes@).skip(nodes1.len() as int);
                let start = match find_from_exec(raw, lt.as_slice(), cursor) {
                    Some(st) => st,
                    None => {
                        assert(skipped + seq![] =~= skipped);
                        break ;
                    },
                };
                let end_idx = match find_from_exec(raw, gt.as_slice(), start) {
                    Some(e) => e,
                    None => {
                        assert(skipped + seq![] =~= skipped);
                        break ;
                    },
                };
                proof {
                    lemma_find_from(lview, seq!['<'], cursor as int);
                    lemma_find_from(lview, seq!['>'], start as int);
                }
                let tag_text = slice_chars(raw, start, end_idx + 1);
                let next = end_idx + 1;
                if starts_with_exec(tag_text.as_slice(), close_prefix.as_slice()) {
                    if stack.len() > 0 {
                        stack.pop();
                    }
                } else if starts_with_exec(tag_text.as_slice(), bang_prefix.as_slice()) {
                } else {
                    match parse_template_tag(from_chars(tag_text.as_slice()).as_str()) {
                        None => {},
                        Some(tag) => {
                            let ghost tv = tag@;
                            let depth = stack.len();
                            let is_comp = is_component_name(tag.name.as_str());
                            let kind = if is_comp {
                                String::from_str("component")
                            } else {
                                String::from_str("element")
                            };
                            let ParsedTemplateTag { name, directives, attributes, self_closing } =
                                tag;
                            let name_copy = name.clone();
                            let ghost before_push = template_views(nodes@);
                            nodes.push(
                                TemplateNodeFact {
                                    kind,
                                    name: Some(name_copy),
                                    directives,
                                    attributes,
                                    expression: None,
                                    depth,
                                    span: Span { start_line: line_no, end_line: line_no },
                                },
                            );
                            if !self_closing {
                                stack.push(name);
                            }
                            proof {
                                reveal_strlit("component");
                                reveal_strlit("element");
                                let ev = element_view(tv, d, line_no as int);
                                assert(template_views(nodes@)[nodes@.len() - 1] =~= ev);
                                assert(template_views(nodes@) =~= before_push.push(ev));
                                assert(template_views(nodes@).skip(nodes1.len() as int)
                                    =~= skipped.push(ev));
                                assert(template_views(nodes@).take(nodes1.len() as int)
                                    =~= before_push.take(nodes1.len() as int));
                            }
                        },
                    }
                }
                cursor = next;
            }
            proof {
                let tv = template_views(nodes@);
                assert(tv =~= nodes1 + tv.skip(nodes1.len() as int));
                assert(nodes1 =~= nodes0 + interpolation_views(
                    interpolations(lview),
                    depth0,
                    line_no as int,
                ));
            }
        }
    }
    assert(scan_lines(views(ls@), n as int, stack@.len() as int, first) =~= seq![]);
    assert(template_views(nodes@) + seq![] =~= template_views(nodes@));
    nodes
}

// ---------------------------------------------------------------------------
// Splitting a file into blocks
// ---------------------------------------------------------------------------

/// The value of a `lang="..."` (or `lang='...'`) attribute on a line, when it
/// is quoted and not empty.
pub open spec fn lang_attr_spec(line: Seq<char>) -> Option<Seq<char>> {
    match find(line, seq!['l', 'a', 'n', 'g', '=']) {
        None => None,
        Some(i) => {
            let rest = line.skip(i + 5);
            if rest.len() == 0 {
                None
            } else if rest[0] != '"' && rest[0] != '\'' {
                None
            } else {
                let value = before(rest.drop_first(), seq![rest[0]]);
                if value.len() == 0 {
                    None
                } else {
                    Some(value)
                }
            }
        },
    }
}

/// Reads the `lang` attribute of a block's opening line.
pub fn extract_lang_attr(line: &str) -> (r: Option<String>)
    ensures
        opt_view(r) == lang_attr_spec(line@),
{
    let line_chars = to_chars(line);
    let line = line_chars.as_slice();
    let marker = vec!['l', 'a', 'n', 'g', '='];
    assert(marker@ == seq!['l', 'a', 'n', 'g', '=']);
    let i = match find_from_exec(line, marker.as_slice(), 0) {
        Some(i) => i,
        None => return None,
    };
    proof {
        lemma_find_from(line@, marker@, 0);
    }
    let len = line.len();
    assert(i + 5 <= len);
    let start = i + 5;
    if start >= line.len() {
        assert(line@.skip(start as int).len() == 0);
        return None;
    }
    let quote = line[start];
    if quote != '"' && quote != '\'' {
        return None;
    }
    let rest = slice_chars(line, start + 1, line.len());
    assert(rest@ =~= line@.skip(start as int).drop_first());
    let q = vec![quote];
    assert(q@ == seq![quote]);
    let value = before_exec(rest.as_slice(), q.as_slice());
    if value.len() == 0 {
        None
    } else {
        Some(from_chars(value.as_slice()))
    }
}

pub open spec fn template_word() -> Seq<char> {
    seq!['t', 'e', 'm', 'p', 'l', 'a', 't', 'e']
}

pub open spec fn script_word() -> Seq<char> {
    seq!['s', 'c', 'r', 'i', 'p', 't']
}

pub open spec fn style_word() -> Seq<char> {
    seq!['s', 't', 'y', 'l', 'e']
}

/// The block that a (trimmed) line opens, with its `lang` attribute: a line
/// that starts with `<template`, `<script` or `<style`.
pub open spec fn open_tag_spec(line: Seq<char>) -> Option<(Seq<char>, Option<Seq<char>>)> {
    if starts_with(line, seq!['<'] + template_word()) {
        Some((template_word(), lang_attr_spec(line)))
    } else if starts_with(line, seq!['<'] + script_word()) {
        Some((script_word(), lang_attr_spec(line)))
    } else if starts_with(line, seq!['<'] + style_word()) {
        Some((style_word(), lang_attr_spec(line)))
    } else {
        None
    }
}

/// Recognises the opening line of a `template`, `script` or `style` block.
pub fn parse_vue_open_tag(line: &str) -> (r: Option<(String, Option<String>)>)
    ensures
        match r {
            Some((tag, lang)) => open_tag_spec(line@) == Some((tag@, opt_view(lang))),
            None => open_tag_spec(line@) is None,
        },
{
    let line_chars = to_chars(line);
    let line = line_chars.as_slice();
    let t = vec!['<', 't', 'e', 'm', 'p', 'l', 'a', 't', 'e'];
    let sc = vec!['<', 's', 'c', 'r', 'i', 'p', 't'];
    let st = vec!['<', 's', 't', 'y', 'l', 'e'];
    assert(t@ =~= seq!['<'] + template_word());
    assert(sc@ =~= seq!['<'] + script_word());
    assert(st@ =~= seq!['<'] + style_word());
    let tag = if starts_with_exec(line, t.as_slice()) {
        slice_chars(t.as_slice(), 1, 9)
    } else if starts_with_exec(line, sc.as_slice()) {
        slice_chars(sc.as_slice(), 1, 7)
    } else if starts_with_exec(line, st.as_slice()) {
        slice_chars(st.as_slice(), 1, 6)
    } else {
        return None;
    };
    assert(match open_tag_spec(line@) {
        Some((w, _)) => w == tag@,
        None => false,
    });
    Some((from_chars(tag.as_slice()), extract_lang_attr(from_chars(line).as_str())))
}

/// The index of the first line from `j` on whose trimmed text starts with
/// the closing tag `</tag>`.
pub open spec fn find_close(ls: Seq<Seq<char>>, j: int, tag: Seq<char>) -> Option<int>
    decreases ls.len() - j,
{
    if j < 0 || j >= ls.len() {
        None
    } else if starts_with(trim(ls[j]), seq!['<', '/'] + tag + seq!['>']) {
        Some(j)
    } else {
        find_close(ls, j + 1, tag)
    }
}

pub proof fn lemma_find_close(ls: Seq<Seq<char>>, j: int, tag: Seq<char>)
    requires
        0 <= j,
    ensures
        find_close(ls, j, tag) matches Some(k) ==> j <= k < ls.len() && starts_with(
            trim(ls[k]),
            seq!['<', '/'] + tag + seq!['>'],
        ) && forall|m: int|
            j <= m < k ==> !starts_with(trim(ls[m]), seq!['<', '/'] + tag + seq!['>']),
        find_close(ls, j, tag) is None ==> forall|m: int|
            j <= m < ls.len() ==> !starts_with(trim(ls[m]), seq!['<', '/'] + tag + seq!['>']),
    decreases ls.len() - j,
{
    if j < ls.len() && !starts_with(trim(ls[j]), seq!['<', '/'] + tag + seq!['>']) {
        lemma_find_close(ls, j + 1, tag);
    }
}

/// The blocks opened at or after line index `idx`. A block runs from its
/// opening line to the first later line that starts with its closing tag
/// (or to the end of the file, when none does); its content is the lines in
/// between, joined with `"\n"`.
pub open spec fn blocks_from(ls: Seq<Seq<char>>, idx: int) -> Seq<VueBlockView>
    decreases ls.len() - idx,
{
    if idx < 0 || idx >= ls.len() {
        seq![]
    } else {
        match open_tag_spec(trim(ls[idx])) {
            None => blocks_from(ls, idx + 1),
            Some((tag, lang)) => {
                proof {
                    lemma_find_close(ls, idx + 1, tag);
                }
                match find_close(ls, idx + 1, tag) {
                    Some(j) => seq![
                        VueBlockView {
                            tag,
                            lang,
                            start_line: idx + 1,
                            end_line: j + 1,
                            content_start_line: idx + 2,
                            content: join_lines(ls.subrange(idx + 1, j)),
                        },
                    ] + blocks_from(ls, j + 1),
                    None => seq![
                        VueBlockView {
                            tag,
                            lang,
                            start_line: idx + 1,
                            end_line: idx + 1,
                            content_start_line: idx + 2,
                            content: join_lines(ls.subrange(idx + 1, ls.len() as int)),
                        },
                    ],
                }
            },
        }
    }
}

/// The blocks of a Vue file.
pub open spec fn vue_blocks_spec(content: Seq<char>) -> Seq<VueBlockView> {
    blocks_from(lines(content), 0)
}

/// Splits a Vue file into its `template`, `script` and `style` blocks.
pub fn extract_vue_blocks(content: &str) -> (r: Vec<VueBlock>)
    requires
        content@.len() < usize::MAX,
    ensures
        vue_block_views(r@) == vue_blocks_spec(content@),
        forall|i: int|
            0 <= i < r@.len() ==> (#[trigger] r@[i]).content_start_line as int + r@[i].content@.len()
                <= content@.len() + 1,
        r@.len() <= content@.len() + 1,
{
    let chars = to_chars(content);
    let ls = lines_exec(chars.as_slice());
    proof {
        lemma_lines_len(chars@);
    }
    let n = ls.len();
    let mut blocks: Vec<VueBlock> = Vec::new();
    let mut idx: usize = 0;
    assert(vue_block_views(blocks@) =~= seq![]);
    while idx < n
        invariant
            idx <= n + 1,
            n == ls@.len() <= content@.len() < usize::MAX,
            views(ls@) == lines(content@),
            vue_blocks_spec(content@) == vue_block_views(blocks@) + blocks_from(
                views(ls@),
                idx as int,
            ),
            forall|i: int|
                0 <= i < blocks@.len() ==> (#[trigger] blocks@[i]).content_start_line as int
                    + blocks@[i].content@.len() <= content@.len() + 1,
            blocks@.len() <= idx,
        decreases n + 1 - idx,
    {
        let trimmed = trim_exec(ls[idx].as_slice());
        match parse_vue_open_tag(from_chars(trimmed.as_slice()).as_str()) {
            None => {},
            Some((tag, lang)) => {
                let start_line = idx + 1;
                let mut content_lines: Vec<Vec<char>> = Vec::new();
                let mut end_line = start_line;
                let open_idx = idx;
                idx += 1;
                let tag_chars = to_chars(tag.as_str());
                let mut close: Vec<char> = vec!['<', '/'];
                let tn = tag_chars.len();
                for k in 0..tn
                    invariant
                        tn == tag_chars@.len(),
                        close@ == seq!['<', '/'] + tag_chars@.take(k as int),
                {
                    close.push(tag_chars[k]);
                    assert(tag_chars@.take(k + 1) =~= tag_chars@.take(k as int).push(
                        tag_chars@[k as int],
                    ));
                }
                close.push('>');
                assert(tag_chars@.take(tn as int) =~= tag_chars@);
                assert(close@ =~= seq!['<', '/'] + tag@ + seq!['>']);
                let ghost ls_v = views(ls@);
                assert(views(content_lines@) =~= ls_v.subrange(open_idx + 1, idx as int));
                let mut closed = false;
                while idx < n
                    invariant_except_break
                        !closed,
                        end_line == start_line,
                    invariant
                        open_idx < idx <= n == ls@.len(),
                        ls_v == views(ls@),
                        close@ == seq!['<', '/'] + tag@ + seq!['>'],
                        views(content_lines@) == ls_v.subrange(open_idx + 1, idx as int),
                        forall|m: int|
                            open_idx + 1 <= m < idx ==> !starts_with(
                                trim(ls_v[m]),
                                seq!['<', '/'] + tag@ + seq!['>'],
                            ),
                        start_line == open_idx + 1,
                    ensures
                        open_idx < idx <= n,
                        views(content_lines@) == ls_v.subrange(open_idx + 1, idx as int),
                        forall|m: int|
                            open_idx + 1 <= m < idx ==> !starts_with(
                                trim(ls_v[m]),
                                seq!['<', '/'] + tag@ + seq!['>'],
                            ),
                        closed ==> idx < n && end_line == idx + 1 && starts_with(
                            trim(ls_v[idx as int]),
                            seq!['<', '/'] + tag@ + seq!['>'],
                        ),
                        !closed ==> idx == n && end_line == start_line,
                    decreases n - idx,
                {
                    let line_trimmed = trim_exec(ls[idx].as_slice());
                    if starts_with_exec(line_trimmed.as_slice(), close.as_slice()) {
                        end_line = idx + 1;
                        closed = true;
                        break ;
                    }
                    let line_copy = slice_chars(ls[idx].as_slice(), 0, ls[idx].len());
                    assert(line_copy@ =~= ls_v[idx as int]);
                    let ghost before_push = views(content_lines@);
                    content_lines.push(line_copy);
                    assert(views(content_lines@) =~= before_push.push(line_copy@));
                    assert(views(content_lines@) =~= ls_v.subrange(open_idx + 1, idx + 1));
                    idx += 1;
                }
                proof {
                    lemma_find_close(ls_v, open_idx + 1, tag@);
                    if closed {
                        assert(find_close(ls_v, open_idx + 1, tag@) == Some(idx as int));
                    } else {
                        assert(find_close(ls_v, open_idx + 1, tag@) is None);
                    }
                    lemma_lines_len(content@);
                    lemma_join_within(content@, open_idx + 1, idx as int);
                }
                let joined = join_lines_exec(&content_lines);
                let ghost bv = VueBlockView {
                    tag: tag@,
                    lang: opt_view(lang),
                    start_line: start_line as int,
                    end_line: end_line as int,
                    content_start_line: start_line + 1,
                    content: joined@,
                };
                let ghost before_push = vue_block_views(blocks@);
                blocks.push(
                    VueBlock {
                        tag,
                        lang,
                        start_line,
                        end_line,
                        content_start_line: start_line + 1,
                        content: from_chars(joined.as_slice()),
                    },
                );
                assert(vue_block_views(blocks@) =~= before_push.push(bv));
                assert(blocks@[blocks@.len() - 1].content_start_line as int
                    + blocks@[blocks@.len() - 1].content@.len() <= content@.len() + 1);
                if !closed {
                    assert(blocks_from(ls_v, idx + 1) =~= seq![]);
                }
            },
        }
        idx += 1;
    }
    assert(vue_block_views(blocks@) + seq![] =~= vue_block_views(blocks@));
    blocks
}


// ---------------------------------------------------------------------------
// What a template node is
// ---------------------------------------------------------------------------

/// A template node as the analysis reports it: either an interpolation, with
/// a non-empty expression and nothing else, or an element or component, with
/// a non-empty name, its directives all directive names and its other
/// attributes none.
pub open spec fn template_node_well_formed(v: TemplateNodeView) -> bool {
    ||| {
        &&& v.kind == seq!['i', 'n', 't', 'e', 'r', 'p', 'o', 'l', 'a', 't', 'i', 'o', 'n']
        &&& v.name is None
        &&& v.expression matches Some(e) && e.len() > 0
        &&& v.directives.len() == 0
        &&& v.attributes.len() == 0
    }
    ||| {
        &&& (v.kind == seq!['e', 'l', 'e', 'm', 'e', 'n', 't'] || v.kind == seq![
            'c',
            'o',
            'm',
            'p',
            'o',
            'n',
            'e',
            'n',
            't',
        ])
        &&& v.name matches Some(n) && n.len() > 0
        &&& v.expression is None
        &&& forall|i: int|
            0 <= i < v.directives.len() ==> is_template_directive_spec(#[trigger] v.directives[i])
        &&& forall|i: int|
            0 <= i < v.attributes.len() ==> !is_template_directive_spec(
                #[trigger] v.attributes[i],
            )
    }
}

/// The expressions of a line's interpolations are not empty.
proof fn lemma_interpolations_nonempty(line: Seq<char>, cursor: int)
    ensures
        forall|i: int|
            0 <= i < interpolations_from(line, cursor).len() ==> (#[trigger] interpolations_from(
                line,
                cursor,
            )[i]).len() > 0,
    decreases line.len() + 1 - cursor,
{
    if 0 <= cursor <= line.len() {
        lemma_find_from(line, seq!['{', '{'], cursor);
        if let Some(st) = find_from(line, seq!['{', '{'], cursor) {
            lemma_find_from(line, seq!['}', '}'], st + 2);
            if let Some(end) = find_from(line, seq!['}', '}'], st + 2) {
                lemma_interpolations_nonempty(line, end + 2);
                let expr = trim(line.subrange(st + 2, end));
                let head: Seq<Seq<char>> = if expr.len() > 0 {
                    seq![expr]
                } else {
                    seq![]
                };
                let rest = interpolations_from(line, end + 2);
                assert(interpolations_from(line, cursor) == head + rest);
                assert forall|i: int| 0 <= i < (head + rest).len() implies (#[trigger] (head
                    + rest)[i]).len() > 0 by {
                    if i >= head.len() {
                        assert((head + rest)[i] == rest[i - head.len()]);
                    }
                }
            }
        }
    }
}

/// The tags that `parse_template_tag_spec` reads have a non-empty name, and
/// their directives and attributes are told apart.
proof fn lemma_tag_view(t: Seq<char>)
    ensures
        parse_template_tag_spec(t) matches Some(tv) ==> {
            &&& tv.name.len() > 0
            &&& forall|i: int|
                0 <= i < tv.directives.len() ==> is_template_directive_spec(
                    #[trigger] tv.directives[i],
                )
            &&& forall|i: int|
                0 <= i < tv.attributes.len() ==> !is_template_directive_spec(
                    #[trigger] tv.attributes[i],
                )
        },
{
    let ws = words(tag_inner(t));
    if ws.len() > 0 {
        lemma_split_attrs(ws.drop_first());
    }
}

/// The nodes of a line's tags are well formed.
proof fn lemma_scan_tags_well_formed(line: Seq<char>, cursor: int, depth: int, line_no: int)
    ensures
        forall|i: int|
            0 <= i < scan_tags(line, cursor, depth, line_no).0.len() ==> template_node_well_formed(
                #[trigger] scan_tags(line, cursor, depth, line_no).0[i],
            ),
    decreases line.len() + 1 - cursor,
{
    if 0 <= cursor <= line.len() {
        lemma_find_from(line, seq!['<'], cursor);
        if let Some(st) = find_from(line, seq!['<'], cursor) {
            lemma_find_from(line, seq!['>'], st);
            if let Some(e) = find_from(line, seq!['>'], st) {
                let tag = line.subrange(st, e + 1);
                if starts_with(tag, seq!['<', '/']) {
                    let d2 = if depth > 0 {
                        depth - 1
                    } else {
                        0
                    };
                    lemma_scan_tags_well_formed(line, e + 1, d2, line_no);
                    assert(scan_tags(line, cursor, depth, line_no) == scan_tags(
                        line,
                        e + 1,
                        d2,
                        line_no,
                    ));
                } else if starts_with(tag, seq!['<', '!']) {
                    lemma_scan_tags_well_formed(line, e + 1, depth, line_no);
                    assert(scan_tags(line, cursor, depth, line_no) == scan_tags(
                        line,
                        e + 1,
                        depth,
                        line_no,
                    ));
                } else {
                    lemma_tag_view(tag);
                    match parse_template_tag_spec(tag) {
                        None => {
                            lemma_scan_tags_well_formed(line, e + 1, depth, line_no);
                            assert(scan_tags(line, cursor, depth, line_no) == scan_tags(
                                line,
                                e + 1,
                                depth,
                                line_no,
                            ));
                        },
                        Some(tv) => {
                            let d2 = if tv.self_closing {
                                depth
                            } else {
                                depth + 1
                            };
                            lemma_scan_tags_well_formed(line, e + 1, d2, line_no);
                            let rest = scan_tags(line, e + 1, d2, line_no);
                            let all = scan_tags(line, cursor, depth, line_no).0;
                            assert(all == seq![element_view(tv, depth, line_no)] + rest.0);
                            assert(template_node_well_formed(element_view(tv, depth, line_no)));
                            assert forall|i: int| 0 <= i < all.len() implies template_node_well_formed(
                                #[trigger] all[i],
                            ) by {
                                if i > 0 {
                                    assert(all[i] == rest.0[i - 1]);
                                }
                            }
                        },
                    }
                }
            }
        }
    }
}

/// The nodes of the lines from index `i` on are well formed.
proof fn lemma_scan_lines_well_formed(ls: Seq<Seq<char>>, i: int, depth: int, first_line: int)
    ensures
        forall|k: int|
            0 <= k < scan_lines(ls, i, depth, first_line).len() ==> template_node_well_formed(
                #[trigger] scan_lines(ls, i, depth, first_line)[k],
            ),
    decreases ls.len() - i,
{
    if 0 <= i < ls.len() {
        if trim(ls[i]).len() == 0 {
            lemma_scan_lines_well_formed(ls, i + 1, depth, first_line);
            assert(scan_lines(ls, i, depth, first_line) == scan_lines(ls, i + 1, depth, first_line));
        } else {
            let no = first_line + i;
            let tags = scan_tags(ls[i], 0, depth, no);
            lemma_scan_tags_well_formed(ls[i], 0, depth, no);
            lemma_scan_lines_well_formed(ls, i + 1, tags.1, first_line);
            lemma_interpolations_nonempty(ls[i], 0);
            let iv = interpolation_views(interpolations(ls[i]), depth, no);
            let rest = scan_lines(ls, i + 1, tags.1, first_line);
            let all = scan_lines(ls, i, depth, first_line);
            assert(all == iv + tags.0 + rest);
            assert forall|k: int| 0 <= k < all.len() implies template_node_well_formed(
                #[trigger] all[k],
            ) by {
                if k < iv.len() {
                    assert(all[k] == iv[k]);
                    assert(interpolations(ls[i])[k].len() > 0);
                } else if k < iv.len() + tags.0.len() {
                    assert(all[k] == tags.0[k - iv.len()]);
                } else {
                    assert(all[k] == rest[k - iv.len() - tags.0.len()]);
                }
            }
        }
    }
}

/// Every node that the analysis of a template block reports is an
/// interpolation with a non-empty expression, or an element or a component
/// with a non-empty name whose directives and other attributes are told
/// apart.
pub proof fn law_template_nodes_well_formed(block: VueBlockView)
    ensures
        forall|k: int|
            0 <= k < template_nodes_spec(block).len() ==> template_node_well_formed(
                #[trigger] template_nodes_spec(block)[k],
            ),
{
    lemma_scan_lines_well_formed(lines(block.content), 0, 0, block.content_start_line);
}

/// The blocks found from line index `idx` on start after that line, each
/// ends no earlier than it starts, and each ends before the next starts.
proof fn lemma_blocks_ordered(ls: Seq<Seq<char>>, idx: int)
    requires
        0 <= idx,
    ensures
        forall|k: int|
            0 <= k < blocks_from(ls, idx).len() ==> idx + 1 <= (#[trigger] blocks_from(
                ls,
                idx,
            )[k]).start_line <= blocks_from(ls, idx)[k].end_line,
        forall|a: int, b: int|
            0 <= a < b < blocks_from(ls, idx).len() ==> (#[trigger] blocks_from(ls, idx)[a]).end_line
                < (#[trigger] blocks_from(ls, idx)[b]).start_line,
    decreases ls.len() - idx,
{
    if idx < ls.len() {
        match open_tag_spec(trim(ls[idx])) {
            None => {
                lemma_blocks_ordered(ls, idx + 1);
            },
            Some((tag, lang)) => {
                lemma_find_close(ls, idx + 1, tag);
                match find_close(ls, idx + 1, tag) {
                    Some(j) => {
                        lemma_blocks_ordered(ls, j + 1);
                        let r = blocks_from(ls, idx);
                        let t = blocks_from(ls, j + 1);
                        assert(r.len() == t.len() + 1);
                        assert forall|k: int| 1 <= k < r.len() implies #[trigger] r[k] == t[k - 1] by {}
                        assert(r[0].start_line == idx + 1 && r[0].end_line == j + 1);
                        assert forall|a: int, b: int| 0 <= a < b < r.len() implies (
                        #[trigger] r[a]).end_line < (#[trigger] r[b]).start_line by {
                            assert(r[b] == t[b - 1]);
                            if a > 0 {
                                assert(r[a] == t[a - 1]);
                            }
                        }
                        assert forall|k: int| 0 <= k < r.len() implies idx + 1 <= (
                        #[trigger] r[k]).start_line <= r[k].end_line by {
                            if k > 0 {
                                assert(r[k] == t[k - 1]);
                            }
                        }
                    },
                    None => {},
                }
            },
        }
    }
}

/// The blocks of a Vue file do not overlap: each ends no earlier than it
/// starts, and a block ends before any later block starts, so no line inside
/// a closed block opens another block.
pub proof fn law_vue_blocks_do_not_overlap(content: Seq<char>)
    ensures
        forall|k: int|
            0 <= k < vue_blocks_spec(content).len() ==> 1 <= (#[trigger] vue_blocks_spec(
                content,
            )[k]).start_line <= vue_blocks_spec(content)[k].end_line,
        forall|a: int, b: int|
            0 <= a < b < vue_blocks_spec(content).len() ==> (#[trigger] vue_blocks_spec(
                content,
            )[a]).end_line < (#[trigger] vue_blocks_spec(content)[b]).start_line,
{
    lemma_blocks_ordered(lines(content), 0);
}

/// A line `</name>` alone: a closing tag whose name holds no `>` and no `{`.
pub open spec fn closing_tag_line(line: Seq<char>) -> bool {
    &&& line.len() >= 3
    &&& line[0] == '<'
    &&& line[1] == '/'
    &&& line.last() == '>'
    &&& forall|k: int| 2 <= k < line.len() - 1 ==> #[trigger] line[k] != '>' && line[k] != '{'
}

/// A closing tag reports no node, and scanning on from just after it in the
/// same line starts from the end of the line.
proof fn lemma_closing_line_scan(line: Seq<char>, depth: int, line_no: int)
    requires
        closing_tag_line(line),
    ensures
        trim(line).len() > 0,
        interpolations(line) == Seq::<Seq<char>>::empty(),
        scan_tags(line, 0, depth, line_no) == (
            Seq::<TemplateNodeView>::empty(),
            if depth > 0 {
                depth - 1
            } else {
                0
            },
        ),
{
    let n = line.len() as int;
    assert(!is_ws(line[0]));
    assert(trim_start(line) == line);
    assert(!is_ws(line.last()));
    assert(trim_end(line) == line);
    // no "{{" anywhere
    lemma_find_from(line, seq!['{', '{'], 0);
    if let Some(k) = find_from(line, seq!['{', '{'], 0) {
        assert(line.subrange(k, k + 2) == seq!['{', '{']);
        assert(line[k] == line.subrange(k, k + 2)[0]);
        assert(false);
    }
    assert(interpolations(line) =~= Seq::<Seq<char>>::empty());
    // the tag is the whole line
    assert(matches_at(line, 0, seq!['<'])) by {
        assert(line.subrange(0, 1) =~= seq!['<']);
    }
    assert(find_from(line, seq!['<'], 0) == Some(0int));
    lemma_find_from(line, seq!['>'], 0);
    assert(matches_at(line, n - 1, seq!['>'])) by {
        assert(line.subrange(n - 1, n) =~= seq!['>']);
    }
    let e = find_from(line, seq!['>'], 0).unwrap();
    assert(e == n - 1) by {
        assert(line.subrange(e, e + 1)[0] == line[e]);
        if e < n - 1 {
            assert(e != 0) by {
                assert(line[0] == '<');
            }
            assert(e != 1) by {
                assert(line[1] == '/');
            }
            assert(line[e] != '>');
        }
    }
    let tag = line.subrange(0, n);
    assert(tag =~= line);
    assert(starts_with(tag, seq!['<', '/'])) by {
        assert(tag.take(2) =~= seq!['<', '/']);
    }
    let d2 = if depth > 0 {
        depth - 1
    } else {
        0
    };
    assert(find_from(line, seq!['<'], n) is None);
    assert(scan_tags(line, n, d2, line_no) == (Seq::<TemplateNodeView>::empty(), d2));
}

/// A closing tag lowers the nesting depth by one (not below 0): a line that
/// holds only a closing tag reports no node, and the lines after it are read
/// one level up. So siblings separated by a closing tag have equal depth.
pub proof fn law_closing_tag_lowers_depth(ls: Seq<Seq<char>>, i: int, depth: int, first_line: int)
    requires
        0 <= i < ls.len(),
        closing_tag_line(ls[i]),
    ensures
        scan_lines(ls, i, depth, first_line) == scan_lines(
            ls,
            i + 1,
            if depth > 0 {
                depth - 1
            } else {
                0
            },
            first_line,
        ),
{
    lemma_closing_line_scan(ls[i], depth, first_line + i);
    assert(interpolation_views(interpolations(ls[i]), depth, first_line + i) =~= seq![]);
    let d2 = if depth > 0 {
        depth - 1
    } else {
        0
    };
    assert(scan_lines(ls, i, depth, first_line) =~= seq![] + seq![] + scan_lines(
        ls,
        i + 1,
        d2,
        first_line,
    ));
}

/// An element opened and closed again within a line leaves the depth as it
/// was: when the next tag from `cursor` opens an element (not self-closing)
/// and the tag after it is a closing tag, the element is reported at the
/// current depth and the rest of the line is read at that same depth.
pub proof fn law_open_then_close_keeps_depth(line: Seq<char>, cursor: int, depth: int, line_no: int)
    requires
        0 <= cursor <= line.len(),
        0 <= depth,
        find_from(line, seq!['<'], cursor) is Some,
        find_from(line, seq!['>'], find_from(line, seq!['<'], cursor).unwrap()) is Some,
        ({
            let st = find_from(line, seq!['<'], cursor).unwrap();
            let e = find_from(line, seq!['>'], st).unwrap();
            let tag = line.subrange(st, e + 1);
            &&& !starts_with(tag, seq!['<', '/'])
            &&& !starts_with(tag, seq!['<', '!'])
            &&& parse_template_tag_spec(tag) matches Some(t) && !t.self_closing
            &&& find_from(line, seq!['<'], e + 1) is Some
            &&& find_from(line, seq!['>'], find_from(line, seq!['<'], e + 1).unwrap()) is Some
            &&& starts_with(
                line.subrange(
                    find_from(line, seq!['<'], e + 1).unwrap(),
                    find_from(line, seq!['>'], find_from(line, seq!['<'], e + 1).unwrap()).unwrap()
                        + 1,
                ),
                seq!['<', '/'],
            )
        }),
    ensures
        ({
            let st = find_from(line, seq!['<'], cursor).unwrap();
            let e = find_from(line, seq!['>'], st).unwrap();
            let t = parse_template_tag_spec(line.subrange(st, e + 1)).unwrap();
            let e2 = find_from(line, seq!['>'], find_from(line, seq!['<'], e + 1).unwrap()).unwrap();
            let rest = scan_tags(line, e2 + 1, depth, line_no);
            scan_tags(line, cursor, depth, line_no) == (seq![element_view(t, depth, line_no)]
                + rest.0, rest.1)
        }),
{
    let st = find_from(line, seq!['<'], cursor).unwrap();
    lemma_find_from(line, seq!['<'], cursor);
    let e = find_from(line, seq!['>'], st).unwrap();
    lemma_find_from(line, seq!['>'], st);
    let st2 = find_from(line, seq!['<'], e + 1).unwrap();
    lemma_find_from(line, seq!['<'], e + 1);
    let e2 = find_from(line, seq!['>'], st2).unwrap();
    lemma_find_from(line, seq!['>'], st2);
    assert(e + 1 <= line.len());
    let t = parse_template_tag_spec(line.subrange(st, e + 1)).unwrap();
    assert(e2 + 1 <= line.len());
    let tag2 = line.subrange(st2, e2 + 1);
    assert(starts_with(tag2, seq!['<', '/']));
    let inner = scan_tags(line, e + 1, depth + 1, line_no);
    assert(inner == scan_tags(line, e2 + 1, depth, line_no));
}

} // verus!
