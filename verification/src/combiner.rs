//! The executable grammar. Every function here is proved to return exactly
//! what the corresponding spec function of the grammar says, together with
//! bounds on the position it reports.

use vstd::prelude::*;
use crate::ParseError;
use crate::chars::{alnum, chars_to_string, control_char, inline_space};
use crate::data::{
    AstNode, BlockExprNode, BlockExprTree, BlockType, Directive, LinkTarget, RenderGroup, Route,
};
use crate::spec_ast::{
    lemma_bens_index, spec_asts, spec_ast, spec_ben, spec_bens, spec_route, SpecAst, SpecBen,
    SpecDirective,
};
use crate::spec_grammar::{
    advance, begin_src, end_src, find_char, find_str, has_at, lang_end,
    lemma_line_rest_end, line_rest_end, linespace_node, not_colon_end, plain_text,
    prepend, sp_ast_node, sp_ben, sp_bens, sp_directive, sp_header_routing, sp_heading,
    sp_horiz_rule, sp_inline_code, sp_internal_routing, sp_linespace, sp_link, sp_list_item,
    sp_marker_span, sp_nodes, sp_org_file, sp_source_block, sp_stmt_end, sp_title_items,
    star_end, value_end, ws_end, SpecParse, lemma_bens_no_miss, lemma_nodes_no_miss,
    lemma_title_items_no_miss, lemma_nodes_step_linespace, lemma_nodes_step_node,
    lemma_nodes_fatal, lemma_nodes_end, lemma_prepend_assoc, lemma_title_step_routing,
    lemma_title_step_ben, lemma_title_fatal, lemma_title_end, lemma_bens_step,
    lemma_bens_fatal, lemma_bens_end,
};
use crate::data::AbstractSyntaxTree;

verus! {

/// Reads one character. The indirection through a typed return value keeps
/// the character's type facts available to proofs about values built from it.
fn char_at(input: &Vec<char>, pos: usize) -> (c: char)
    requires
        pos < input@.len(),
    ensures
        c == input@[pos as int],
{
    input[pos]
}

/// The longest run of inline whitespace from `pos` on.
fn whitespaces(input: &Vec<char>, pos: usize) -> (r: usize)
    requires
        pos <= input@.len(),
    ensures
        r == ws_end(input@, pos as int),
        pos <= r <= input@.len(),
{
    let mut cur: usize = pos;
    while cur < input.len() && inline_space(input[cur])
        invariant
            pos <= cur <= input@.len(),
            ws_end(input@, pos as int) == ws_end(input@, cur as int),
        decreases input@.len() - cur,
    {
        proof {
            assert(ws_end(input@, cur as int) == ws_end(input@, cur + 1));
        }
        cur = cur + 1;
    }
    proof {
        assert(ws_end(input@, cur as int) == cur);
    }
    cur
}

/// Whether `pat` stands at `pos`.
fn match_at(input: &Vec<char>, pos: usize, pat: &Vec<char>) -> (r: bool)
    ensures
        r == has_at(input@, pos as int, pat@),
        input@.len() <= usize::MAX,
{
    if pos > input.len() || input.len() - pos < pat.len() {
        proof {
            assert(!has_at(input@, pos as int, pat@));
        }
        return false;
    }
    let mut k: usize = 0;
    while k < pat.len()
        invariant
            0 <= k <= pat@.len(),
            pos + pat@.len() <= input@.len(),
            input@.len() <= usize::MAX,
            forall|m: int| 0 <= m < k ==> input@[pos + m] == pat@[m],
        decreases pat@.len() - k,
    {
        if input[pos + k] != pat[k] {
            proof {
                assert(input@.subrange(pos as int, pos + pat@.len())[k as int] != pat@[k as int]);
            }
            return false;
        }
        k = k + 1;
    }
    proof {
        assert(input@.subrange(pos as int, pos + pat@.len()) =~= pat@);
    }
    true
}

/// The first position at or after `pos` where `c` stands.
fn find_char_from(input: &Vec<char>, pos: usize, c: char) -> (r: Option<usize>)
    requires
        pos <= input@.len(),
    ensures
        match r {
            Some(u) => find_char(input@, pos as int, c) == Some(u as int) && pos <= u
                < input@.len(),
            None => find_char(input@, pos as int, c) is None,
        },
{
    let mut cur: usize = pos;
    while cur < input.len()
        invariant
            pos <= cur <= input@.len(),
            find_char(input@, pos as int, c) == find_char(input@, cur as int, c),
        decreases input@.len() - cur,
    {
        if input[cur] == c {
            return Some(cur);
        }
        proof {
            assert(find_char(input@, cur as int, c) == find_char(input@, cur + 1, c));
        }
        cur = cur + 1;
    }
    None
}

/// The first position at or after `pos` where `pat` occurs.
fn find_str_from(input: &Vec<char>, pos: usize, pat: &Vec<char>) -> (r: Option<usize>)
    requires
        pos <= input@.len(),
        pat@.len() >= 1,
    ensures
        match r {
            Some(u) => find_str(input@, pos as int, pat@) == Some(u as int) && pos <= u && u
                + pat@.len() <= input@.len(),
            None => find_str(input@, pos as int, pat@) is None,
        },
{
    if pat.len() > input.len() || pos > input.len() - pat.len() {
        proof {
            assert(find_str(input@, pos as int, pat@) is None);
        }
        return None;
    }
    let last: usize = input.len() - pat.len();
    let mut cur: usize = pos;
    while cur <= last
        invariant
            pos <= cur <= last + 1,
            last + pat@.len() == input@.len(),
            input@.len() <= usize::MAX,
            pat@.len() >= 1,
            find_str(input@, pos as int, pat@) == find_str(input@, cur as int, pat@),
        decreases last - cur + 1,
    {
        if match_at(input, cur, pat) {
            return Some(cur);
        }
        proof {
            assert(find_str(input@, cur as int, pat@) == find_str(input@, cur + 1, pat@));
        }
        cur = cur + 1;
    }
    proof {
        assert(find_str(input@, cur as int, pat@) is None);
    }
    None
}

/// The characters of `input` from `from` up to `to`.
fn collect_range(input: &Vec<char>, from: usize, to: usize) -> (v: Vec<char>)
    requires
        from <= to <= input@.len(),
    ensures
        v@ == input@.subrange(from as int, to as int),
{
    let mut v: Vec<char> = Vec::new();
    let mut cur: usize = from;
    while cur < to
        invariant
            from <= cur <= to <= input@.len(),
            v@ == input@.subrange(from as int, cur as int),
        decreases to - cur,
    {
        v.push(input[cur]);
        proof {
            assert(v@ =~= input@.subrange(from as int, cur + 1));
        }
        cur = cur + 1;
    }
    v
}

/// The longest run of characters that stay within the line.
fn line_rest(input: &Vec<char>, pos: usize) -> (r: usize)
    requires
        pos <= input@.len(),
    ensures
        r == line_rest_end(input@, pos as int),
        pos <= r <= input@.len(),
{
    let mut cur: usize = pos;
    while cur < input.len() && input[cur] != '\n'
        invariant
            pos <= cur <= input@.len(),
            line_rest_end(input@, pos as int) == line_rest_end(input@, cur as int),
        decreases input@.len() - cur,
    {
        proof {
            assert(line_rest_end(input@, cur as int) == line_rest_end(input@, cur + 1));
        }
        cur = cur + 1;
    }
    proof {
        assert(line_rest_end(input@, cur as int) == cur);
    }
    cur
}

/// The longest run of characters other than the colon.
fn not_colon(input: &Vec<char>, pos: usize) -> (r: usize)
    requires
        pos <= input@.len(),
    ensures
        r == not_colon_end(input@, pos as int),
        pos <= r <= input@.len(),
{
    let mut cur: usize = pos;
    while cur < input.len() && input[cur] != ':'
        invariant
            pos <= cur <= input@.len(),
            not_colon_end(input@, pos as int) == not_colon_end(input@, cur as int),
        decreases input@.len() - cur,
    {
        proof {
            assert(not_colon_end(input@, cur as int) == not_colon_end(input@, cur + 1));
        }
        cur = cur + 1;
    }
    proof {
        assert(not_colon_end(input@, cur as int) == cur);
    }
    cur
}

/// The longest run of non-control characters.
fn value_run(input: &Vec<char>, pos: usize) -> (r: usize)
    requires
        pos <= input@.len(),
    ensures
        r == value_end(input@, pos as int),
        pos <= r <= input@.len(),
{
    let mut cur: usize = pos;
    while cur < input.len() && !control_char(input[cur])
        invariant
            pos <= cur <= input@.len(),
            value_end(input@, pos as int) == value_end(input@, cur as int),
        decreases input@.len() - cur,
    {
        proof {
            assert(value_end(input@, cur as int) == value_end(input@, cur + 1));
        }
        cur = cur + 1;
    }
    proof {
        assert(value_end(input@, cur as int) == cur);
    }
    cur
}

/// The longest run of alphanumeric characters.
fn lang_run(input: &Vec<char>, pos: usize) -> (r: usize)
    requires
        pos <= input@.len(),
    ensures
        r == lang_end(input@, pos as int),
        pos <= r <= input@.len(),
{
    let mut cur: usize = pos;
    while cur < input.len() && alnum(input[cur])
        invariant
            pos <= cur <= input@.len(),
            lang_end(input@, pos as int) == lang_end(input@, cur as int),
        decreases input@.len() - cur,
    {
        proof {
            assert(lang_end(input@, cur as int) == lang_end(input@, cur + 1));
        }
        cur = cur + 1;
    }
    proof {
        assert(lang_end(input@, cur as int) == cur);
    }
    cur
}

/// The longest run of stars.
fn star_run(input: &Vec<char>, pos: usize) -> (r: usize)
    requires
        pos <= input@.len(),
    ensures
        r == star_end(input@, pos as int),
        pos <= r <= input@.len(),
{
    let mut cur: usize = pos;
    while cur < input.len() && input[cur] == '*'
        invariant
            pos <= cur <= input@.len(),
            star_end(input@, pos as int) == star_end(input@, cur as int),
        decreases input@.len() - cur,
    {
        proof {
            assert(star_end(input@, cur as int) == star_end(input@, cur + 1));
        }
        cur = cur + 1;
    }
    proof {
        assert(star_end(input@, cur as int) == cur);
    }
    cur
}

/// The string of the characters of `input` from `from` up to `to`.
fn string_range(input: &Vec<char>, from: usize, to: usize) -> (s: String)
    requires
        from <= to <= input@.len(),
    ensures
        s@ == input@.subrange(from as int, to as int),
{
    let v = collect_range(input, from, to);
    chars_to_string(&v)
}

/// A blank line or a comment line.
fn linespace(input: &Vec<char>, pos: usize) -> (r: Option<usize>)
    requires
        pos <= input@.len(),
    ensures
        match r {
            Some(j) => sp_linespace(input@, pos as int) == Some(j as int) && pos < j
                <= input@.len(),
            None => sp_linespace(input@, pos as int) is None,
        },
{
    if pos < input.len() && input[pos] == '\n' {
        return Some(pos + 1);
    }
    let hash_space: Vec<char> = vec!['#', ' '];
    proof {
        assert(hash_space@ =~= seq!['#', ' ']);
    }
    if match_at(input, pos, &hash_space) {
        proof {
            lemma_line_rest_end(input@, pos + 2);
        }
        let e = line_rest(input, pos + 2);
        return Some(e);
    }
    None
}

/// A directive line `#+KEY: value`.
fn directive(input: &Vec<char>, pos: usize) -> (r: Option<(AstNode, usize)>)
    requires
        pos <= input@.len(),
    ensures
        match sp_directive(input@, pos as int) {
            SpecParse::Hit((k, v), j) => r matches Some((n, u)) && spec_ast(n)
                == SpecAst::Directive(SpecDirective::Raw(k, v)) && u as int == j && pos < u
                <= input@.len(),
            SpecParse::Miss => r is None,
            SpecParse::Fatal(p) => false,
        },
{
    let hash_plus: Vec<char> = vec!['#', '+'];
    proof {
        assert(hash_plus@ =~= seq!['#', '+']);
    }
    if !match_at(input, pos, &hash_plus) {
        return None;
    }
    let ke = not_colon(input, pos + 2);
    if ke >= input.len() {
        return None;
    }
    let vs = whitespaces(input, ke + 1);
    let ve = value_run(input, vs);
    if ve <= vs {
        return None;
    }
    let key = string_range(input, pos + 2, ke);
    let value = string_range(input, vs, ve);
    Some((AstNode::Directive(Directive::Raw(key, value)), ve))
}

/// A fenced source block.
fn source_block(input: &Vec<char>, pos: usize) -> (r: Option<(AstNode, usize)>)
    requires
        pos <= input@.len(),
    ensures
        match sp_source_block(input@, pos as int) {
            SpecParse::Hit(n, j) => r matches Some((en, u)) && spec_ast(en) == n && u as int
                == j && pos < u <= input@.len(),
            SpecParse::Miss => r is None,
            SpecParse::Fatal(p) => false,
        },
{
    let fence: Vec<char> = vec!['#', '+', 'B', 'E', 'G', 'I', 'N', '_', 'S', 'R', 'C'];
    proof {
        assert(fence@ =~= begin_src());
    }
    if !match_at(input, pos, &fence) {
        return None;
    }
    let ls = whitespaces(input, pos + 11);
    let le = lang_run(input, ls);
    if !(le < input.len() && input[le] == '\n') {
        return None;
    }
    let closing: Vec<char> = vec!['#', '+', 'E', 'N', 'D', '_', 'S', 'R', 'C'];
    proof {
        assert(closing@ =~= end_src());
    }
    match find_str_from(input, le + 1, &closing) {
        None => None,
        Some(m) => {
            let language = if le > ls {
                string_range(input, ls, le)
            } else {
                let s = String::from_str("Plain Text");
                proof {
                    reveal_strlit("Plain Text");
                    assert(s@ =~= plain_text());
                }
                s
            };
            let code = string_range(input, le + 1, m);
            Some((AstNode::SourceBlock { language, code }, m + 9))
        },
    }
}

/// A horizontal rule.
fn horiz_rule(input: &Vec<char>, pos: usize) -> (r: Option<(AstNode, usize)>)
    requires
        pos <= input@.len(),
    ensures
        match sp_horiz_rule(input@, pos as int) {
            SpecParse::Hit(n, j) => r matches Some((en, u)) && spec_ast(en) == n && u as int
                == j && pos < u <= input@.len(),
            SpecParse::Miss => r is None,
            SpecParse::Fatal(p) => false,
        },
{
    let dashes: Vec<char> = vec!['-', '-', '-', '-', '-'];
    proof {
        assert(dashes@ =~= seq!['-', '-', '-', '-', '-']);
    }
    if match_at(input, pos, &dashes) {
        Some((AstNode::HorizRule, pos + 5))
    } else {
        None
    }
}

/// Inline verbatim code.
fn inline_code(input: &Vec<char>, pos: usize) -> (r: Option<(BlockExprNode, usize)>)
    requires
        pos <= input@.len(),
    ensures
        match sp_inline_code(input@, pos as int) {
            SpecParse::Hit(n, j) => r matches Some((bn, u)) && spec_ben(bn) == n && u as int
                == j && pos < u <= input@.len(),
            SpecParse::Miss => r is None,
            SpecParse::Fatal(p) => false,
        },
{
    if !(pos < input.len() && (input[pos] == '=' || input[pos] == '~')) {
        return None;
    }
    let d = input[pos];
    match find_char_from(input, pos + 1, d) {
        None => None,
        Some(j) => {
            let content = string_range(input, pos + 1, j);
            Some((BlockExprNode::Code(content), j + 1))
        },
    }
}

/// A routing annotation `:tag:`.
fn internal_routing(input: &Vec<char>, pos: usize) -> (r: Option<(Route, usize)>)
    requires
        pos <= input@.len(),
    ensures
        match sp_internal_routing(input@, pos as int) {
            SpecParse::Hit(rt, j) => r matches Some((route, u)) && spec_route(route) == rt && u
                as int == j && pos < u <= input@.len(),
            SpecParse::Miss => r is None,
            SpecParse::Fatal(p) => false,
        },
{
    if !(pos < input.len() && input[pos] == ':') {
        return None;
    }
    let b = pos + 1;
    if b < input.len() && input[b] == '#' {
        let e = not_colon(input, b + 1);
        if e > b + 1 && e < input.len() {
            let tag = string_range(input, b + 1, e);
            Some((Route::Section(tag), e + 1))
        } else {
            None
        }
    } else if b < input.len() && input[b] == '@' {
        let nav: Vec<char> = vec!['n', 'a', 'v'];
        proof {
            assert(nav@ =~= seq!['n', 'a', 'v']);
        }
        if match_at(input, b + 1, &nav) && b + 4 < input.len() && input[b + 4] == ':' {
            Some((Route::RenderGroup(RenderGroup::Nav), b + 5))
        } else {
            None
        }
    } else {
        let e = not_colon(input, b);
        if e > b && e < input.len() {
            let tag = string_range(input, b, e);
            Some((Route::Page(tag), e + 1))
        } else {
            None
        }
    }
}

/// A routing annotation inside a heading title, with trailing whitespace.
fn header_routing(input: &Vec<char>, pos: usize) -> (r: Option<(BlockExprNode, usize)>)
    requires
        pos <= input@.len(),
    ensures
        match sp_header_routing(input@, pos as int) {
            SpecParse::Hit(n, j) => r matches Some((bn, u)) && spec_ben(bn) == n && u as int
                == j && pos < u <= input@.len(),
            SpecParse::Miss => r is None,
            SpecParse::Fatal(p) => false,
        },
{
    match internal_routing(input, pos) {
        None => None,
        Some((route, j)) => {
            let e = whitespaces(input, j);
            Some((BlockExprNode::HeaderRouting(route), e))
        },
    }
}

/// A list item marker.
fn list_item(input: &Vec<char>, pos: usize) -> (r: Option<(AstNode, usize)>)
    requires
        pos <= input@.len(),
    ensures
        match sp_list_item(input@, pos as int) {
            SpecParse::Hit(n, j) => r matches Some((an, u)) && spec_ast(an) == n && u as int
                == j && pos < u <= input@.len(),
            SpecParse::Miss => r is None,
            SpecParse::Fatal(p) => false,
        },
{
    let w = whitespaces(input, pos);
    if w < input.len() && (input[w] == '-' || input[w] == '+') && w + 1 < input.len()
        && inline_space(input[w + 1]) {
        let d: usize = w - pos;
        let lvl: u16 = (d % 0x10000) as u16;
        let children: Vec<crate::data::BackrefAstNode> = Vec::new();
        proof {
            assert(crate::spec_ast::spec_backs(children@) =~= Seq::<
                crate::spec_ast::SpecBack,
            >::empty());
        }
        Some((AstNode::ListItem(lvl, children), w + 2))
    } else {
        None
    }
}

/// A delimited span: start token, captured text, end token; the captured
/// text is re-parsed by the full inline grammar.
fn marker_chars(input: &Vec<char>, pos: usize, start: &Vec<char>, endp: &Vec<char>) -> (r:
    Result<Option<(BlockExprTree, usize)>, ParseError>)
    requires
        pos <= input@.len(),
        start@.len() >= 1,
        endp@.len() >= 1,
    ensures
        match sp_marker_span(input@, pos as int, start@, endp@) {
            SpecParse::Hit(t, j) => r matches Ok(Some((bet, u))) && spec_bens(bet@) == t && u
                as int == j && pos < u <= input@.len(),
            SpecParse::Miss => r matches Ok(o) && o is None,
            SpecParse::Fatal(p) => r matches Err(e) && e.at as int == p && e.at <= input@.len(),
        },
    decreases input@.len() - pos, 1int,
{
    if !match_at(input, pos, start) {
        return Ok(None);
    }
    let b = pos + start.len();
    match find_str_from(input, b, endp) {
        None => Ok(None),
        Some(j) => {
            proof {
                assert(advance(j as int, b as int, input@.len() - endp@.len()) == j as int);
            }
            let body = collect_range(input, b, j);
            match block_expr_nodes(&body, 0) {
                Err(e) => Err(ParseError { at: b + e.at }),
                Ok((bet, _sub_end)) => {
                    proof {
                        lemma_bens_index(bet@);
                    }
                    if bet.len() == 0 {
                        Err(ParseError { at: b })
                    } else {
                        Ok(Some((bet, j + endp.len())))
                    }
                },
            }
        },
    }
}

/// A bold span, `*...*`.
fn bold(input: &Vec<char>, pos: usize) -> (r: Result<
    Option<(BlockExprNode, usize)>,
    ParseError,
>)
    requires
        pos <= input@.len(),
    ensures
        match sp_marker_span(input@, pos as int, seq!['*'], seq!['*']) {
            SpecParse::Hit(t, j) => r matches Ok(Some((bn, u))) && spec_ben(bn)
                == SpecBen::Bold(t) && u as int == j && pos < u <= input@.len(),
            SpecParse::Miss => r matches Ok(o) && o is None,
            SpecParse::Fatal(p) => r matches Err(e) && e.at as int == p && e.at <= input@.len(),
        },
    decreases input@.len() - pos, 2int,
{
    let d: Vec<char> = vec!['*'];
    proof {
        assert(d@ =~= seq!['*']);
    }
    match marker_chars(input, pos, &d, &d) {
        Err(e) => Err(e),
        Ok(None) => Ok(None),
        Ok(Some((t, j))) => Ok(Some((BlockExprNode::Bold(t), j))),
    }
}

/// An italic span, `/.../`.
fn italic(input: &Vec<char>, pos: usize) -> (r: Result<
    Option<(BlockExprNode, usize)>,
    ParseError,
>)
    requires
        pos <= input@.len(),
    ensures
        match sp_marker_span(input@, pos as int, seq!['/'], seq!['/']) {
            SpecParse::Hit(t, j) => r matches Ok(Some((bn, u))) && spec_ben(bn)
                == SpecBen::Italic(t) && u as int == j && pos < u <= input@.len(),
            SpecParse::Miss => r matches Ok(o) && o is None,
            SpecParse::Fatal(p) => r matches Err(e) && e.at as int == p && e.at <= input@.len(),
        },
    decreases input@.len() - pos, 2int,
{
    let d: Vec<char> = vec!['/'];
    proof {
        assert(d@ =~= seq!['/']);
    }
    match marker_chars(input, pos, &d, &d) {
        Err(e) => Err(e),
        Ok(None) => Ok(None),
        Ok(Some((t, j))) => Ok(Some((BlockExprNode::Italic(t), j))),
    }
}

/// An underline span, `_..._`.
fn underline(input: &Vec<char>, pos: usize) -> (r: Result<
    Option<(BlockExprNode, usize)>,
    ParseError,
>)
    requires
        pos <= input@.len(),
    ensures
        match sp_marker_span(input@, pos as int, seq!['_'], seq!['_']) {
            SpecParse::Hit(t, j) => r matches Ok(Some((bn, u))) && spec_ben(bn)
                == SpecBen::Underline(t) && u as int == j && pos < u <= input@.len(),
            SpecParse::Miss => r matches Ok(o) && o is None,
            SpecParse::Fatal(p) => r matches Err(e) && e.at as int == p && e.at <= input@.len(),
        },
    decreases input@.len() - pos, 2int,
{
    let d: Vec<char> = vec!['_'];
    proof {
        assert(d@ =~= seq!['_']);
    }
    match marker_chars(input, pos, &d, &d) {
        Err(e) => Err(e),
        Ok(None) => Ok(None),
        Ok(Some((t, j))) => Ok(Some((BlockExprNode::Underline(t), j))),
    }
}

/// A strikethrough span, `+...+`.
fn strikethrough(input: &Vec<char>, pos: usize) -> (r: Result<
    Option<(BlockExprNode, usize)>,
    ParseError,
>)
    requires
        pos <= input@.len(),
    ensures
        match sp_marker_span(input@, pos as int, seq!['+'], seq!['+']) {
            SpecParse::Hit(t, j) => r matches Ok(Some((bn, u))) && spec_ben(bn)
                == SpecBen::Strikethrough(t) && u as int == j && pos < u <= input@.len(),
            SpecParse::Miss => r matches Ok(o) && o is None,
            SpecParse::Fatal(p) => r matches Err(e) && e.at as int == p && e.at <= input@.len(),
        },
    decreases input@.len() - pos, 2int,
{
    let d: Vec<char> = vec!['+'];
    proof {
        assert(d@ =~= seq!['+']);
    }
    match marker_chars(input, pos, &d, &d) {
        Err(e) => Err(e),
        Ok(None) => Ok(None),
        Ok(Some((t, j))) => Ok(Some((BlockExprNode::Strikethrough(t), j))),
    }
}

/// A non-breaking-space span, `nbsp&...&nbsp`.
fn nbsp(input: &Vec<char>, pos: usize) -> (r: Result<
    Option<(BlockExprNode, usize)>,
    ParseError,
>)
    requires
        pos <= input@.len(),
    ensures
        match sp_marker_span(
            input@,
            pos as int,
            seq!['n', 'b', 's', 'p', '&'],
            seq!['&', 'n', 'b', 's', 'p'],
        ) {
            SpecParse::Hit(t, j) => r matches Ok(Some((bn, u))) && spec_ben(bn)
                == SpecBen::NonbreakingSpace(t) && u as int == j && pos < u <= input@.len(),
            SpecParse::Miss => r matches Ok(o) && o is None,
            SpecParse::Fatal(p) => r matches Err(e) && e.at as int == p && e.at <= input@.len(),
        },
    decreases input@.len() - pos, 2int,
{
    let op: Vec<char> = vec!['n', 'b', 's', 'p', '&'];
    let cl: Vec<char> = vec!['&', 'n', 'b', 's', 'p'];
    proof {
        assert(op@ =~= seq!['n', 'b', 's', 'p', '&']);
        assert(cl@ =~= seq!['&', 'n', 'b', 's', 'p']);
    }
    match marker_chars(input, pos, &op, &cl) {
        Err(e) => Err(e),
        Ok(None) => Ok(None),
        Ok(Some((t, j))) => Ok(Some((BlockExprNode::NonbreakingSpace(t), j))),
    }
}

/// A float-toggle span, `ft&...&ft`.
fn float_toggle(input: &Vec<char>, pos: usize) -> (r: Result<
    Option<(BlockExprNode, usize)>,
    ParseError,
>)
    requires
        pos <= input@.len(),
    ensures
        match sp_marker_span(input@, pos as int, seq!['f', 't', '&'], seq!['&', 'f', 't']) {
            SpecParse::Hit(t, j) => r matches Ok(Some((bn, u))) && spec_ben(bn)
                == SpecBen::FloatToggle(t) && u as int == j && pos < u <= input@.len(),
            SpecParse::Miss => r matches Ok(o) && o is None,
            SpecParse::Fatal(p) => r matches Err(e) && e.at as int == p && e.at <= input@.len(),
        },
    decreases input@.len() - pos, 2int,
{
    let op: Vec<char> = vec!['f', 't', '&'];
    let cl: Vec<char> = vec!['&', 'f', 't'];
    proof {
        assert(op@ =~= seq!['f', 't', '&']);
        assert(cl@ =~= seq!['&', 'f', 't']);
    }
    match marker_chars(input, pos, &op, &cl) {
        Err(e) => Err(e),
        Ok(None) => Ok(None),
        Ok(Some((t, j))) => Ok(Some((BlockExprNode::FloatToggle(t), j))),
    }
}

/// A warning span, `warning&...&warning`.
fn warning(input: &Vec<char>, pos: usize) -> (r: Result<
    Option<(BlockExprNode, usize)>,
    ParseError,
>)
    requires
        pos <= input@.len(),
    ensures
        match sp_marker_span(
            input@,
            pos as int,
            seq!['w', 'a', 'r', 'n', 'i', 'n', 'g', '&'],
            seq!['&', 'w', 'a', 'r', 'n', 'i', 'n', 'g'],
        ) {
            SpecParse::Hit(t, j) => r matches Ok(Some((bn, u))) && spec_ben(bn)
                == SpecBen::Warning(t) && u as int == j && pos < u <= input@.len(),
            SpecParse::Miss => r matches Ok(o) && o is None,
            SpecParse::Fatal(p) => r matches Err(e) && e.at as int == p && e.at <= input@.len(),
        },
    decreases input@.len() - pos, 2int,
{
    let op: Vec<char> = vec!['w', 'a', 'r', 'n', 'i', 'n', 'g', '&'];
    let cl: Vec<char> = vec!['&', 'w', 'a', 'r', 'n', 'i', 'n', 'g'];
    proof {
        assert(op@ =~= seq!['w', 'a', 'r', 'n', 'i', 'n', 'g', '&']);
        assert(cl@ =~= seq!['&', 'w', 'a', 'r', 'n', 'i', 'n', 'g']);
    }
    match marker_chars(input, pos, &op, &cl) {
        Err(e) => Err(e),
        Ok(None) => Ok(None),
        Ok(Some((t, j))) => Ok(Some((BlockExprNode::Warning(t), j))),
    }
}

/// A link, `[[target]]` or `[[target][label]]`.
fn link(input: &Vec<char>, pos: usize) -> (r: Result<
    Option<(BlockExprNode, usize)>,
    ParseError,
>)
    requires
        pos <= input@.len(),
    ensures
        match sp_link(input@, pos as int) {
            SpecParse::Hit(n, j) => r matches Ok(Some((bn, u))) && spec_ben(bn) == n && u as int
                == j && pos < u <= input@.len(),
            SpecParse::Miss => r matches Ok(o) && o is None,
            SpecParse::Fatal(p) => r matches Err(e) && e.at as int == p && e.at <= input@.len(),
        },
    decreases input@.len() - pos, 1int,
{
    if !(pos < input.len() && input[pos] == '[' && pos + 1 < input.len() && input[pos + 1]
        == '[') {
        return Ok(None);
    }
    let b0 = pos + 2;
    let internal = b0 < input.len() && input[b0] == '*';
    let b = if internal {
        b0 + 1
    } else {
        b0
    };
    match find_char_from(input, b, ']') {
        None => Ok(None),
        Some(j) => {
            proof {
                assert(advance(j as int, b as int, input@.len() as int) == j as int);
            }
            let target_text = string_range(input, b, j);
            let target = if internal {
                LinkTarget::Heading { title: target_text }
            } else {
                LinkTarget::External(target_text)
            };
            let after = j + 1;
            if after < input.len() && input[after] == '[' {
                let b2 = after + 1;
                match find_char_from(input, b2, ']') {
                    None => Ok(None),
                    Some(j2) => {
                        proof {
                            assert(advance(j2 as int, b2 as int, input@.len() - 1) == j2 as int);
                        }
                        let body = collect_range(input, b2, j2);
                        match block_expr_nodes(&body, 0) {
                            Err(e) => Err(ParseError { at: b2 + e.at }),
                            Ok((bet, _sub_end)) => {
                                proof {
                                    lemma_bens_index(bet@);
                                }
                                if bet.len() == 0 {
                                    Err(ParseError { at: b2 })
                                } else if j2 + 1 < input.len() && input[j2 + 1] == ']' {
                                    Ok(
                                        Some(
                                            (BlockExprNode::Link(target, Some(bet)), j2 + 2),
                                        ),
                                    )
                                } else {
                                    Ok(None)
                                }
                            },
                        }
                    },
                }
            } else if after < input.len() && input[after] == ']' {
                Ok(Some((BlockExprNode::Link(target, None), after + 1)))
            } else {
                Ok(None)
            }
        },
    }
}

/// One inline markup node, by ordered choice among the inline parsers.
#[verifier::rlimit(60)]
fn block_expr_node(input: &Vec<char>, pos: usize) -> (r: Result<
    Option<(BlockExprNode, usize)>,
    ParseError,
>)
    requires
        pos <= input@.len(),
    ensures
        match sp_ben(input@, pos as int) {
            SpecParse::Hit(n, j) => r matches Ok(Some((bn, u))) && spec_ben(bn) == n && u as int
                == j && pos < u <= input@.len(),
            SpecParse::Miss => r matches Ok(o) && o is None,
            SpecParse::Fatal(p) => r matches Err(e) && e.at as int == p && e.at <= input@.len(),
        },
    decreases input@.len() - pos, 3int,
{
    match link(input, pos) {
        Err(e) => return Err(e),
        Ok(Some(x)) => return Ok(Some(x)),
        Ok(None) => {},
    }
    if let Some(x) = inline_code(input, pos) {
        return Ok(Some(x));
    }
    match nbsp(input, pos) {
        Err(e) => return Err(e),
        Ok(Some(x)) => return Ok(Some(x)),
        Ok(None) => {},
    }
    match float_toggle(input, pos) {
        Err(e) => return Err(e),
        Ok(Some(x)) => return Ok(Some(x)),
        Ok(None) => {},
    }
    match warning(input, pos) {
        Err(e) => return Err(e),
        Ok(Some(x)) => return Ok(Some(x)),
        Ok(None) => {},
    }
    match bold(input, pos) {
        Err(e) => return Err(e),
        Ok(Some(x)) => return Ok(Some(x)),
        Ok(None) => {},
    }
    match italic(input, pos) {
        Err(e) => return Err(e),
        Ok(Some(x)) => return Ok(Some(x)),
        Ok(None) => {},
    }
    match underline(input, pos) {
        Err(e) => return Err(e),
        Ok(Some(x)) => return Ok(Some(x)),
        Ok(None) => {},
    }
    match strikethrough(input, pos) {
        Err(e) => return Err(e),
        Ok(Some(x)) => return Ok(Some(x)),
        Ok(None) => {},
    }
    proof {
        assert(sp_link(input@, pos as int) is Miss);
        assert(sp_inline_code(input@, pos as int) is Miss);
        assert(sp_marker_span(
            input@,
            pos as int,
            seq!['n', 'b', 's', 'p', '&'],
            seq!['&', 'n', 'b', 's', 'p'],
        ) is Miss);
        assert(sp_marker_span(input@, pos as int, seq!['f', 't', '&'], seq!['&', 'f', 't'])
            is Miss);
        assert(sp_marker_span(
            input@,
            pos as int,
            seq!['w', 'a', 'r', 'n', 'i', 'n', 'g', '&'],
            seq!['&', 'w', 'a', 'r', 'n', 'i', 'n', 'g'],
        ) is Miss);
        assert(sp_marker_span(input@, pos as int, seq!['*'], seq!['*']) is Miss);
        assert(sp_marker_span(input@, pos as int, seq!['/'], seq!['/']) is Miss);
        assert(sp_marker_span(input@, pos as int, seq!['_'], seq!['_']) is Miss);
        assert(sp_marker_span(input@, pos as int, seq!['+'], seq!['+']) is Miss);
    }
    if pos < input.len() && !control_char(input[pos]) {
        let ch = char_at(input, pos);
        let node = BlockExprNode::Char(ch);
        proof {
            assert(spec_ben(node) == SpecBen::Char(ch));
            assert(sp_ben(input@, pos as int) == SpecParse::Hit(SpecBen::Char(ch), pos + 1));
        }
        return Ok(Some((node, pos + 1)));
    }
    Ok(None)
}

/// As many inline nodes as the grammar recognizes from `pos` on.
fn block_expr_nodes(input: &Vec<char>, pos: usize) -> (r: Result<
    (BlockExprTree, usize),
    ParseError,
>)
    requires
        pos <= input@.len(),
    ensures
        match sp_bens(input@, pos as int) {
            SpecParse::Hit(t, j) => r matches Ok((bet, u)) && spec_bens(bet@) == t && u as int
                == j && pos <= u <= input@.len() && (t.len() > 0 ==> pos < u),
            SpecParse::Miss => false,
            SpecParse::Fatal(p) => r matches Err(e) && e.at as int == p && e.at <= input@.len(),
        },
    decreases input@.len() - pos, 4int,
{
    proof {
        lemma_bens_no_miss(input@, pos as int);
    }
    let mut out: BlockExprTree = Vec::new();
    let mut cur: usize = pos;
    let mut done = false;
    proof {
        assert(spec_bens(out@) =~= Seq::<SpecBen>::empty());
        assert(prepend(spec_bens(out@), sp_bens(input@, cur as int)) == sp_bens(
            input@,
            pos as int,
        )) by {
            match sp_bens(input@, pos as int) {
                SpecParse::Hit(t, j) => {
                    assert(Seq::<SpecBen>::empty() + t =~= t);
                },
                _ => {},
            }
        }
    }
    while !done
        invariant
            pos <= cur <= input@.len(),
            out@.len() > 0 ==> pos < cur,
            sp_bens(input@, pos as int) == prepend(
                spec_bens(out@),
                sp_bens(input@, cur as int),
            ),
            done ==> sp_ben(input@, cur as int) is Miss,
        decreases input@.len() - cur + (if done {
            0int
        } else {
            1int
        }),
    {
        match block_expr_node(input, cur) {
            Err(e) => {
                proof {
                    lemma_bens_fatal(input@, cur as int, e.at as int);
                }
                return Err(e);
            },
            Ok(None) => {
                done = true;
            },
            Ok(Some((n, j))) => {
                proof {
                    lemma_bens_step(input@, cur as int, spec_ben(n), j as int);
                    lemma_prepend_assoc(
                        spec_bens(out@),
                        seq![spec_ben(n)],
                        sp_bens(input@, j as int),
                    );
                    assert(spec_bens(out@.push(n)) =~= spec_bens(out@) + seq![spec_ben(n)]) by {
                        assert(out@.push(n).drop_last() =~= out@);
                        assert(out@.push(n).last() == n);
                        assert(spec_bens(out@).push(spec_ben(n)) =~= spec_bens(out@) + seq![
                            spec_ben(n),
                        ]);
                    }
                }
                out.push(n);
                cur = j;
            },
        }
    }
    proof {
        lemma_bens_index(out@);
        lemma_bens_end(input@, cur as int);
        match sp_bens(input@, pos as int) {
            SpecParse::Hit(t, j) => {
                assert(spec_bens(out@) + Seq::<SpecBen>::empty() =~= spec_bens(out@));
            },
            _ => {},
        }
    }
    Ok((out, cur))
}


/// As many heading-title items as the grammar recognizes: routing
/// annotations first, then any inline node.
fn title_items(input: &Vec<char>, pos: usize) -> (r: Result<(BlockExprTree, usize), ParseError>)
    requires
        pos <= input@.len(),
    ensures
        match sp_title_items(input@, pos as int) {
            SpecParse::Hit(t, j) => r matches Ok((bet, u)) && spec_bens(bet@) == t && u as int
                == j && pos <= u <= input@.len(),
            SpecParse::Miss => false,
            SpecParse::Fatal(p) => r matches Err(e) && e.at as int == p && e.at <= input@.len(),
        },
{
    proof {
        lemma_title_items_no_miss(input@, pos as int);
    }
    let mut out: BlockExprTree = Vec::new();
    let mut cur: usize = pos;
    let mut done = false;
    proof {
        assert(spec_bens(out@) =~= Seq::<SpecBen>::empty());
        assert(prepend(spec_bens(out@), sp_title_items(input@, cur as int)) == sp_title_items(
            input@,
            pos as int,
        )) by {
            match sp_title_items(input@, pos as int) {
                SpecParse::Hit(t, j) => {
                    assert(Seq::<SpecBen>::empty() + t =~= t);
                },
                _ => {},
            }
        }
    }
    while !done
        invariant
            pos <= cur <= input@.len(),
            sp_title_items(input@, pos as int) == prepend(
                spec_bens(out@),
                sp_title_items(input@, cur as int),
            ),
            done ==> sp_header_routing(input@, cur as int) is Miss && sp_ben(
                input@,
                cur as int,
            ) is Miss,
        decreases input@.len() - cur + (if done {
            0int
        } else {
            1int
        }),
    {
        let step: Option<(BlockExprNode, usize)> = match header_routing(input, cur) {
            Some(x) => Some(x),
            None => {
                match block_expr_node(input, cur) {
                    Err(e) => {
                        proof {
                            lemma_title_fatal(input@, cur as int, e.at as int);
                        }
                        return Err(e);
                    },
                    Ok(o) => o,
                }
            },
        };
        match step {
            None => {
                done = true;
            },
            Some((n, j)) => {
                proof {
                    if sp_header_routing(input@, cur as int) is Hit {
                        lemma_title_step_routing(input@, cur as int, spec_ben(n), j as int);
                    } else {
                        lemma_title_step_ben(input@, cur as int, spec_ben(n), j as int);
                    }
                    lemma_prepend_assoc(
                        spec_bens(out@),
                        seq![spec_ben(n)],
                        sp_title_items(input@, j as int),
                    );
                    assert(spec_bens(out@.push(n)) =~= spec_bens(out@) + seq![spec_ben(n)]) by {
                        assert(out@.push(n).drop_last() =~= out@);
                        assert(out@.push(n).last() == n);
                        assert(spec_bens(out@).push(spec_ben(n)) =~= spec_bens(out@) + seq![
                            spec_ben(n),
                        ]);
                    }
                }
                out.push(n);
                cur = j;
            },
        }
    }
    proof {
        lemma_title_end(input@, cur as int);
        match sp_title_items(input@, pos as int) {
            SpecParse::Hit(t, j) => {
                assert(spec_bens(out@) + Seq::<SpecBen>::empty() =~= spec_bens(out@));
            },
            _ => {},
        }
    }
    Ok((out, cur))
}

/// A heading line: indentation, stars, then whitespace or a routing
/// annotation, then a non-empty title.
fn heading(input: &Vec<char>, pos: usize) -> (r: Result<
    Option<(AstNode, usize)>,
    ParseError,
>)
    requires
        pos <= input@.len(),
    ensures
        match sp_heading(input@, pos as int) {
            SpecParse::Hit(n, j) => r matches Ok(Some((an, u))) && spec_ast(an) == n && u as int
                == j && pos < u <= input@.len(),
            SpecParse::Miss => r matches Ok(o) && o is None,
            SpecParse::Fatal(p) => r matches Err(e) && e.at as int == p && e.at <= input@.len(),
        },
{
    let w = whitespaces(input, pos);
    let p = star_run(input, w);
    proof {
        assert(advance(ws_end(input@, pos as int), pos as int, input@.len() as int) == w as int);
        assert(advance(star_end(input@, w as int), w as int, input@.len() as int) == p as int);
    }
    if p <= w {
        return Ok(None);
    }
    let w2 = whitespaces(input, p);
    proof {
        assert(advance(ws_end(input@, p as int), p as int, input@.len() as int) == w2 as int);
    }
    if !(w2 > p || (p < input.len() && input[p] == ':')) {
        return Ok(None);
    }
    match title_items(input, w2) {
        Err(e) => Err(e),
        Ok((items, j)) => {
            proof {
                lemma_bens_index(items@);
            }
            if items.len() == 0 {
                return Ok(None);
            }
            if p - w > 0xffff {
                return Err(ParseError { at: w });
            }
            let level: u16 = (p - w) as u16;
            let children: Vec<crate::data::BackrefAstNode> = Vec::new();
            proof {
                assert(crate::spec_ast::spec_backs(children@) =~= Seq::<
                    crate::spec_ast::SpecBack,
                >::empty());
            }
            Ok(Some((AstNode::Heading { level, title: items, children, routing: None }, j)))
        },
    }
}

/// A run of inline content, as one paragraph-like node; the children of the
/// tree-shaping pass are not attached here.
fn ast_block_expr_node(input: &Vec<char>, pos: usize) -> (r: Result<
    Option<(AstNode, usize)>,
    ParseError,
>)
    requires
        pos <= input@.len(),
    ensures
        match sp_bens(input@, pos as int) {
            SpecParse::Hit(t, j) => if t.len() == 0 {
                r matches Ok(o) && o is None
            } else {
                r matches Ok(Some((an, u))) && spec_ast(an) == SpecAst::Block(
                    BlockType::Block,
                    t,
                ) && u as int == j && pos < u <= input@.len()
            },
            SpecParse::Miss => false,
            SpecParse::Fatal(p) => r matches Err(e) && e.at as int == p && e.at <= input@.len(),
        },
{
    match block_expr_nodes(input, pos) {
        Err(e) => Err(e),
        Ok((items, j)) => {
            proof {
                lemma_bens_index(items@);
            }
            if items.len() == 0 {
                Ok(None)
            } else {
                proof {
                    lemma_bens_no_miss(input@, pos as int);
                    if j as int == pos as int {
                        match sp_bens(input@, pos as int) {
                            SpecParse::Hit(t, jj) => {},
                            _ => {},
                        }
                    }
                }
                Ok(Some((AstNode::Block(BlockType::Block, items), j)))
            }
        },
    }
}

/// Requires the line ending after a matched statement; a statement without
/// one is a fatal error.
fn stmt_end(input: &Vec<char>, n: AstNode, j: usize) -> (r: Result<
    Option<(AstNode, usize)>,
    ParseError,
>)
    requires
        j <= input@.len(),
    ensures
        match sp_stmt_end(input@, spec_ast(n), j as int) {
            SpecParse::Hit(m, k) => r matches Ok(Some((an, u))) && spec_ast(an) == m && u as int
                == k && j < u <= input@.len(),
            SpecParse::Miss => false,
            SpecParse::Fatal(p) => r matches Err(e) && e.at as int == p && e.at <= input@.len(),
        },
{
    match linespace(input, j) {
        Some(k) => Ok(Some((n, k))),
        None => Err(ParseError { at: j }),
    }
}

/// One top-level node, by ordered choice among the statement parsers.
pub fn ast_node(input: &Vec<char>, pos: usize) -> (r: Result<
    Option<(AstNode, usize)>,
    ParseError,
>)
    requires
        pos <= input@.len(),
    ensures
        match sp_ast_node(input@, pos as int) {
            SpecParse::Hit(n, j) => r matches Ok(Some((an, u))) && spec_ast(an) == n && u as int
                == j && pos < u <= input@.len(),
            SpecParse::Miss => r matches Ok(o) && o is None,
            SpecParse::Fatal(p) => r matches Err(e) && e.at as int == p && e.at <= input@.len(),
        },
{
    match heading(input, pos) {
        Err(e) => return Err(e),
        Ok(Some((n, j))) => return stmt_end(input, n, j),
        Ok(None) => {},
    }
    if let Some((n, j)) = source_block(input, pos) {
        return stmt_end(input, n, j);
    }
    if let Some((n, j)) = directive(input, pos) {
        return stmt_end(input, n, j);
    }
    if let Some((n, j)) = horiz_rule(input, pos) {
        return stmt_end(input, n, j);
    }
    if let Some((n, j)) = list_item(input, pos) {
        return Ok(Some((n, j)));
    }
    match ast_block_expr_node(input, pos) {
        Err(e) => Err(e),
        Ok(Some((n, j))) => stmt_end(input, n, j),
        Ok(None) => Ok(None),
    }
}

/// The flat node stream of a whole document: blank and comment lines and
/// top-level nodes, in order, until neither is recognized; what follows the
/// last recognized node is not part of the stream.
#[verifier::rlimit(100)]
pub fn org_file(input: &Vec<char>) -> (r: Result<AbstractSyntaxTree, ParseError>)
    ensures
        match sp_org_file(input@) {
            SpecParse::Hit(t, j) => r matches Ok(v) && spec_asts(v@) == t,
            SpecParse::Miss => false,
            SpecParse::Fatal(p) => r matches Err(e) && e.at as int == p && e.at <= input@.len(),
        },
{
    proof {
        lemma_nodes_no_miss(input@, 0);
    }
    let mut out: AbstractSyntaxTree = Vec::new();
    let mut cur: usize = 0;
    let mut done = false;
    proof {
        assert(spec_asts(out@) =~= Seq::<SpecAst>::empty());
        assert(prepend(spec_asts(out@), sp_nodes(input@, cur as int)) == sp_nodes(input@, 0)) by {
            match sp_nodes(input@, 0) {
                SpecParse::Hit(t, j) => {
                    assert(Seq::<SpecAst>::empty() + t =~= t);
                },
                _ => {},
            }
        }
    }
    while !done
        invariant
            cur <= input@.len(),
            sp_nodes(input@, 0) == prepend(spec_asts(out@), sp_nodes(input@, cur as int)),
            done ==> sp_linespace(input@, cur as int) is None && sp_ast_node(
                input@,
                cur as int,
            ) is Miss,
        decreases input@.len() - cur + (if done {
            0int
        } else {
            1int
        }),
    {
        let step: Option<(AstNode, usize)> = match linespace(input, cur) {
            Some(j) => {
                let mut bet: BlockExprTree = Vec::new();
                bet.push(BlockExprNode::Linespace);
                let node = AstNode::Block(BlockType::Inline, bet);
                proof {
                    lemma_bens_index(bet@);
                    assert(bet@[0] == BlockExprNode::Linespace);
                    assert(spec_ben(BlockExprNode::Linespace) == SpecBen::Linespace);
                    assert(spec_bens(bet@) =~= seq![SpecBen::Linespace]);
                    assert(spec_ast(node) == linespace_node());
                    lemma_nodes_step_linespace(input@, cur as int, j as int);
                }
                Some((node, j))
            },
            None => {
                match ast_node(input, cur) {
                    Err(e) => {
                        proof {
                            lemma_nodes_fatal(input@, cur as int, e.at as int);
                        }
                        return Err(e);
                    },
                    Ok(o) => o,
                }
            },
        };
        match step {
            None => {
                done = true;
            },
            Some((n, j)) => {
                proof {
                    if !(sp_linespace(input@, cur as int) is Some) {
                        lemma_nodes_step_node(input@, cur as int, spec_ast(n), j as int);
                    }
                    lemma_prepend_assoc(
                        spec_asts(out@),
                        seq![spec_ast(n)],
                        sp_nodes(input@, j as int),
                    );
                    assert(spec_asts(out@.push(n)) =~= spec_asts(out@) + seq![spec_ast(n)]) by {
                        assert(out@.push(n).drop_last() =~= out@);
                        assert(out@.push(n).last() == n);
                        assert(spec_asts(out@).push(spec_ast(n)) =~= spec_asts(out@) + seq![
                            spec_ast(n),
                        ]);
                    }
                }
                out.push(n);
                cur = j;
            },
        }
    }
    proof {
        lemma_nodes_end(input@, cur as int);
        match sp_nodes(input@, 0) {
            SpecParse::Hit(t, j) => {
                assert(spec_asts(out@) + Seq::<SpecAst>::empty() =~= spec_asts(out@));
            },
            _ => {},
        }
    }
    Ok(out)
}

} // verus!
