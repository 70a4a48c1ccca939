//! The grammar, stated mathematically: one spec function per parser, each
//! taking the input and a position and saying exactly what is recognized
//! there, what node it yields, and where parsing continues.
//!
//! Alternatives are ordered; a `Miss` is recoverable and sends a caller to
//! its next alternative, while a `Fatal` aborts the whole parse (it arises
//! where a captured delimiter-span body fails to re-parse, and where a
//! matched statement is not terminated by a line ending).

use vstd::prelude::*;
use crate::chars::{alnum_class, is_control_char, is_inline_space};
use crate::data::{BlockType, RenderGroup};
use crate::spec_ast::{SpecAst, SpecBen, SpecDirective, SpecLinkTarget, SpecRoute};

verus! {

/// The outcome of one parser at one position: a value and the position
/// after it, a recoverable mismatch, or a fatal error at a position.
pub enum SpecParse<T> {
    Hit(T, int),
    Miss,
    Fatal(int),
}

/// Clamps a continuation position into `[lo, hi]`, so that recursion
/// measures are decreasing by construction; the grammar's positions are
/// proved to stay in range, making every clamp the identity.
pub open spec fn advance(j: int, lo: int, hi: int) -> int {
    if hi < lo {
        lo
    } else if j < lo {
        lo
    } else if j > hi {
        hi
    } else {
        j
    }
}

/// Whether `pat` occurs in `s` at position `i`.
pub open spec fn has_at(s: Seq<char>, i: int, pat: Seq<char>) -> bool {
    0 <= i && i + pat.len() <= s.len() && s.subrange(i, i + pat.len()) == pat
}

/// The end of the run of characters of class `cls` that starts at `i`.
pub open spec fn run_end(s: Seq<char>, i: int, cls: spec_fn(char) -> bool) -> int
    decreases s.len() - i,
{
    if 0 <= i < s.len() && cls(s[i]) {
        run_end(s, i + 1, cls)
    } else {
        i
    }
}

/// The first position at or after `i` where `c` stands, if any.
pub open spec fn find_char(s: Seq<char>, i: int, c: char) -> Option<int>
    decreases s.len() - i,
{
    if i < 0 || i >= s.len() {
        None
    } else if s[i] == c {
        Some(i)
    } else {
        find_char(s, i + 1, c)
    }
}

/// The first position at or after `i` where `pat` occurs, if any.
pub open spec fn find_str(s: Seq<char>, i: int, pat: Seq<char>) -> Option<int>
    decreases s.len() - i + 1,
{
    if i < 0 || i + pat.len() > s.len() {
        None
    } else if s.subrange(i, i + pat.len()) == pat {
        Some(i)
    } else {
        find_str(s, i + 1, pat)
    }
}

/// End of an inline-whitespace run.
pub open spec fn ws_end(s: Seq<char>, i: int) -> int {
    run_end(s, i, |c: char| is_inline_space(c))
}

/// End of a run that stays within the line.
pub open spec fn line_rest_end(s: Seq<char>, i: int) -> int {
    run_end(s, i, |c: char| c != '\n')
}

/// End of a run of characters other than the colon.
pub open spec fn not_colon_end(s: Seq<char>, i: int) -> int {
    run_end(s, i, |c: char| c != ':')
}

/// End of a run of non-control characters.
pub open spec fn value_end(s: Seq<char>, i: int) -> int {
    run_end(s, i, |c: char| !is_control_char(c))
}

/// End of a run of alphanumeric characters.
pub open spec fn lang_end(s: Seq<char>, i: int) -> int {
    run_end(s, i, |c: char| alnum_class(c))
}

/// End of a run of stars.
pub open spec fn star_end(s: Seq<char>, i: int) -> int {
    run_end(s, i, |c: char| c == '*')
}

/// A blank line or a comment line: a bare newline, or `# ` followed by the
/// rest of the line. Yields the position after what was consumed.
pub open spec fn sp_linespace(s: Seq<char>, i: int) -> Option<int> {
    if 0 <= i < s.len() && s[i] == '\n' {
        Some(i + 1)
    } else if has_at(s, i, seq!['#', ' ']) {
        Some(line_rest_end(s, i + 2))
    } else {
        None
    }
}

/// A directive line `#+KEY: value`: the key runs to the first colon, the
/// value is the longest non-empty run of non-control characters after the
/// whitespace that follows the colon.
pub open spec fn sp_directive(s: Seq<char>, i: int) -> SpecParse<(Seq<char>, Seq<char>)> {
    if has_at(s, i, seq!['#', '+']) {
        let ke = not_colon_end(s, i + 2);
        if ke < s.len() {
            let vs = ws_end(s, ke + 1);
            let ve = value_end(s, vs);
            if ve > vs {
                SpecParse::Hit((s.subrange(i + 2, ke), s.subrange(vs, ve)), ve)
            } else {
                SpecParse::Miss
            }
        } else {
            SpecParse::Miss
        }
    } else {
        SpecParse::Miss
    }
}

/// The opening fence of a source block.
pub open spec fn begin_src() -> Seq<char> {
    seq!['#', '+', 'B', 'E', 'G', 'I', 'N', '_', 'S', 'R', 'C']
}

/// The closing fence of a source block.
pub open spec fn end_src() -> Seq<char> {
    seq!['#', '+', 'E', 'N', 'D', '_', 'S', 'R', 'C']
}

/// The language tag a source block carries when it names none.
pub open spec fn plain_text() -> Seq<char> {
    seq!['P', 'l', 'a', 'i', 'n', ' ', 'T', 'e', 'x', 't']
}

/// A fenced source block: fence, optional alphanumeric language tag, a
/// newline, then everything up to the closing fence, kept verbatim.
pub open spec fn sp_source_block(s: Seq<char>, i: int) -> SpecParse<SpecAst> {
    if has_at(s, i, begin_src()) {
        let ls = ws_end(s, i + 11);
        let le = lang_end(s, ls);
        if le < s.len() && s[le] == '\n' {
            match find_str(s, le + 1, end_src()) {
                Some(m) => SpecParse::Hit(
                    SpecAst::SourceBlock {
                        language: if le > ls {
                            s.subrange(ls, le)
                        } else {
                            plain_text()
                        },
                        code: s.subrange(le + 1, m),
                    },
                    m + 9,
                ),
                None => SpecParse::Miss,
            }
        } else {
            SpecParse::Miss
        }
    } else {
        SpecParse::Miss
    }
}

/// A horizontal rule: exactly five dashes.
pub open spec fn sp_horiz_rule(s: Seq<char>, i: int) -> SpecParse<SpecAst> {
    if has_at(s, i, seq!['-', '-', '-', '-', '-']) {
        SpecParse::Hit(SpecAst::HorizRule, i + 5)
    } else {
        SpecParse::Miss
    }
}

/// Inline verbatim code, `=...=` or `~...~`; the delimiter in use may not
/// occur inside, and the content is kept as it stands.
pub open spec fn sp_inline_code(s: Seq<char>, i: int) -> SpecParse<SpecBen> {
    if 0 <= i < s.len() && (s[i] == '=' || s[i] == '~') {
        match find_char(s, i + 1, s[i]) {
            Some(j) => SpecParse::Hit(SpecBen::Code(s.subrange(i + 1, j)), j + 1),
            None => SpecParse::Miss,
        }
    } else {
        SpecParse::Miss
    }
}

/// A routing annotation `:tag:`; the tag's first character selects a
/// section anchor (`#`), the navigation render group (`@nav`), or a page
/// path (anything else).
pub open spec fn sp_internal_routing(s: Seq<char>, i: int) -> SpecParse<SpecRoute> {
    if 0 <= i < s.len() && s[i] == ':' {
        let b = i + 1;
        if b < s.len() && s[b] == '#' {
            let e = not_colon_end(s, b + 1);
            if e > b + 1 && e < s.len() {
                SpecParse::Hit(SpecRoute::Section(s.subrange(b + 1, e)), e + 1)
            } else {
                SpecParse::Miss
            }
        } else if b < s.len() && s[b] == '@' {
            if has_at(s, b + 1, seq!['n', 'a', 'v']) && b + 4 < s.len() && s[b + 4] == ':' {
                SpecParse::Hit(SpecRoute::RenderGroup(RenderGroup::Nav), b + 5)
            } else {
                SpecParse::Miss
            }
        } else {
            let e = not_colon_end(s, b);
            if e > b && e < s.len() {
                SpecParse::Hit(SpecRoute::Page(s.subrange(b, e)), e + 1)
            } else {
                SpecParse::Miss
            }
        }
    } else {
        SpecParse::Miss
    }
}

/// A routing annotation inside a heading title, with the whitespace that
/// follows it.
pub open spec fn sp_header_routing(s: Seq<char>, i: int) -> SpecParse<SpecBen> {
    match sp_internal_routing(s, i) {
        SpecParse::Hit(route, j) => SpecParse::Hit(SpecBen::HeaderRouting(route), ws_end(s, j)),
        SpecParse::Miss => SpecParse::Miss,
        SpecParse::Fatal(p) => SpecParse::Fatal(p),
    }
}

/// A list item marker: indentation, `-` or `+`, and one whitespace
/// character; the indentation width is the nesting key. Its children are
/// attached by the tree-building pass.
pub open spec fn sp_list_item(s: Seq<char>, i: int) -> SpecParse<SpecAst> {
    let w = ws_end(s, i);
    if w < s.len() && (s[w] == '-' || s[w] == '+') && w + 1 < s.len() && is_inline_space(
        s[w + 1],
    ) {
        SpecParse::Hit(SpecAst::ListItem((((w - i) % 0x10000) as u16), Seq::empty()), w + 2)
    } else {
        SpecParse::Miss
    }
}

/// One inline markup node: a link, inline code, a delimiter span, or — as
/// the alternative of last resort — any single non-control character.
pub open spec fn sp_ben(s: Seq<char>, i: int) -> SpecParse<SpecBen>
    decreases s.len() - i, 3int,
{
    match sp_link(s, i) {
        SpecParse::Hit(n, j) => SpecParse::Hit(n, j),
        SpecParse::Fatal(p) => SpecParse::Fatal(p),
        SpecParse::Miss => match sp_inline_code(s, i) {
            SpecParse::Hit(n, j) => SpecParse::Hit(n, j),
            SpecParse::Fatal(p) => SpecParse::Fatal(p),
            SpecParse::Miss => match sp_marker_span(
                s,
                i,
                seq!['n', 'b', 's', 'p', '&'],
                seq!['&', 'n', 'b', 's', 'p'],
            ) {
                SpecParse::Hit(t, j) => SpecParse::Hit(SpecBen::NonbreakingSpace(t), j),
                SpecParse::Fatal(p) => SpecParse::Fatal(p),
                SpecParse::Miss => match sp_marker_span(
                    s,
                    i,
                    seq!['f', 't', '&'],
                    seq!['&', 'f', 't'],
                ) {
                    SpecParse::Hit(t, j) => SpecParse::Hit(SpecBen::FloatToggle(t), j),
                    SpecParse::Fatal(p) => SpecParse::Fatal(p),
                    SpecParse::Miss => match sp_marker_span(
                        s,
                        i,
                        seq!['w', 'a', 'r', 'n', 'i', 'n', 'g', '&'],
                        seq!['&', 'w', 'a', 'r', 'n', 'i', 'n', 'g'],
                    ) {
                        SpecParse::Hit(t, j) => SpecParse::Hit(SpecBen::Warning(t), j),
                        SpecParse::Fatal(p) => SpecParse::Fatal(p),
                        SpecParse::Miss => match sp_marker_span(s, i, seq!['*'], seq!['*']) {
                            SpecParse::Hit(t, j) => SpecParse::Hit(SpecBen::Bold(t), j),
                            SpecParse::Fatal(p) => SpecParse::Fatal(p),
                            SpecParse::Miss => match sp_marker_span(s, i, seq!['/'], seq!['/']) {
                                SpecParse::Hit(t, j) => SpecParse::Hit(SpecBen::Italic(t), j),
                                SpecParse::Fatal(p) => SpecParse::Fatal(p),
                                SpecParse::Miss => match sp_marker_span(
                                    s,
                                    i,
                                    seq!['_'],
                                    seq!['_'],
                                ) {
                                    SpecParse::Hit(t, j) => SpecParse::Hit(
                                        SpecBen::Underline(t),
                                        j,
                                    ),
                                    SpecParse::Fatal(p) => SpecParse::Fatal(p),
                                    SpecParse::Miss => match sp_marker_span(
                                        s,
                                        i,
                                        seq!['+'],
                                        seq!['+'],
                                    ) {
                                        SpecParse::Hit(t, j) => SpecParse::Hit(
                                            SpecBen::Strikethrough(t),
                                            j,
                                        ),
                                        SpecParse::Fatal(p) => SpecParse::Fatal(p),
                                        SpecParse::Miss => if 0 <= i < s.len()
                                            && !is_control_char(s[i]) {
                                            SpecParse::Hit(SpecBen::Char(s[i]), i + 1)
                                        } else {
                                            SpecParse::Miss
                                        },
                                    },
                                },
                            },
                        },
                    },
                },
            },
        },
    }
}

/// A delimited span: the start token, everything up to the end token, and
/// the end token. The captured text is re-parsed by the full inline
/// grammar; its failure to yield at least one node is fatal.
pub open spec fn sp_marker_span(
    s: Seq<char>,
    i: int,
    start: Seq<char>,
    end: Seq<char>,
) -> SpecParse<Seq<SpecBen>>
    decreases s.len() - i, 2int,
{
    if start.len() < 1 || end.len() < 1 || !has_at(s, i, start) {
        SpecParse::Miss
    } else {
        let b = i + start.len();
        match find_str(s, b, end) {
            None => SpecParse::Miss,
            Some(j) => {
                let jj = advance(j, b, s.len() - end.len());
                let body = s.subrange(b, jj);
                match sp_bens(body, 0) {
                    SpecParse::Fatal(p) => SpecParse::Fatal(b + p),
                    SpecParse::Hit(nodes, _) => if nodes.len() == 0 {
                        SpecParse::Fatal(b)
                    } else {
                        SpecParse::Hit(nodes, jj + end.len())
                    },
                    SpecParse::Miss => SpecParse::Fatal(b),
                }
            },
        }
    }
}

/// A link, `[[target]]` or `[[target][label]]`; a `*` opening the target
/// marks a same-document heading reference, and the label, when present, is
/// re-parsed by the full inline grammar.
pub open spec fn sp_link(s: Seq<char>, i: int) -> SpecParse<SpecBen>
    decreases s.len() - i, 2int,
{
    if 0 <= i && i + 1 < s.len() && s[i] == '[' && s[i + 1] == '[' {
        let b0 = i + 2;
        let internal = b0 < s.len() && s[b0] == '*';
        let b = if internal {
            b0 + 1
        } else {
            b0
        };
        match find_char(s, b, ']') {
            None => SpecParse::Miss,
            Some(j0) => {
                let j = advance(j0, b, s.len() as int);
                let target = if internal {
                    SpecLinkTarget::Heading { title: s.subrange(b, j) }
                } else {
                    SpecLinkTarget::External(s.subrange(b, j))
                };
                let after = j + 1;
                if after < s.len() && s[after] == '[' {
                    let b2 = after + 1;
                    match find_char(s, b2, ']') {
                        None => SpecParse::Miss,
                        Some(j2) => {
                            let jj2 = advance(j2, b2, s.len() - 1);
                            let body = s.subrange(b2, jj2);
                            match sp_bens(body, 0) {
                                SpecParse::Fatal(p) => SpecParse::Fatal(b2 + p),
                                SpecParse::Hit(nodes, _) => if nodes.len() == 0 {
                                    SpecParse::Fatal(b2)
                                } else if jj2 + 1 < s.len() && s[jj2 + 1] == ']' {
                                    SpecParse::Hit(SpecBen::Link(target, Some(nodes)), jj2 + 2)
                                } else {
                                    SpecParse::Miss
                                },
                                SpecParse::Miss => SpecParse::Fatal(b2),
                            }
                        },
                    }
                } else if after < s.len() && s[after] == ']' {
                    SpecParse::Hit(SpecBen::Link(target, None), after + 1)
                } else {
                    SpecParse::Miss
                }
            },
        }
    } else {
        SpecParse::Miss
    }
}

/// As many inline nodes as the grammar recognizes from `i` on; stops,
/// without failing, at the first position where none is recognized.
pub open spec fn sp_bens(s: Seq<char>, i: int) -> SpecParse<Seq<SpecBen>>
    decreases s.len() - i, 4int,
{
    if i >= s.len() {
        SpecParse::Hit(Seq::empty(), i)
    } else {
    match sp_ben(s, i) {
        SpecParse::Fatal(p) => SpecParse::Fatal(p),
        SpecParse::Miss => SpecParse::Hit(Seq::empty(), i),
        SpecParse::Hit(n, j) => {
            let j2 = advance(j, i + 1, s.len() as int);
            match sp_bens(s, j2) {
                SpecParse::Fatal(p) => SpecParse::Fatal(p),
                SpecParse::Hit(rest, k) => SpecParse::Hit(seq![n] + rest, k),
                SpecParse::Miss => SpecParse::Miss,
            }
        },
    }
    }
}

/// As many heading-title items as the grammar recognizes: routing
/// annotations are recognized here and nowhere else, and any inline node
/// follows.
pub open spec fn sp_title_items(s: Seq<char>, i: int) -> SpecParse<Seq<SpecBen>>
    decreases s.len() - i, 5int,
{
    if i >= s.len() {
        SpecParse::Hit(Seq::empty(), i)
    } else {
    match sp_header_routing(s, i) {
        SpecParse::Hit(n, j) => {
            let j2 = advance(j, i + 1, s.len() as int);
            match sp_title_items(s, j2) {
                SpecParse::Fatal(p) => SpecParse::Fatal(p),
                SpecParse::Hit(rest, k) => SpecParse::Hit(seq![n] + rest, k),
                SpecParse::Miss => SpecParse::Miss,
            }
        },
        SpecParse::Fatal(p) => SpecParse::Fatal(p),
        SpecParse::Miss => match sp_ben(s, i) {
            SpecParse::Fatal(p) => SpecParse::Fatal(p),
            SpecParse::Miss => SpecParse::Hit(Seq::empty(), i),
            SpecParse::Hit(n, j) => {
                let j2 = advance(j, i + 1, s.len() as int);
                match sp_title_items(s, j2) {
                    SpecParse::Fatal(p) => SpecParse::Fatal(p),
                    SpecParse::Hit(rest, k) => SpecParse::Hit(seq![n] + rest, k),
                    SpecParse::Miss => SpecParse::Miss,
                }
            },
        },
    }
    }
}

/// A heading line: optional indentation, a run of stars giving the level,
/// then either whitespace or a routing annotation, then a non-empty title.
pub open spec fn sp_heading(s: Seq<char>, i: int) -> SpecParse<SpecAst>
    decreases s.len() - i, 6int,
{
    let w = advance(ws_end(s, i), i, s.len() as int);
    let p = advance(star_end(s, w), w, s.len() as int);
    if p > w {
        let w2 = advance(ws_end(s, p), p, s.len() as int);
        if w2 > p || (p < s.len() && s[p] == ':') {
            match sp_title_items(s, w2) {
                SpecParse::Fatal(q) => SpecParse::Fatal(q),
                SpecParse::Miss => SpecParse::Miss,
                SpecParse::Hit(items, j) => if items.len() == 0 {
                    SpecParse::Miss
                } else if p - w > 0xffff {
                    SpecParse::Fatal(w)
                } else {
                    SpecParse::Hit(
                        SpecAst::Heading {
                            level: (p - w) as u16,
                            title: items,
                            children: Seq::empty(),
                            routing: None,
                        },
                        j,
                    )
                },
            }
        } else {
            SpecParse::Miss
        }
    } else {
        SpecParse::Miss
    }
}

/// A matched statement must be terminated by a blank or comment line; a
/// statement that is not is a fatal error, as the grammar has committed to
/// it.
pub open spec fn sp_stmt_end(s: Seq<char>, n: SpecAst, j: int) -> SpecParse<SpecAst> {
    match sp_linespace(s, j) {
        Some(k) => SpecParse::Hit(n, k),
        None => SpecParse::Fatal(j),
    }
}

/// One top-level node: a heading, source block, directive or horizontal
/// rule (each terminated by a line ending), a list-item marker, or a run of
/// inline content.
pub open spec fn sp_ast_node(s: Seq<char>, i: int) -> SpecParse<SpecAst>
    decreases s.len() - i, 7int,
{
    match sp_heading(s, i) {
        SpecParse::Fatal(p) => SpecParse::Fatal(p),
        SpecParse::Hit(n, j) => sp_stmt_end(s, n, j),
        SpecParse::Miss => match sp_source_block(s, i) {
            SpecParse::Fatal(p) => SpecParse::Fatal(p),
            SpecParse::Hit(n, j) => sp_stmt_end(s, n, j),
            SpecParse::Miss => match sp_directive(s, i) {
                SpecParse::Fatal(p) => SpecParse::Fatal(p),
                SpecParse::Hit((k, v), j) => sp_stmt_end(
                    s,
                    SpecAst::Directive(SpecDirective::Raw(k, v)),
                    j,
                ),
                SpecParse::Miss => match sp_horiz_rule(s, i) {
                    SpecParse::Fatal(p) => SpecParse::Fatal(p),
                    SpecParse::Hit(n, j) => sp_stmt_end(s, n, j),
                    SpecParse::Miss => match sp_list_item(s, i) {
                        SpecParse::Fatal(p) => SpecParse::Fatal(p),
                        SpecParse::Hit(n, j) => SpecParse::Hit(n, j),
                        SpecParse::Miss => match sp_bens(s, i) {
                            SpecParse::Fatal(p) => SpecParse::Fatal(p),
                            SpecParse::Miss => SpecParse::Miss,
                            SpecParse::Hit(items, j) => if items.len() == 0 {
                                SpecParse::Miss
                            } else {
                                sp_stmt_end(s, SpecAst::Block(BlockType::Block, items), j)
                            },
                        },
                    },
                },
            },
        },
    }
}

/// The node a blank or comment line contributes to the flat stream.
pub open spec fn linespace_node() -> SpecAst {
    SpecAst::Block(BlockType::Inline, seq![SpecBen::Linespace])
}

/// The flat node stream of a whole document from position `i` on: blank
/// and comment lines and top-level nodes, in order, until neither is
/// recognized.
pub open spec fn sp_nodes(s: Seq<char>, i: int) -> SpecParse<Seq<SpecAst>>
    decreases s.len() - i, 8int,
{
    if i >= s.len() {
        SpecParse::Hit(Seq::empty(), i)
    } else {
    match sp_linespace(s, i) {
        Some(j) => {
            let j2 = advance(j, i + 1, s.len() as int);
            match sp_nodes(s, j2) {
                SpecParse::Fatal(p) => SpecParse::Fatal(p),
                SpecParse::Hit(rest, k) => SpecParse::Hit(seq![linespace_node()] + rest, k),
                SpecParse::Miss => SpecParse::Miss,
            }
        },
        None => match sp_ast_node(s, i) {
            SpecParse::Fatal(p) => SpecParse::Fatal(p),
            SpecParse::Miss => SpecParse::Hit(Seq::empty(), i),
            SpecParse::Hit(n, j) => {
                let j2 = advance(j, i + 1, s.len() as int);
                match sp_nodes(s, j2) {
                    SpecParse::Fatal(p) => SpecParse::Fatal(p),
                    SpecParse::Hit(rest, k) => SpecParse::Hit(seq![n] + rest, k),
                    SpecParse::Miss => SpecParse::Miss,
                }
            },
        },
    }
    }
}

/// The flat node stream of a whole document.
pub open spec fn sp_org_file(s: Seq<char>) -> SpecParse<Seq<SpecAst>> {
    sp_nodes(s, 0)
}


/// Joins already-parsed nodes onto the outcome of the rest of a repetition.
pub open spec fn prepend<T>(pre: Seq<T>, o: SpecParse<Seq<T>>) -> SpecParse<Seq<T>> {
    match o {
        SpecParse::Hit(t, j) => SpecParse::Hit(pre + t, j),
        SpecParse::Miss => SpecParse::Miss,
        SpecParse::Fatal(p) => SpecParse::Fatal(p),
    }
}

/// Bounds and meaning of a within-the-line run.
pub proof fn lemma_line_rest_end(s: Seq<char>, i: int)
    requires
        0 <= i <= s.len(),
    ensures
        i <= line_rest_end(s, i) <= s.len(),
        forall|k: int| i <= k < line_rest_end(s, i) ==> s[k] != '\n',
        line_rest_end(s, i) < s.len() ==> s[line_rest_end(s, i)] == '\n',
    decreases s.len() - i,
{
    if i < s.len() && s[i] != '\n' {
        lemma_line_rest_end(s, i + 1);
    }
}

/// What a character search returns: the first occurrence, or none at all.
pub proof fn lemma_find_char(s: Seq<char>, i: int, c: char)
    requires
        0 <= i,
    ensures
        match find_char(s, i, c) {
            Some(j) => i <= j < s.len() && s[j] == c && (forall|k: int|
                i <= k < j ==> s[k] != c),
            None => forall|k: int| i <= k < s.len() ==> s[k] != c,
        },
    decreases s.len() - i,
{
    if i < s.len() && s[i] != c {
        lemma_find_char(s, i + 1, c);
    }
}

/// A repetition of inline nodes never reports a recoverable mismatch.
pub proof fn lemma_bens_no_miss(s: Seq<char>, i: int)
    ensures
        !(sp_bens(s, i) is Miss),
    decreases s.len() - i, 9int,
{
    if i < s.len() {
        match sp_ben(s, i) {
            SpecParse::Hit(n, j) => lemma_bens_no_miss(s, advance(j, i + 1, s.len() as int)),
            _ => {}
        }
    }
}

/// A repetition of title items never reports a recoverable mismatch.
pub proof fn lemma_title_items_no_miss(s: Seq<char>, i: int)
    ensures
        !(sp_title_items(s, i) is Miss),
    decreases s.len() - i, 9int,
{
    if i < s.len() {
        match sp_header_routing(s, i) {
            SpecParse::Hit(n, j) => lemma_title_items_no_miss(
                s,
                advance(j, i + 1, s.len() as int),
            ),
            _ => {
                match sp_ben(s, i) {
                    SpecParse::Hit(n, j) => lemma_title_items_no_miss(
                        s,
                        advance(j, i + 1, s.len() as int),
                    ),
                    _ => {}
                }
            }
        }
    }
}

/// The flat document stream never reports a recoverable mismatch.
pub proof fn lemma_nodes_no_miss(s: Seq<char>, i: int)
    ensures
        !(sp_nodes(s, i) is Miss),
    decreases s.len() - i, 9int,
{
    if i < s.len() {
        match sp_linespace(s, i) {
            Some(j) => lemma_nodes_no_miss(s, advance(j, i + 1, s.len() as int)),
            None => {
                match sp_ast_node(s, i) {
                    SpecParse::Hit(n, j) => lemma_nodes_no_miss(
                        s,
                        advance(j, i + 1, s.len() as int),
                    ),
                    _ => {}
                }
            }
        }
    }
}


/// Joining is associative with sequence concatenation.
pub proof fn lemma_prepend_assoc<T>(a: Seq<T>, b: Seq<T>, o: SpecParse<Seq<T>>)
    ensures
        prepend(a, prepend(b, o)) == prepend(a + b, o),
{
    match o {
        SpecParse::Hit(t, j) => {
            assert(a + (b + t) =~= (a + b) + t);
        },
        _ => {},
    }
}

/// One step of the flat document stream: a blank or comment line.
pub proof fn lemma_nodes_step_linespace(s: Seq<char>, i: int, j: int)
    requires
        0 <= i,
        i < j <= s.len(),
        sp_linespace(s, i) == Some(j),
    ensures
        sp_nodes(s, i) == prepend(seq![linespace_node()], sp_nodes(s, j)),
{
    lemma_nodes_no_miss(s, advance(j, i + 1, s.len() as int));
    assert(advance(j, i + 1, s.len() as int) == j);
}

/// One step of the flat document stream: a top-level node.
pub proof fn lemma_nodes_step_node(s: Seq<char>, i: int, n: SpecAst, j: int)
    requires
        0 <= i,
        i < j <= s.len(),
        sp_linespace(s, i) is None,
        sp_ast_node(s, i) == SpecParse::Hit(n, j),
    ensures
        sp_nodes(s, i) == prepend(seq![n], sp_nodes(s, j)),
{
    lemma_nodes_no_miss(s, advance(j, i + 1, s.len() as int));
    assert(advance(j, i + 1, s.len() as int) == j);
}

/// The flat document stream fails exactly where its node parser does.
pub proof fn lemma_nodes_fatal(s: Seq<char>, i: int, p: int)
    requires
        0 <= i <= s.len(),
        sp_linespace(s, i) is None,
        sp_ast_node(s, i) == SpecParse::<SpecAst>::Fatal(p),
    ensures
        sp_nodes(s, i) == SpecParse::<Seq<SpecAst>>::Fatal(p),
{
}

/// The flat document stream ends where neither a line nor a node is
/// recognized.
pub proof fn lemma_nodes_end(s: Seq<char>, i: int)
    requires
        0 <= i <= s.len(),
        sp_linespace(s, i) is None,
        sp_ast_node(s, i) is Miss,
    ensures
        sp_nodes(s, i) == SpecParse::Hit(Seq::<SpecAst>::empty(), i),
{
}


/// One step of a title: a routing annotation.
pub proof fn lemma_title_step_routing(s: Seq<char>, i: int, n: SpecBen, j: int)
    requires
        0 <= i,
        i < j <= s.len(),
        sp_header_routing(s, i) == SpecParse::<SpecBen>::Hit(n, j),
    ensures
        sp_title_items(s, i) == prepend(seq![n], sp_title_items(s, j)),
{
    lemma_title_items_no_miss(s, advance(j, i + 1, s.len() as int));
    assert(advance(j, i + 1, s.len() as int) == j);
}

/// One step of a title: an inline node.
pub proof fn lemma_title_step_ben(s: Seq<char>, i: int, n: SpecBen, j: int)
    requires
        0 <= i,
        i < j <= s.len(),
        sp_header_routing(s, i) is Miss,
        sp_ben(s, i) == SpecParse::<SpecBen>::Hit(n, j),
    ensures
        sp_title_items(s, i) == prepend(seq![n], sp_title_items(s, j)),
{
    lemma_title_items_no_miss(s, advance(j, i + 1, s.len() as int));
    assert(advance(j, i + 1, s.len() as int) == j);
}

/// A title fails exactly where its item parser does.
pub proof fn lemma_title_fatal(s: Seq<char>, i: int, p: int)
    requires
        0 <= i <= s.len(),
        sp_header_routing(s, i) is Miss,
        sp_ben(s, i) == SpecParse::<SpecBen>::Fatal(p),
    ensures
        sp_title_items(s, i) == SpecParse::<Seq<SpecBen>>::Fatal(p),
{
}

/// A title ends where neither a routing annotation nor an inline node is
/// recognized.
pub proof fn lemma_title_end(s: Seq<char>, i: int)
    requires
        0 <= i <= s.len(),
        sp_header_routing(s, i) is Miss,
        sp_ben(s, i) is Miss,
    ensures
        sp_title_items(s, i) == SpecParse::<Seq<SpecBen>>::Hit(Seq::<SpecBen>::empty(), i),
{
}


/// One step of an inline repetition.
pub proof fn lemma_bens_step(s: Seq<char>, i: int, n: SpecBen, j: int)
    requires
        0 <= i,
        i < j <= s.len(),
        sp_ben(s, i) == SpecParse::<SpecBen>::Hit(n, j),
    ensures
        sp_bens(s, i) == prepend(seq![n], sp_bens(s, j)),
{
    lemma_bens_no_miss(s, advance(j, i + 1, s.len() as int));
    assert(advance(j, i + 1, s.len() as int) == j);
}

/// An inline repetition fails exactly where its node parser does.
pub proof fn lemma_bens_fatal(s: Seq<char>, i: int, p: int)
    requires
        0 <= i <= s.len(),
        sp_ben(s, i) == SpecParse::<SpecBen>::Fatal(p),
    ensures
        sp_bens(s, i) == SpecParse::<Seq<SpecBen>>::Fatal(p),
{
}

/// An inline repetition ends where no node is recognized.
pub proof fn lemma_bens_end(s: Seq<char>, i: int)
    requires
        0 <= i <= s.len(),
        sp_ben(s, i) is Miss,
    ensures
        sp_bens(s, i) == SpecParse::<Seq<SpecBen>>::Hit(Seq::<SpecBen>::empty(), i),
{
}

} // verus!
