//! Laws of the pipeline that hold for whole families of inputs, proved once
//! and for all against the grammar and the passes.

use vstd::prelude::*;
use crate::chars::{is_control_char, is_inline_space};
use crate::data::BlockType;
use crate::pass1::{sp_bet, sp_tree, stops, unref_all};
use crate::pass2::sp_pass2;
use crate::sp_parse;
use crate::spec_ast::{SpecAst, SpecBack, SpecBen};
use crate::spec_grammar::{
    advance, begin_src, find_char, has_at, lemma_find_char, sp_ast_node, sp_ben, sp_bens,
    sp_heading, sp_inline_code, sp_linespace, sp_link, sp_list_item, sp_marker_span, sp_nodes,
    sp_org_file, sp_source_block, sp_stmt_end, star_end, ws_end, SpecParse,
};

verus! {

/// A pattern whose first character differs does not occur here.
proof fn lemma_not_at(s: Seq<char>, i: int, pat: Seq<char>)
    requires
        0 <= i < s.len(),
        pat.len() >= 1,
        s[i] != pat[0],
    ensures
        !has_at(s, i, pat),
{
    if has_at(s, i, pat) {
        assert(s.subrange(i, i + pat.len())[0] == pat[0]);
    }
}

/// The first occurrence of the closing delimiter after delimiter-free
/// content is right behind the content.
proof fn lemma_find_closes(s: Seq<char>, content: Seq<char>, c: char)
    requires
        s.len() >= 2 + content.len(),
        s[0] == c,
        forall|k: int| 0 <= k < content.len() ==> content[k] != c,
        forall|k: int| 0 <= k < content.len() ==> s[1 + k] == content[k],
        s[1 + content.len() as int] == c,
    ensures
        find_char(s, 1, c) == Some(1 + content.len() as int),
{
    lemma_find_char(s, 1, c);
    let e = 1 + content.len() as int;
    match find_char(s, 1, c) {
        Some(j) => {
            if j < e {
                assert(s[j] == content[j - 1]);
            }
            if j > e {
                assert(s[e] == c && 1 <= e < j);
            }
        },
        None => {
            assert(s[e] == c);
        },
    }
}

/// Inline code is never re-parsed: for any non-empty content free of the
/// delimiter and of control characters, a line holding exactly that content
/// between `=` delimiters parses to a single paragraph holding one verbatim
/// code node that carries the content unchanged — whatever marker
/// characters the content contains.
#[verifier::rlimit(100)]
pub proof fn lemma_inline_code_verbatim(content: Seq<char>)
    requires
        content.len() > 0,
        forall|k: int| 0 <= k < content.len() ==> content[k] != '=',
        forall|k: int| 0 <= k < content.len() ==> !is_control_char(#[trigger] content[k]),
    ensures
        sp_parse(seq!['='] + content + seq!['=', '\n']) == Ok::<Seq<SpecBack>, int>(
            seq![
                SpecBack {
                    parent_idx: 0,
                    inner: SpecAst::Block(BlockType::Block, seq![SpecBen::Code(content)]),
                    render_group: None,
                },
            ],
        ),
{
    let s = seq!['='] + content + seq!['=', '\n'];
    let clen = content.len() as int;
    assert(s.len() == clen + 3);
    assert(s[0] == '=');
    assert(forall|k: int| 0 <= k < clen ==> s[1 + k] == content[k]);
    assert(s[clen + 1] == '=');
    assert(s[clen + 2] == '\n');

    // the grammar's line parsers all miss at the opening delimiter
    assert(sp_linespace(s, 0) is None) by {
        lemma_not_at(s, 0, seq!['#', ' ']);
    }
    assert(ws_end(s, 0) == 0) by {
        assert(!is_inline_space('='));
    }
    assert(star_end(s, 0) == 0);
    assert(sp_heading(s, 0) is Miss) by {
        assert(advance(ws_end(s, 0), 0, s.len() as int) == 0);
        assert(advance(star_end(s, 0), 0, s.len() as int) == 0);
    }
    assert(sp_source_block(s, 0) is Miss) by {
        lemma_not_at(s, 0, begin_src());
    }
    assert(crate::spec_grammar::sp_directive(s, 0) is Miss) by {
        lemma_not_at(s, 0, seq!['#', '+']);
    }
    assert(crate::spec_grammar::sp_horiz_rule(s, 0) is Miss) by {
        lemma_not_at(s, 0, seq!['-', '-', '-', '-', '-']);
    }
    assert(sp_list_item(s, 0) is Miss);

    // inline code captures exactly the content
    assert(sp_link(s, 0) is Miss);
    lemma_find_closes(s, content, '=');
    assert(s.subrange(1, clen + 1) =~= content);
    assert(sp_inline_code(s, 0) == SpecParse::<SpecBen>::Hit(
        SpecBen::Code(content),
        clen + 2,
    ));
    assert(sp_ben(s, 0) == SpecParse::<SpecBen>::Hit(SpecBen::Code(content), clen + 2));

    // nothing more is recognized at the newline
    let e = clen + 2;
    assert(sp_link(s, e) is Miss);
    assert(sp_inline_code(s, e) is Miss);
    assert(sp_marker_span(s, e, seq!['n', 'b', 's', 'p', '&'], seq!['&', 'n', 'b', 's', 'p'])
        is Miss) by {
        lemma_not_at(s, e, seq!['n', 'b', 's', 'p', '&']);
    }
    assert(sp_marker_span(s, e, seq!['f', 't', '&'], seq!['&', 'f', 't']) is Miss) by {
        lemma_not_at(s, e, seq!['f', 't', '&']);
    }
    assert(sp_marker_span(
        s,
        e,
        seq!['w', 'a', 'r', 'n', 'i', 'n', 'g', '&'],
        seq!['&', 'w', 'a', 'r', 'n', 'i', 'n', 'g'],
    ) is Miss) by {
        lemma_not_at(s, e, seq!['w', 'a', 'r', 'n', 'i', 'n', 'g', '&']);
    }
    assert(sp_marker_span(s, e, seq!['*'], seq!['*']) is Miss) by {
        lemma_not_at(s, e, seq!['*']);
    }
    assert(sp_marker_span(s, e, seq!['/'], seq!['/']) is Miss) by {
        lemma_not_at(s, e, seq!['/']);
    }
    assert(sp_marker_span(s, e, seq!['_'], seq!['_']) is Miss) by {
        lemma_not_at(s, e, seq!['_']);
    }
    assert(sp_marker_span(s, e, seq!['+'], seq!['+']) is Miss) by {
        lemma_not_at(s, e, seq!['+']);
    }
    assert(is_control_char('\n'));
    assert(sp_ben(s, e) is Miss);
    assert(sp_bens(s, e) == SpecParse::<Seq<SpecBen>>::Hit(Seq::empty(), e));

    // one paragraph, terminated by the line ending
    assert(advance(clen + 2, 1, s.len() as int) == clen + 2);
    assert(sp_bens(s, 0) == SpecParse::<Seq<SpecBen>>::Hit(
        seq![SpecBen::Code(content)] + Seq::<SpecBen>::empty(),
        e,
    ));
    assert(seq![SpecBen::Code(content)] + Seq::<SpecBen>::empty() =~= seq![
        SpecBen::Code(content),
    ]);
    let block = SpecAst::Block(BlockType::Block, seq![SpecBen::Code(content)]);
    assert(sp_linespace(s, e) == Some(clen + 3));
    assert(sp_stmt_end(s, block, e) == SpecParse::<SpecAst>::Hit(block, clen + 3));
    assert(sp_ast_node(s, 0) == SpecParse::<SpecAst>::Hit(block, clen + 3));

    // the stream ends at the end of the input
    assert(advance(clen + 3, 1, s.len() as int) == clen + 3);
    assert(sp_nodes(s, clen + 3) == SpecParse::<Seq<SpecAst>>::Hit(
        Seq::empty(),
        clen + 3,
    ));
    assert(sp_nodes(s, 0) == SpecParse::<Seq<SpecAst>>::Hit(
        seq![block] + Seq::<SpecAst>::empty(),
        clen + 3,
    ));
    assert(seq![block] + Seq::<SpecAst>::empty() =~= seq![block]);
    assert(sp_org_file(s) == SpecParse::<Seq<SpecAst>>::Hit(seq![block], clen + 3));

    // the passes keep the paragraph and annotate it
    let flat = seq![block];
    assert(!stops(flat, 0, Seq::empty()));
    assert(seq![SpecBen::Code(content)] != seq![SpecBen::Linespace]) by {
        assert(seq![SpecBen::Code(content)][0] is Code);
    }
    assert(sp_bet(seq![SpecBen::Code(content)], false) =~= seq![SpecBen::Code(content)]) by {
        assert(seq![SpecBen::Code(content)][0] == SpecBen::Code(content));
        assert(seq![SpecBen::Code(content)].drop_first() =~= Seq::<SpecBen>::empty());
        assert(sp_bet(Seq::<SpecBen>::empty(), false) =~= Seq::<SpecBen>::empty());
        assert(crate::pass1::sp_bet_one(SpecBen::Code(content), false) =~= seq![
            SpecBen::Code(content),
        ]);
        assert(seq![SpecBen::Code(content)] + Seq::<SpecBen>::empty() =~= seq![
            SpecBen::Code(content),
        ]);
    }
    assert(sp_tree(flat, 1, Seq::empty()).0 =~= Seq::<SpecAst>::empty());
    assert(sp_tree(flat, 0, Seq::empty()).0 =~= seq![block]);
    let wrapped = unref_all(sp_tree(flat, 0, Seq::empty()).0);
    assert(wrapped =~= seq![
        SpecBack { parent_idx: 0, inner: block, render_group: None },
    ]);
    assert(sp_pass2(wrapped, 0, None) =~= seq![
        SpecBack { parent_idx: 0, inner: block, render_group: None },
    ]) by {
        assert(wrapped.drop_first() =~= Seq::<SpecBack>::empty());
        assert(sp_pass2(Seq::<SpecBack>::empty(), 0, None) =~= Seq::<SpecBack>::empty());
        assert(crate::pass2::sp_pass2_one(wrapped[0], 0, None) == wrapped[0]);
    }
}


/// Heading nesting is strictly monotonic: a scope built under the stop
/// requirement for a heading level never holds a heading of that level or
/// less — such a heading ends the scope instead of joining it.
pub proof fn lemma_heading_scope(ns: Seq<SpecAst>, i: int, reqs: Seq<crate::pass1::StopReq>, lvl: u16)
    requires
        reqs.contains(crate::pass1::StopReq::NextHeadingWithLevel(lvl)),
    ensures
        forall|k: int|
            0 <= k < sp_tree(ns, i, reqs).0.len() ==> ((#[trigger] sp_tree(ns, i, reqs).0[k])
                matches SpecAst::Heading { level, .. } ==> level > lvl),
    decreases ns.len() - i, (if 0 <= i < ns.len() {
        1int
    } else {
        0int
    }),
{
    if !(i < 0 || i >= ns.len() || stops(ns, i, reqs)) {
        let q = choose|q: int| 0 <= q < reqs.len() && reqs[q]
            == crate::pass1::StopReq::NextHeadingWithLevel(lvl);
        match ns[i] {
            SpecAst::Heading { level, title, children: _, routing: _ } => {
                assert(!crate::pass1::stop_req_met(ns[i], reqs[q]));
                let r2 = reqs.push(crate::pass1::StopReq::NextHeadingWithLevel(level));
                let sub = sp_tree(ns, i + 1, r2);
                let cj = crate::pass1::clamp(sub.1, i + 1, ns.len() as int);
                lemma_heading_scope(ns, cj, reqs, lvl);
                let rest = sp_tree(ns, cj, reqs);
                assert(forall|k: int|
                    1 <= k < sp_tree(ns, i, reqs).0.len() ==> sp_tree(ns, i, reqs).0[k]
                        == rest.0[k - 1]);
            },
            SpecAst::ListItem(l2, _) => {
                let r2 = reqs.push(crate::pass1::StopReq::NextListWithLevel(l2)).push(
                    crate::pass1::StopReq::AnyHeading,
                ).push(crate::pass1::StopReq::Linespace);
                let sub = sp_tree(ns, i + 1, r2);
                let cj = crate::pass1::clamp(sub.1, i + 1, ns.len() as int);
                lemma_heading_scope(ns, cj, reqs, lvl);
                let rest = sp_tree(ns, cj, reqs);
                assert(forall|k: int|
                    1 <= k < sp_tree(ns, i, reqs).0.len() ==> sp_tree(ns, i, reqs).0[k]
                        == rest.0[k - 1]);
            },
            _ => {
                lemma_heading_scope(ns, i + 1, reqs, lvl);
                let rest = sp_tree(ns, i + 1, reqs);
                if sp_tree(ns, i, reqs).0.len() > rest.0.len() {
                    assert(forall|k: int|
                        1 <= k < sp_tree(ns, i, reqs).0.len() ==> sp_tree(ns, i, reqs).0[k]
                            == rest.0[k - 1]);
                }
            },
        }
    }
}

/// No unclassified directive survives the tree-shaping pass: every
/// directive in a scope it returns is a classified one.
pub proof fn lemma_no_raw_directives(ns: Seq<SpecAst>, i: int, reqs: Seq<crate::pass1::StopReq>)
    ensures
        forall|k: int|
            0 <= k < sp_tree(ns, i, reqs).0.len() ==> ((#[trigger] sp_tree(ns, i, reqs).0[k])
                matches SpecAst::Directive(d) ==> !(d is Raw)),
    decreases ns.len() - i, (if 0 <= i < ns.len() {
        1int
    } else {
        0int
    }),
{
    if !(i < 0 || i >= ns.len() || stops(ns, i, reqs)) {
        match ns[i] {
            SpecAst::Heading { level, title, children: _, routing: _ } => {
                let r2 = reqs.push(crate::pass1::StopReq::NextHeadingWithLevel(level));
                let sub = sp_tree(ns, i + 1, r2);
                let cj = crate::pass1::clamp(sub.1, i + 1, ns.len() as int);
                lemma_no_raw_directives(ns, cj, reqs);
                let rest = sp_tree(ns, cj, reqs);
                assert(forall|k: int|
                    1 <= k < sp_tree(ns, i, reqs).0.len() ==> sp_tree(ns, i, reqs).0[k]
                        == rest.0[k - 1]);
            },
            SpecAst::ListItem(l2, _) => {
                let r2 = reqs.push(crate::pass1::StopReq::NextListWithLevel(l2)).push(
                    crate::pass1::StopReq::AnyHeading,
                ).push(crate::pass1::StopReq::Linespace);
                let sub = sp_tree(ns, i + 1, r2);
                let cj = crate::pass1::clamp(sub.1, i + 1, ns.len() as int);
                lemma_no_raw_directives(ns, cj, reqs);
                let rest = sp_tree(ns, cj, reqs);
                assert(forall|k: int|
                    1 <= k < sp_tree(ns, i, reqs).0.len() ==> sp_tree(ns, i, reqs).0[k]
                        == rest.0[k - 1]);
            },
            _ => {
                lemma_no_raw_directives(ns, i + 1, reqs);
                let rest = sp_tree(ns, i + 1, reqs);
                if sp_tree(ns, i, reqs).0.len() > rest.0.len() {
                    assert(forall|k: int|
                        1 <= k < sp_tree(ns, i, reqs).0.len() ==> sp_tree(ns, i, reqs).0[k]
                            == rest.0[k - 1]);
                }
            },
        }
    }
}

} // verus!
