//! The tree-shaping pass: folds the flat node stream into a nested tree
//! using lookahead stop requirements, resolves inline markup, extracts
//! heading routing, and classifies directives.

use vstd::prelude::*;
use crate::data::{
    AbstractSyntaxTree, AstNode, BackrefAstNode, BlockExprNode, BlockExprTree, Directive,
    LinkTarget, Route,
};
use crate::spec_ast::{
    lemma_asts_index, lemma_asts_snoc, lemma_backs_index, lemma_bens_concat, lemma_bens_index,
    lemma_bens_snoc, spec_ast, spec_asts, spec_back, spec_backs, spec_ben, spec_bens,
    spec_directive, spec_link_target, spec_route, spec_unref, SpecAst, SpecBack, SpecBen,
    SpecDirective, SpecRoute,
};

verus! {

/// A lookahead condition that ends the children scope being built, without
/// consuming the node that triggered it.
#[derive(Debug, Clone, Copy, PartialEq, Eq, Structural)]
pub enum StopReq {
    /// Stop before the next heading whose level is at most this.
    NextHeadingWithLevel(u16),
    /// Stop before the next list item whose indent is at most this.
    NextListWithLevel(u16),
    /// Stop before any heading.
    AnyHeading,
    /// Stop before a blank-line marker.
    Linespace,
}

/// A node that stands for one or more blank lines and nothing else.
pub open spec fn is_linespace_block(n: SpecAst) -> bool {
    n matches SpecAst::Block(ty, bet) && bet == seq![SpecBen::Linespace]
}

/// Whether the node at hand satisfies one stop requirement.
pub open spec fn stop_req_met(n: SpecAst, req: StopReq) -> bool {
    match req {
        StopReq::NextHeadingWithLevel(t) => n matches SpecAst::Heading { level, .. } && level
            <= t,
        StopReq::NextListWithLevel(t) => n matches SpecAst::ListItem(lvl, _) && lvl <= t,
        StopReq::AnyHeading => n is Heading,
        StopReq::Linespace => is_linespace_block(n),
    }
}

/// Whether any active stop requirement is met at position `i`.
pub open spec fn stops(ns: Seq<SpecAst>, i: int, reqs: Seq<StopReq>) -> bool {
    exists|k: int| 0 <= k < reqs.len() && stop_req_met(ns[i], reqs[k])
}

/// The character substituted for a space inside a non-breaking-space span.
pub open spec fn nbsp_char() -> char {
    '\u{a0}'
}

/// Inline resolution of one node, with the non-breaking-space state: spans
/// are resolved recursively, a space becomes non-breaking inside that
/// state, non-breaking-space wrappers are expanded away, and heading
/// routing markers are dropped.
pub open spec fn sp_bet_one(n: SpecBen, nb: bool) -> Seq<SpecBen>
    decreases n,
{
    match n {
        SpecBen::NonbreakingSpace(b) => sp_bet(b, true),
        SpecBen::Char(c) => if nb && c == ' ' {
            seq![SpecBen::Char(nbsp_char())]
        } else {
            seq![SpecBen::Char(c)]
        },
        SpecBen::Bold(b) => seq![SpecBen::Bold(sp_bet(b, nb))],
        SpecBen::Italic(b) => seq![SpecBen::Italic(sp_bet(b, nb))],
        SpecBen::Underline(b) => seq![SpecBen::Underline(sp_bet(b, nb))],
        SpecBen::Strikethrough(b) => seq![SpecBen::Strikethrough(sp_bet(b, nb))],
        SpecBen::Warning(b) => seq![SpecBen::Warning(sp_bet(b, nb))],
        SpecBen::FloatToggle(b) => seq![SpecBen::FloatToggle(sp_bet(b, nb))],
        SpecBen::Link(t, o) => match o {
            Some(b) => seq![SpecBen::Link(t, Some(sp_bet(b, nb)))],
            None => seq![SpecBen::Link(t, None)],
        },
        SpecBen::HeaderRouting(r) => Seq::empty(),
        SpecBen::Code(s) => seq![SpecBen::Code(s)],
        SpecBen::Linespace => seq![SpecBen::Linespace],
    }
}

/// Inline resolution of a whole tree, left to right.
pub open spec fn sp_bet(t: Seq<SpecBen>, nb: bool) -> Seq<SpecBen>
    decreases t,
{
    if t.len() == 0 {
        Seq::empty()
    } else {
        sp_bet_one(t[0], nb) + sp_bet(t.drop_first(), nb)
    }
}

/// Resolving element by element from the left appends one resolved item.
pub proof fn lemma_sp_bet_snoc(t: Seq<SpecBen>, x: SpecBen, nb: bool)
    ensures
        sp_bet(t.push(x), nb) == sp_bet(t, nb) + sp_bet_one(x, nb),
    decreases t.len(),
{
    if t.len() == 0 {
        assert(t.push(x)[0] == x);
        assert(t.push(x).drop_first() =~= Seq::<SpecBen>::empty());
        assert(sp_bet(Seq::<SpecBen>::empty(), nb) =~= Seq::<SpecBen>::empty());
        assert(sp_bet(t.push(x), nb) == sp_bet_one(x, nb) + sp_bet(
            t.push(x).drop_first(),
            nb,
        ));
        assert(sp_bet_one(x, nb) + Seq::<SpecBen>::empty() =~= sp_bet_one(x, nb));
        assert(sp_bet(t, nb) + sp_bet_one(x, nb) =~= sp_bet_one(x, nb));
    } else {
        assert(t.push(x)[0] == t[0]);
        assert(t.push(x).drop_first() =~= t.drop_first().push(x));
        lemma_sp_bet_snoc(t.drop_first(), x, nb);
        assert(sp_bet_one(t[0], nb) + (sp_bet(t.drop_first(), nb) + sp_bet_one(x, nb)) =~= (
        sp_bet_one(t[0], nb) + sp_bet(t.drop_first(), nb)) + sp_bet_one(x, nb));
    }
}

/// The first routing marker in a heading title, if any.
pub open spec fn first_routing(title: Seq<SpecBen>) -> Option<SpecRoute>
    decreases title.len(),
{
    if title.len() == 0 {
        None
    } else {
        match title[0] {
            SpecBen::HeaderRouting(r) => Some(r),
            _ => first_routing(title.drop_first()),
        }
    }
}

/// Drops the one trailing space a routing marker leaves behind.
pub open spec fn strip_trailing_space(t: Seq<SpecBen>) -> Seq<SpecBen> {
    if t.len() > 0 && t.last() == SpecBen::Char(' ') {
        t.drop_last()
    } else {
        t
    }
}

/// Case-insensitive match of a key against a lowercase pattern, folding
/// ASCII letters only.
pub open spec fn key_matches_ci(k: Seq<char>, pat: Seq<char>) -> bool {
    k.len() == pat.len() && forall|i: int|
        0 <= i < k.len() ==> ((#[trigger] k[i]) as u32 == pat[i] as u32 || (0x41 <= k[i] as u32
            <= 0x5a && k[i] as u32 + 32 == pat[i] as u32))
}

/// Directive classification: `id` and `title` are recognized, compared
/// without regard to case; any other key is dropped without error.
pub open spec fn classify_directive(k: Seq<char>, v: Seq<char>) -> Option<SpecDirective> {
    if key_matches_ci(k, seq!['i', 'd']) {
        Some(SpecDirective::Id(v))
    } else if key_matches_ci(k, seq!['t', 'i', 't', 'l', 'e']) {
        Some(SpecDirective::Title(v))
    } else {
        None
    }
}

/// Wraps each node with no parent reference and no render group.
pub open spec fn unref_all(s: Seq<SpecAst>) -> Seq<SpecBack> {
    Seq::new(s.len(), |i: int| spec_unref(s[i]))
}

/// Every directive in the stream is still unclassified.
pub open spec fn all_raw(ns: Seq<SpecAst>) -> bool {
    forall|i: int| 0 <= i < ns.len() ==> ((#[trigger] ns[i]) matches SpecAst::Directive(d) ==> d is Raw)
}

/// Clamps a continuation position, as the grammar does.
pub open spec fn clamp(j: int, lo: int, hi: int) -> int {
    crate::spec_grammar::advance(j, lo, hi)
}

/// The tree-shaping pass itself: from position `i` of the flat stream,
/// with the active stop requirements, the nodes of the current scope and
/// the position of the first node not consumed.
///
/// A heading takes the following nodes, up to the next heading of its own
/// or a lower level, as children, its routing marker is extracted from its
/// still-flat title, the title is resolved and one trailing space is
/// stripped. A list item takes children up to the next list item at its
/// indent or less, any heading, or a blank line. A pure blank-line node is
/// dropped. Content blocks are inline-resolved. Raw directives are
/// classified or dropped. Everything else passes through unchanged.
pub open spec fn sp_tree(ns: Seq<SpecAst>, i: int, reqs: Seq<StopReq>) -> (Seq<SpecAst>, int)
    decreases ns.len() - i, (if 0 <= i < ns.len() {
        1int
    } else {
        0int
    }),
{
    if i < 0 || i >= ns.len() || stops(ns, i, reqs) {
        (Seq::empty(), i)
    } else {
        match ns[i] {
            SpecAst::Heading { level, title, children: _, routing: _ } => {
                let routing = first_routing(title);
                let title_bet = strip_trailing_space(sp_bet(title, false));
                let sub = sp_tree(ns, i + 1, reqs.push(StopReq::NextHeadingWithLevel(level)));
                let cj = clamp(sub.1, i + 1, ns.len() as int);
                let rest = sp_tree(ns, cj, reqs);
                (
                    seq![
                        SpecAst::Heading {
                            level,
                            title: title_bet,
                            children: unref_all(sub.0),
                            routing,
                        },
                    ] + rest.0,
                    rest.1,
                )
            },
            SpecAst::ListItem(lvl, _) => {
                let sub = sp_tree(
                    ns,
                    i + 1,
                    reqs.push(StopReq::NextListWithLevel(lvl)).push(StopReq::AnyHeading).push(
                        StopReq::Linespace,
                    ),
                );
                let cj = clamp(sub.1, i + 1, ns.len() as int);
                let rest = sp_tree(ns, cj, reqs);
                (seq![SpecAst::ListItem(lvl, unref_all(sub.0))] + rest.0, rest.1)
            },
            SpecAst::Block(ty, bet) => {
                let rest = sp_tree(ns, i + 1, reqs);
                if bet == seq![SpecBen::Linespace] {
                    rest
                } else {
                    (seq![SpecAst::Block(ty, sp_bet(bet, false))] + rest.0, rest.1)
                }
            },
            SpecAst::Directive(d) => {
                let rest = sp_tree(ns, i + 1, reqs);
                match d {
                    SpecDirective::Raw(k, v) => match classify_directive(k, v) {
                        Some(cd) => (seq![SpecAst::Directive(cd)] + rest.0, rest.1),
                        None => rest,
                    },
                    _ => rest,
                }
            },
            other => {
                let rest = sp_tree(ns, i + 1, reqs);
                (seq![other] + rest.0, rest.1)
            },
        }
    }
}

/// The pass never moves backwards and never runs past the stream.
pub proof fn lemma_sp_tree_bounds(ns: Seq<SpecAst>, i: int, reqs: Seq<StopReq>)
    requires
        0 <= i <= ns.len(),
    ensures
        i <= sp_tree(ns, i, reqs).1 <= ns.len(),
    decreases ns.len() - i, (if 0 <= i < ns.len() {
        1int
    } else {
        0int
    }),
{
    if i < ns.len() && !stops(ns, i, reqs) {
        match ns[i] {
            SpecAst::Heading { level, title, children: _, routing: _ } => {
                lemma_sp_tree_bounds(
                    ns,
                    i + 1,
                    reqs.push(StopReq::NextHeadingWithLevel(level)),
                );
                let sub = sp_tree(ns, i + 1, reqs.push(StopReq::NextHeadingWithLevel(level)));
                lemma_sp_tree_bounds(ns, clamp(sub.1, i + 1, ns.len() as int), reqs);
            },
            SpecAst::ListItem(lvl, _) => {
                let r2 = reqs.push(StopReq::NextListWithLevel(lvl)).push(
                    StopReq::AnyHeading,
                ).push(StopReq::Linespace);
                lemma_sp_tree_bounds(ns, i + 1, r2);
                let sub = sp_tree(ns, i + 1, r2);
                lemma_sp_tree_bounds(ns, clamp(sub.1, i + 1, ns.len() as int), reqs);
            },
            _ => {
                lemma_sp_tree_bounds(ns, i + 1, reqs);
            },
        }
    }
}

/// Copies a character out of a borrow; the indirection through a typed
/// return value keeps the character's type facts available to proofs.
fn ch_copy(c: &char) -> (r: char)
    ensures
        r == *c,
{
    *c
}

/// A copy of a routing annotation.
pub(crate) fn clone_route(r: &Route) -> (o: Route)
    ensures
        spec_route(o) == spec_route(*r),
{
    match r {
        Route::Page(s) => Route::Page(s.clone()),
        Route::Section(s) => Route::Section(s.clone()),
        Route::RenderGroup(g) => Route::RenderGroup(*g),
    }
}

/// A copy of a link target.
fn clone_link_target(t: &LinkTarget) -> (o: LinkTarget)
    ensures
        spec_link_target(o) == spec_link_target(*t),
{
    match t {
        LinkTarget::Heading { title } => LinkTarget::Heading { title: title.clone() },
        LinkTarget::External(s) => LinkTarget::External(s.clone()),
    }
}

/// A copy of an inline tree, equal in the model.
pub(crate) fn clone_bet(bet: &BlockExprTree) -> (o: BlockExprTree)
    ensures
        spec_bens(o@) == spec_bens(bet@),
    decreases bet@,
{
    proof {
        lemma_bens_index(bet@);
    }
    let mut out: BlockExprTree = Vec::new();
    let mut i: usize = 0;
    while i < bet.len()
        invariant
            i <= bet@.len(),
            out@.len() == i,
            forall|k: int| 0 <= k < i ==> spec_ben(#[trigger] out@[k]) == spec_ben(bet@[k]),
        decreases bet@.len() - i,
    {
        proof {
            assert(decreases_to!(bet@ => bet@[i as int]));
        }
        let copy: BlockExprNode = match &bet[i] {
            BlockExprNode::Char(c) => BlockExprNode::Char(ch_copy(c)),
            BlockExprNode::Bold(b) => {
                proof {
                    assert(decreases_to!(bet@[i as int] => *b));
                }
                BlockExprNode::Bold(clone_bet(b))
            },
            BlockExprNode::Italic(b) => {
                proof {
                    assert(decreases_to!(bet@[i as int] => *b));
                }
                BlockExprNode::Italic(clone_bet(b))
            },
            BlockExprNode::Underline(b) => {
                proof {
                    assert(decreases_to!(bet@[i as int] => *b));
                }
                BlockExprNode::Underline(clone_bet(b))
            },
            BlockExprNode::Strikethrough(b) => {
                proof {
                    assert(decreases_to!(bet@[i as int] => *b));
                }
                BlockExprNode::Strikethrough(clone_bet(b))
            },
            BlockExprNode::NonbreakingSpace(b) => {
                proof {
                    assert(decreases_to!(bet@[i as int] => *b));
                }
                BlockExprNode::NonbreakingSpace(clone_bet(b))
            },
            BlockExprNode::FloatToggle(b) => {
                proof {
                    assert(decreases_to!(bet@[i as int] => *b));
                }
                BlockExprNode::FloatToggle(clone_bet(b))
            },
            BlockExprNode::Warning(b) => {
                proof {
                    assert(decreases_to!(bet@[i as int] => *b));
                }
                BlockExprNode::Warning(clone_bet(b))
            },
            BlockExprNode::Code(s) => BlockExprNode::Code(s.clone()),
            BlockExprNode::Link(t, o) => {
                let label = match o {
                    Some(b) => {
                        proof {
                            assert(decreases_to!(bet@[i as int] => *b));
                        }
                        Some(clone_bet(b))
                    },
                    None => None,
                };
                BlockExprNode::Link(clone_link_target(t), label)
            },
            BlockExprNode::Linespace => BlockExprNode::Linespace,
            BlockExprNode::HeaderRouting(r) => BlockExprNode::HeaderRouting(clone_route(r)),
        };
        out.push(copy);
        i = i + 1;
    }
    proof {
        lemma_bens_index(out@);
        assert(spec_bens(out@) =~= spec_bens(bet@));
    }
    out
}

/// The first routing marker in a heading title, if any.
fn find_title_routing(title: &BlockExprTree) -> (r: Option<Route>)
    ensures
        match first_routing(spec_bens(title@)) {
            Some(rt) => r matches Some(route) && spec_route(route) == rt,
            None => r is None,
        },
{
    proof {
        lemma_bens_index(title@);
    }
    let ghost model = spec_bens(title@);
    proof {
        assert(model.skip(0) =~= model);
    }
    let mut i: usize = 0;
    while i < title.len()
        invariant
            i <= title@.len(),
            model == spec_bens(title@),
            model.len() == title@.len(),
            forall|k: int| 0 <= k < title@.len() ==> model[k] == spec_ben(title@[k]),
            first_routing(model) == first_routing(model.skip(i as int)),
            forall|k: int| 0 <= k < i ==> !((#[trigger] model[k]) is HeaderRouting),
        decreases title@.len() - i,
    {
        proof {
            assert(model.skip(i as int)[0] == model[i as int]);
            assert(model.skip(i as int).drop_first() =~= model.skip(i + 1));
        }
        match &title[i] {
            BlockExprNode::HeaderRouting(route) => {
                return Some(clone_route(route));
            },
            _ => {},
        }
        i = i + 1;
    }
    proof {
        assert(model.skip(model.len() as int) =~= Seq::<SpecBen>::empty());
    }
    None
}

/// A copy of the active stop requirements.
fn copy_reqs(reqs: &Vec<StopReq>) -> (r: Vec<StopReq>)
    ensures
        r@ == reqs@,
{
    let mut out: Vec<StopReq> = Vec::new();
    let mut i: usize = 0;
    while i < reqs.len()
        invariant
            i <= reqs@.len(),
            out@ == reqs@.take(i as int),
        decreases reqs@.len() - i,
    {
        out.push(reqs[i]);
        proof {
            assert(out@ =~= reqs@.take(i + 1));
        }
        i = i + 1;
    }
    proof {
        assert(reqs@.take(reqs@.len() as int) =~= reqs@);
    }
    out
}

/// Whether one stop requirement is met by this node.
fn stop_met(node: &AstNode, req: StopReq) -> (r: bool)
    ensures
        r == stop_req_met(spec_ast(*node), req),
{
    match req {
        StopReq::NextHeadingWithLevel(t) => match node {
            AstNode::Heading { level, .. } => *level <= t,
            _ => false,
        },
        StopReq::NextListWithLevel(t) => match node {
            AstNode::ListItem(lvl, _) => *lvl <= t,
            _ => false,
        },
        StopReq::AnyHeading => matches!(node, AstNode::Heading { .. }),
        StopReq::Linespace => match node {
            AstNode::Block(_, bet) => {
                proof {
                    lemma_bens_index(bet@);
                }
                if bet.len() == 1 && matches!(&bet[0], BlockExprNode::Linespace) {
                    proof {
                        assert(spec_bens(bet@) =~= seq![SpecBen::Linespace]);
                    }
                    true
                } else {
                    proof {
                        if spec_bens(bet@) == seq![SpecBen::Linespace] {
                            assert(spec_bens(bet@).len() == 1);
                            assert(spec_bens(bet@)[0] == spec_ben(bet@[0]));
                            assert(spec_bens(bet@)[0] == SpecBen::Linespace);
                            crate::spec_ast::lemma_ben_linespace_inv(bet@[0]);
                        }
                    }
                    false
                }
            },
            _ => false,
        },
    }
}

/// Whether any active stop requirement is met at position `i`.
fn any_stop(nodes: &Vec<AstNode>, i: usize, reqs: &Vec<StopReq>) -> (r: bool)
    requires
        i < nodes@.len(),
    ensures
        r == stops(spec_asts(nodes@), i as int, reqs@),
{
    proof {
        lemma_asts_index(nodes@);
    }
    let mut k: usize = 0;
    while k < reqs.len()
        invariant
            k <= reqs@.len(),
            i < nodes@.len(),
            spec_asts(nodes@)[i as int] == spec_ast(nodes@[i as int]),
            forall|m: int|
                0 <= m < k ==> !stop_req_met(spec_asts(nodes@)[i as int], #[trigger] reqs@[m]),
        decreases reqs@.len() - k,
    {
        if stop_met(&nodes[i], reqs[k]) {
            return true;
        }
        k = k + 1;
    }
    false
}

/// Whether a key names a directive, compared without regard to ASCII case.
fn key_matches(k: &String, pat: &Vec<char>) -> (r: bool)
    ensures
        r == key_matches_ci(k@, pat@),
{
    let ks = k.as_str();
    let n = ks.unicode_len();
    if n != pat.len() {
        return false;
    }
    let mut i: usize = 0;
    while i < n
        invariant
            i <= n,
            ks@ == k@,
            n == k@.len(),
            n == pat@.len(),
            forall|m: int|
                0 <= m < i ==> ((#[trigger] k@[m]) as u32 == pat@[m] as u32 || (0x41 <= k@[m]
                    as u32 <= 0x5a && k@[m] as u32 + 32 == pat@[m] as u32)),
        decreases n - i,
    {
        let kc = ks.get_char(i);
        let pc = pat[i];
        let ku = kc as u32;
        let pu = pc as u32;
        if !(ku == pu || (0x41 <= ku && ku <= 0x5a && ku + 32 == pu)) {
            return false;
        }
        i = i + 1;
    }
    true
}

/// Classifies a raw directive by its key, or drops it.
fn classify(k: &String, v: &String) -> (r: Option<Directive>)
    ensures
        match classify_directive(k@, v@) {
            Some(d) => r matches Some(cd) && spec_directive(cd) == d,
            None => r is None,
        },
{
    let id_pat: Vec<char> = vec!['i', 'd'];
    let title_pat: Vec<char> = vec!['t', 'i', 't', 'l', 'e'];
    proof {
        assert(id_pat@ =~= seq!['i', 'd']);
        assert(title_pat@ =~= seq!['t', 'i', 't', 'l', 'e']);
    }
    if key_matches(k, &id_pat) {
        Some(Directive::Id(v.clone()))
    } else if key_matches(k, &title_pat) {
        Some(Directive::Title(v.clone()))
    } else {
        None
    }
}

/// Wraps every node of a scope with no parent reference and no render
/// group yet.
pub(crate) fn unref_vec(v: Vec<AstNode>) -> (r: Vec<BackrefAstNode>)
    ensures
        spec_backs(r@) == unref_all(spec_asts(v@)),
{
    proof {
        lemma_asts_index(v@);
    }
    let ghost orig = v@;
    let mut v = v;
    let mut out: Vec<BackrefAstNode> = Vec::new();
    while v.len() > 0
        invariant
            out@.len() + v@.len() == orig.len(),
            v@ =~= orig.skip(out@.len() as int),
            forall|k: int|
                0 <= k < out@.len() ==> spec_back(#[trigger] out@[k]) == spec_unref(
                    spec_ast(orig[k]),
                ),
        decreases v@.len(),
    {
        let n = v.remove(0);
        proof {
            assert(n == orig[out@.len() as int]);
        }
        out.push(BackrefAstNode::new_unref(n));
        proof {
            assert(v@ =~= orig.skip(out@.len() as int));
        }
    }
    proof {
        lemma_backs_index(out@);
        lemma_asts_index(orig);
        assert(spec_backs(out@) =~= unref_all(spec_asts(orig)));
    }
    out
}

/// Resolves inline markup: spans are resolved recursively, spaces become
/// non-breaking inside a non-breaking-space span, the non-breaking-space
/// wrappers themselves are expanded away, and heading routing markers are
/// dropped.
pub fn bet_pass(nodes: &BlockExprTree, inside_nbsp: bool) -> (r: BlockExprTree)
    ensures
        spec_bens(r@) == sp_bet(spec_bens(nodes@), inside_nbsp),
    decreases nodes@,
{
    proof {
        lemma_bens_index(nodes@);
    }
    let ghost model = spec_bens(nodes@);
    let mut out: BlockExprTree = Vec::new();
    let mut i: usize = 0;
    proof {
        assert(model.take(0) =~= Seq::<SpecBen>::empty());
        assert(spec_bens(out@) =~= Seq::<SpecBen>::empty());
        assert(sp_bet(model.take(0), inside_nbsp) =~= Seq::<SpecBen>::empty());
    }
    while i < nodes.len()
        invariant
            i <= nodes@.len(),
            model == spec_bens(nodes@),
            model.len() == nodes@.len(),
            forall|k: int| 0 <= k < nodes@.len() ==> model[k] == spec_ben(nodes@[k]),
            spec_bens(out@) == sp_bet(model.take(i as int), inside_nbsp),
        decreases nodes@.len() - i,
    {
        proof {
            assert(decreases_to!(nodes@ => nodes@[i as int]));
            assert(model.take(i + 1).drop_last() =~= model.take(i as int));
            assert(model.take(i + 1).last() == model[i as int]);
            assert(model.take(i as int).push(model[i as int]) =~= model.take(i + 1));
            lemma_sp_bet_snoc(model.take(i as int), model[i as int], inside_nbsp);
        }
        let ghost out_before = out@;
        match &nodes[i] {
            BlockExprNode::NonbreakingSpace(b) => {
                proof {
                    assert(decreases_to!(nodes@[i as int] => *b));
                }
                let mut inner = bet_pass(b, true);
                let ghost inner_snap = inner@;
                out.append(&mut inner);
                proof {
                    lemma_bens_concat(out_before, inner_snap);
                }
            },
            BlockExprNode::Char(c) => {
                let cc = ch_copy(c);
                let pushed: char = if inside_nbsp && cc == ' ' {
                    '\u{a0}'
                } else {
                    cc
                };
                out.push(BlockExprNode::Char(pushed));
                proof {
                    lemma_bens_snoc(out_before, BlockExprNode::Char(pushed));
                }
            },
            BlockExprNode::Bold(b) => {
                proof {
                    assert(decreases_to!(nodes@[i as int] => *b));
                }
                let sub = bet_pass(b, inside_nbsp);
                out.push(BlockExprNode::Bold(sub));
                proof {
                    lemma_bens_snoc(out_before, out@.last());
                }
            },
            BlockExprNode::Italic(b) => {
                proof {
                    assert(decreases_to!(nodes@[i as int] => *b));
                }
                let sub = bet_pass(b, inside_nbsp);
                out.push(BlockExprNode::Italic(sub));
                proof {
                    lemma_bens_snoc(out_before, out@.last());
                }
            },
            BlockExprNode::Underline(b) => {
                proof {
                    assert(decreases_to!(nodes@[i as int] => *b));
                }
                let sub = bet_pass(b, inside_nbsp);
                out.push(BlockExprNode::Underline(sub));
                proof {
                    lemma_bens_snoc(out_before, out@.last());
                }
            },
            BlockExprNode::Strikethrough(b) => {
                proof {
                    assert(decreases_to!(nodes@[i as int] => *b));
                }
                let sub = bet_pass(b, inside_nbsp);
                out.push(BlockExprNode::Strikethrough(sub));
                proof {
                    lemma_bens_snoc(out_before, out@.last());
                }
            },
            BlockExprNode::Warning(b) => {
                proof {
                    assert(decreases_to!(nodes@[i as int] => *b));
                }
                let sub = bet_pass(b, inside_nbsp);
                out.push(BlockExprNode::Warning(sub));
                proof {
                    lemma_bens_snoc(out_before, out@.last());
                }
            },
            BlockExprNode::FloatToggle(b) => {
                proof {
                    assert(decreases_to!(nodes@[i as int] => *b));
                }
                let sub = bet_pass(b, inside_nbsp);
                out.push(BlockExprNode::FloatToggle(sub));
                proof {
                    lemma_bens_snoc(out_before, out@.last());
                }
            },
            BlockExprNode::Link(t, o) => {
                let label = match o {
                    Some(b) => {
                        proof {
                            assert(decreases_to!(nodes@[i as int] => *b));
                        }
                        Some(bet_pass(b, inside_nbsp))
                    },
                    None => None,
                };
                out.push(BlockExprNode::Link(clone_link_target(t), label));
                proof {
                    lemma_bens_snoc(out_before, out@.last());
                }
            },
            BlockExprNode::HeaderRouting(_) => {
                proof {
                    assert(spec_bens(out@) + Seq::<SpecBen>::empty() =~= spec_bens(out@));
                }
            },
            BlockExprNode::Code(s) => {
                out.push(BlockExprNode::Code(s.clone()));
                proof {
                    lemma_bens_snoc(out_before, out@.last());
                }
            },
            BlockExprNode::Linespace => {
                out.push(BlockExprNode::Linespace);
                proof {
                    lemma_bens_snoc(out_before, out@.last());
                }
            },
        }
        i = i + 1;
    }
    proof {
        assert(model.take(model.len() as int) =~= model);
    }
    out
}

/// Whether an inline tree is exactly the blank-line marker.
fn is_linespace_bet(bet: &BlockExprTree) -> (r: bool)
    ensures
        r == (spec_bens(bet@) == seq![SpecBen::Linespace]),
{
    proof {
        lemma_bens_index(bet@);
    }
    if bet.len() == 1 && matches!(&bet[0], BlockExprNode::Linespace) {
        proof {
            assert(spec_bens(bet@) =~= seq![SpecBen::Linespace]);
        }
        true
    } else {
        proof {
            if spec_bens(bet@) == seq![SpecBen::Linespace] {
                assert(spec_bens(bet@).len() == 1);
                assert(spec_bens(bet@)[0] == spec_ben(bet@[0]));
                assert(spec_bens(bet@)[0] == SpecBen::Linespace);
                crate::spec_ast::lemma_ben_linespace_inv(bet@[0]);
            }
        }
        false
    }
}

/// Resolves a heading title: inline resolution, then one trailing space is
/// stripped if present.
fn resolve_title(title: &BlockExprTree) -> (r: BlockExprTree)
    ensures
        spec_bens(r@) == strip_trailing_space(sp_bet(spec_bens(title@), false)),
{
    let mut tb = bet_pass(title, false);
    proof {
        lemma_bens_index(tb@);
    }
    let ghost t0 = spec_bens(tb@);
    if tb.len() > 0 && matches!(&tb[tb.len() - 1], BlockExprNode::Char(' ')) {
        proof {
            assert(t0.last() == spec_ben(tb@[tb@.len() - 1]));
            assert(t0.last() == SpecBen::Char(' '));
        }
        tb.pop();
        proof {
            lemma_bens_index(tb@);
            assert(spec_bens(tb@) =~= t0.drop_last());
        }
    } else {
        proof {
            if t0.len() > 0 && t0.last() == SpecBen::Char(' ') {
                assert(t0.last() == spec_ben(tb@[tb@.len() - 1]));
                crate::spec_ast::lemma_ben_char_inv(tb@[tb@.len() - 1], ' ');
            }
        }
    }
    tb
}

/// Transforms the flat node stream into a tree by recursing: the scope at
/// hand ends, without consuming the triggering node, as soon as any active
/// stop requirement is met.
///
/// Back references to parent nodes do not exist in this function's output;
/// they are added by a separate pass.
pub fn flat_nodes_to_tree(nodes: &Vec<AstNode>, pos: &mut usize, stop_reqs: &Vec<StopReq>) -> (r:
    AbstractSyntaxTree)
    requires
        *old(pos) <= nodes@.len(),
        all_raw(spec_asts(nodes@)),
    ensures
        spec_asts(r@) == sp_tree(spec_asts(nodes@), *old(pos) as int, stop_reqs@).0,
        *final(pos) as int == sp_tree(spec_asts(nodes@), *old(pos) as int, stop_reqs@).1,
        *old(pos) <= *final(pos) <= nodes@.len(),
    decreases nodes@.len() - *old(pos),
{
    let ghost ns = spec_asts(nodes@);
    let ghost p0 = *pos as int;
    let ghost reqs = stop_reqs@;
    proof {
        lemma_asts_index(nodes@);
        lemma_sp_tree_bounds(ns, p0, reqs);
    }
    let mut out: AbstractSyntaxTree = Vec::new();
    let mut done = false;
    proof {
        assert(spec_asts(out@) =~= Seq::<SpecAst>::empty());
        assert(Seq::<SpecAst>::empty() + sp_tree(ns, p0, reqs).0 =~= sp_tree(ns, p0, reqs).0);
    }
    while !done
        invariant
            p0 == *old(pos),
            p0 <= *pos <= nodes@.len(),
            ns == spec_asts(nodes@),
            ns.len() == nodes@.len(),
            forall|k: int| 0 <= k < nodes@.len() ==> ns[k] == spec_ast(nodes@[k]),
            all_raw(ns),
            reqs == stop_reqs@,
            sp_tree(ns, p0, reqs).0 == spec_asts(out@) + sp_tree(ns, *pos as int, reqs).0,
            sp_tree(ns, p0, reqs).1 == sp_tree(ns, *pos as int, reqs).1,
            done ==> (*pos == nodes@.len() || stops(ns, *pos as int, reqs)),
        decreases nodes@.len() - *pos + (if done {
            0int
        } else {
            1int
        }),
    {
        if *pos >= nodes.len() {
            done = true;
        } else if any_stop(nodes, *pos, stop_reqs) {
            done = true;
        } else {
            let i = *pos;
            let ghost rest_before = sp_tree(ns, i as int, reqs);
            match &nodes[i] {
                AstNode::Heading { level, title, children: _, routing: _ } => {
                    let routing = find_title_routing(title);
                    let tb = resolve_title(title);
                    *pos = i + 1;
                    let mut r2 = copy_reqs(stop_reqs);
                    r2.push(StopReq::NextHeadingWithLevel(*level));
                    proof {
                        assert(r2@ =~= reqs.push(StopReq::NextHeadingWithLevel(*level)));
                    }
                    let sub = flat_nodes_to_tree(nodes, pos, &r2);
                    let children = unref_vec(sub);
                    let node = AstNode::Heading {
                        level: *level,
                        title: tb,
                        children,
                        routing,
                    };
                    proof {
                        let spec_sub = sp_tree(ns, i + 1, r2@);
                        assert(clamp(spec_sub.1, i + 1, ns.len() as int) == spec_sub.1);
                        let hd = SpecAst::Heading {
                            level: *level,
                            title: strip_trailing_space(
                                sp_bet(spec_bens(title@), false),
                            ),
                            children: unref_all(spec_sub.0),
                            routing: first_routing(spec_bens(title@)),
                        };
                        assert(spec_ast(node) == hd);
                        assert(sp_tree(ns, i as int, reqs).0 == seq![hd] + sp_tree(
                            ns,
                            spec_sub.1,
                            reqs,
                        ).0);
                        lemma_asts_snoc(out@, node);
                        assert(spec_asts(out@) + (seq![hd] + sp_tree(ns, spec_sub.1, reqs).0)
                            =~= (spec_asts(out@) + seq![hd]) + sp_tree(ns, spec_sub.1, reqs).0);
                    }
                    out.push(node);
                },
                AstNode::ListItem(lvl, _) => {
                    *pos = i + 1;
                    let mut r2 = copy_reqs(stop_reqs);
                    r2.push(StopReq::NextListWithLevel(*lvl));
                    r2.push(StopReq::AnyHeading);
                    r2.push(StopReq::Linespace);
                    proof {
                        assert(r2@ =~= reqs.push(StopReq::NextListWithLevel(*lvl)).push(
                            StopReq::AnyHeading,
                        ).push(StopReq::Linespace));
                    }
                    let sub = flat_nodes_to_tree(nodes, pos, &r2);
                    let children = unref_vec(sub);
                    let node = AstNode::ListItem(*lvl, children);
                    proof {
                        let spec_sub = sp_tree(ns, i + 1, r2@);
                        assert(clamp(spec_sub.1, i + 1, ns.len() as int) == spec_sub.1);
                        let li = SpecAst::ListItem(*lvl, unref_all(spec_sub.0));
                        assert(spec_ast(node) == li);
                        assert(sp_tree(ns, i as int, reqs).0 == seq![li] + sp_tree(
                            ns,
                            spec_sub.1,
                            reqs,
                        ).0);
                        lemma_asts_snoc(out@, node);
                        assert(spec_asts(out@) + (seq![li] + sp_tree(ns, spec_sub.1, reqs).0)
                            =~= (spec_asts(out@) + seq![li]) + sp_tree(ns, spec_sub.1, reqs).0);
                    }
                    out.push(node);
                },
                AstNode::Block(ty, bet) => {
                    *pos = i + 1;
                    if is_linespace_bet(bet) {
                        proof {
                            assert(sp_tree(ns, i as int, reqs) == sp_tree(ns, i + 1, reqs));
                        }
                    } else {
                        let resolved = bet_pass(bet, false);
                        let node = AstNode::Block(*ty, resolved);
                        proof {
                            let bl = SpecAst::Block(*ty, sp_bet(spec_bens(bet@), false));
                            assert(spec_ast(node) == bl);
                            assert(sp_tree(ns, i as int, reqs).0 == seq![bl] + sp_tree(
                                ns,
                                i + 1,
                                reqs,
                            ).0);
                            lemma_asts_snoc(out@, node);
                            assert(spec_asts(out@) + (seq![bl] + sp_tree(ns, i + 1, reqs).0)
                                =~= (spec_asts(out@) + seq![bl]) + sp_tree(ns, i + 1, reqs).0);
                        }
                        out.push(node);
                    }
                },
                AstNode::Directive(d) => {
                    *pos = i + 1;
                    match d {
                        Directive::Raw(k, v) => {
                            match classify(k, v) {
                                Some(cd) => {
                                    let node = AstNode::Directive(cd);
                                    proof {
                                        let dn = SpecAst::Directive(
                                            classify_directive(k@, v@)->Some_0,
                                        );
                                        assert(spec_ast(node) == dn);
                                        assert(sp_tree(ns, i as int, reqs).0 == seq![dn]
                                            + sp_tree(ns, i + 1, reqs).0);
                                        lemma_asts_snoc(out@, node);
                                        assert(spec_asts(out@) + (seq![dn] + sp_tree(
                                            ns,
                                            i + 1,
                                            reqs,
                                        ).0) =~= (spec_asts(out@) + seq![dn]) + sp_tree(
                                            ns,
                                            i + 1,
                                            reqs,
                                        ).0);
                                    }
                                    out.push(node);
                                },
                                None => {
                                    proof {
                                        assert(sp_tree(ns, i as int, reqs) == sp_tree(
                                            ns,
                                            i + 1,
                                            reqs,
                                        ));
                                    }
                                },
                            }
                        },
                        _ => {
                            proof {
                                assert(ns[i as int] matches SpecAst::Directive(sd) && sd
                                    is Raw);
                                crate::spec_ast::lemma_directive_raw_inv(*d);
                                assert(false);
                            }
                        },
                    }
                },
                AstNode::SourceBlock { language, code } => {
                    *pos = i + 1;
                    let node = AstNode::SourceBlock {
                        language: language.clone(),
                        code: code.clone(),
                    };
                    proof {
                        assert(spec_ast(node) == ns[i as int]);
                        assert(sp_tree(ns, i as int, reqs).0 == seq![ns[i as int]] + sp_tree(
                            ns,
                            i + 1,
                            reqs,
                        ).0);
                        lemma_asts_snoc(out@, node);
                        assert(spec_asts(out@) + (seq![ns[i as int]] + sp_tree(
                            ns,
                            i + 1,
                            reqs,
                        ).0) =~= (spec_asts(out@) + seq![ns[i as int]]) + sp_tree(
                            ns,
                            i + 1,
                            reqs,
                        ).0);
                    }
                    out.push(node);
                },
                AstNode::HorizRule => {
                    *pos = i + 1;
                    let node = AstNode::HorizRule;
                    proof {
                        assert(spec_ast(node) == ns[i as int]);
                        assert(sp_tree(ns, i as int, reqs).0 == seq![ns[i as int]] + sp_tree(
                            ns,
                            i + 1,
                            reqs,
                        ).0);
                        lemma_asts_snoc(out@, node);
                        assert(spec_asts(out@) + (seq![ns[i as int]] + sp_tree(
                            ns,
                            i + 1,
                            reqs,
                        ).0) =~= (spec_asts(out@) + seq![ns[i as int]]) + sp_tree(
                            ns,
                            i + 1,
                            reqs,
                        ).0);
                    }
                    out.push(node);
                },
                AstNode::WarningBlock(ty, bet) => {
                    *pos = i + 1;
                    let node = AstNode::WarningBlock(*ty, clone_bet(bet));
                    proof {
                        assert(spec_ast(node) == ns[i as int]);
                        assert(sp_tree(ns, i as int, reqs).0 == seq![ns[i as int]] + sp_tree(
                            ns,
                            i + 1,
                            reqs,
                        ).0);
                        lemma_asts_snoc(out@, node);
                        assert(spec_asts(out@) + (seq![ns[i as int]] + sp_tree(
                            ns,
                            i + 1,
                            reqs,
                        ).0) =~= (spec_asts(out@) + seq![ns[i as int]]) + sp_tree(
                            ns,
                            i + 1,
                            reqs,
                        ).0);
                    }
                    out.push(node);
                },
            }
        }
    }
    proof {
        assert(sp_tree(ns, *pos as int, reqs) == (Seq::<SpecAst>::empty(), *pos as int));
        assert(spec_asts(out@) + Seq::<SpecAst>::empty() =~= spec_asts(out@));
    }
    out
}


/// A node the grammar yields is never a classified directive.
pub proof fn lemma_ast_node_raw(s: Seq<char>, i: int)
    ensures
        match crate::spec_grammar::sp_ast_node(s, i) {
            crate::spec_grammar::SpecParse::Hit(n, j) => n matches SpecAst::Directive(d)
                ==> d is Raw,
            _ => true,
        },
{
}

/// Every directive in the flat stream the grammar yields is unclassified.
pub proof fn lemma_nodes_all_raw(s: Seq<char>, i: int)
    ensures
        match crate::spec_grammar::sp_nodes(s, i) {
            crate::spec_grammar::SpecParse::Hit(t, j) => all_raw(t),
            _ => true,
        },
    decreases s.len() - i, 9int,
{
    if i < s.len() {
        match crate::spec_grammar::sp_linespace(s, i) {
            Some(j) => {
                let j2 = crate::spec_grammar::advance(j, i + 1, s.len() as int);
                lemma_nodes_all_raw(s, j2);
                match crate::spec_grammar::sp_nodes(s, j2) {
                    crate::spec_grammar::SpecParse::Hit(rest, k) => {
                        let t = seq![crate::spec_grammar::linespace_node()] + rest;
                        assert forall|m: int| 0 <= m < t.len() implies ((#[trigger] t[m])
                            matches SpecAst::Directive(d) ==> d is Raw) by {
                            if m > 0 {
                                assert(t[m] == rest[m - 1]);
                            }
                        }
                    },
                    _ => {},
                }
            },
            None => {
                lemma_ast_node_raw(s, i);
                match crate::spec_grammar::sp_ast_node(s, i) {
                    crate::spec_grammar::SpecParse::Hit(n, j) => {
                        let j2 = crate::spec_grammar::advance(j, i + 1, s.len() as int);
                        lemma_nodes_all_raw(s, j2);
                        match crate::spec_grammar::sp_nodes(s, j2) {
                            crate::spec_grammar::SpecParse::Hit(rest, k) => {
                                let t = seq![n] + rest;
                                assert forall|m: int| 0 <= m < t.len() implies ((
                                #[trigger] t[m]) matches SpecAst::Directive(d) ==> d
                                    is Raw) by {
                                    if m > 0 {
                                        assert(t[m] == rest[m - 1]);
                                    }
                                }
                            },
                            _ => {},
                        }
                    },
                    _ => {},
                }
            },
        }
    }
}

} // verus!
