//! The mathematical model of the document tree: each executable node type
//! has a mirror here whose text is `Seq<char>` and whose node lists are
//! `Seq`, so that contracts can speak of trees as pure values.

use vstd::prelude::*;
use crate::data::{
    AstNode, BackrefAstNode, BlockExprNode, BlockType, Directive, LinkTarget, RenderGroup, Route,
};

verus! {

/// Model of an inline markup node.
pub enum SpecBen {
    Char(char),
    Bold(Seq<SpecBen>),
    Italic(Seq<SpecBen>),
    Underline(Seq<SpecBen>),
    Strikethrough(Seq<SpecBen>),
    NonbreakingSpace(Seq<SpecBen>),
    FloatToggle(Seq<SpecBen>),
    Warning(Seq<SpecBen>),
    Code(Seq<char>),
    Link(SpecLinkTarget, Option<Seq<SpecBen>>),
    Linespace,
    HeaderRouting(SpecRoute),
}

/// Model of a link target.
pub enum SpecLinkTarget {
    Heading { title: Seq<char> },
    External(Seq<char>),
}

/// Model of a routing annotation.
pub enum SpecRoute {
    Page(Seq<char>),
    Section(Seq<char>),
    RenderGroup(RenderGroup),
}

/// Model of a directive.
pub enum SpecDirective {
    Id(Seq<char>),
    Title(Seq<char>),
    Raw(Seq<char>, Seq<char>),
}

/// Model of a top-level node.
pub enum SpecAst {
    SourceBlock { language: Seq<char>, code: Seq<char> },
    Directive(SpecDirective),
    Heading {
        level: u16,
        title: Seq<SpecBen>,
        children: Seq<SpecBack>,
        routing: Option<SpecRoute>,
    },
    Block(BlockType, Seq<SpecBen>),
    HorizRule,
    ListItem(u16, Seq<SpecBack>),
    WarningBlock(BlockType, Seq<SpecBen>),
}

/// Model of an annotated node.
pub struct SpecBack {
    pub parent_idx: usize,
    pub inner: SpecAst,
    pub render_group: Option<RenderGroup>,
}

/// Model of an inline node.
pub open spec fn spec_ben(n: BlockExprNode) -> SpecBen
    decreases n,
{
    match n {
        BlockExprNode::Char(c) => SpecBen::Char(c),
        BlockExprNode::Bold(v) => SpecBen::Bold(spec_bens(v@)),
        BlockExprNode::Italic(v) => SpecBen::Italic(spec_bens(v@)),
        BlockExprNode::Underline(v) => SpecBen::Underline(spec_bens(v@)),
        BlockExprNode::Strikethrough(v) => SpecBen::Strikethrough(spec_bens(v@)),
        BlockExprNode::NonbreakingSpace(v) => SpecBen::NonbreakingSpace(spec_bens(v@)),
        BlockExprNode::FloatToggle(v) => SpecBen::FloatToggle(spec_bens(v@)),
        BlockExprNode::Warning(v) => SpecBen::Warning(spec_bens(v@)),
        BlockExprNode::Code(s) => SpecBen::Code(s@),
        BlockExprNode::Link(t, o) => SpecBen::Link(
            spec_link_target(t),
            match o {
                Some(v) => Some(spec_bens(v@)),
                None => None,
            },
        ),
        BlockExprNode::Linespace => SpecBen::Linespace,
        BlockExprNode::HeaderRouting(r) => SpecBen::HeaderRouting(spec_route(r)),
    }
}

/// Model of a list of inline nodes.
pub open spec fn spec_bens(v: Seq<BlockExprNode>) -> Seq<SpecBen>
    decreases v,
{
    if v.len() == 0 {
        Seq::empty()
    } else {
        spec_bens(v.drop_last()).push(spec_ben(v.last()))
    }
}

/// Model of a link target.
pub open spec fn spec_link_target(t: LinkTarget) -> SpecLinkTarget {
    match t {
        LinkTarget::Heading { title } => SpecLinkTarget::Heading { title: title@ },
        LinkTarget::External(s) => SpecLinkTarget::External(s@),
    }
}

/// Model of a routing annotation.
pub open spec fn spec_route(r: Route) -> SpecRoute {
    match r {
        Route::Page(s) => SpecRoute::Page(s@),
        Route::Section(s) => SpecRoute::Section(s@),
        Route::RenderGroup(g) => SpecRoute::RenderGroup(g),
    }
}

/// Model of a directive.
pub open spec fn spec_directive(d: Directive) -> SpecDirective {
    match d {
        Directive::Id(s) => SpecDirective::Id(s@),
        Directive::Title(s) => SpecDirective::Title(s@),
        Directive::Raw(k, v) => SpecDirective::Raw(k@, v@),
    }
}

/// Model of a top-level node.
pub open spec fn spec_ast(n: AstNode) -> SpecAst
    decreases n,
{
    match n {
        AstNode::SourceBlock { language, code } => SpecAst::SourceBlock {
            language: language@,
            code: code@,
        },
        AstNode::Directive(d) => SpecAst::Directive(spec_directive(d)),
        AstNode::Heading { level, title, children, routing } => SpecAst::Heading {
            level,
            title: spec_bens(title@),
            children: spec_backs(children@),
            routing: match routing {
                Some(r) => Some(spec_route(r)),
                None => None,
            },
        },
        AstNode::Block(ty, bet) => SpecAst::Block(ty, spec_bens(bet@)),
        AstNode::HorizRule => SpecAst::HorizRule,
        AstNode::ListItem(lvl, children) => SpecAst::ListItem(lvl, spec_backs(children@)),
        AstNode::WarningBlock(ty, bet) => SpecAst::WarningBlock(ty, spec_bens(bet@)),
    }
}

/// Model of a list of top-level nodes.
pub open spec fn spec_asts(v: Seq<AstNode>) -> Seq<SpecAst>
    decreases v,
{
    if v.len() == 0 {
        Seq::empty()
    } else {
        spec_asts(v.drop_last()).push(spec_ast(v.last()))
    }
}

/// Model of an annotated node.
pub open spec fn spec_back(n: BackrefAstNode) -> SpecBack
    decreases n,
{
    SpecBack {
        parent_idx: n.parent_idx,
        inner: spec_ast(n.inner),
        render_group: n.render_group,
    }
}

/// Model of a list of annotated nodes.
pub open spec fn spec_backs(v: Seq<BackrefAstNode>) -> Seq<SpecBack>
    decreases v,
{
    if v.len() == 0 {
        Seq::empty()
    } else {
        spec_backs(v.drop_last()).push(spec_back(v.last()))
    }
}

impl View for BlockExprNode {
    type V = SpecBen;

    open spec fn view(&self) -> SpecBen {
        spec_ben(*self)
    }
}

impl DeepView for BlockExprNode {
    type V = SpecBen;

    open spec fn deep_view(&self) -> SpecBen {
        spec_ben(*self)
    }
}

impl View for AstNode {
    type V = SpecAst;

    open spec fn view(&self) -> SpecAst {
        spec_ast(*self)
    }
}

impl DeepView for AstNode {
    type V = SpecAst;

    open spec fn deep_view(&self) -> SpecAst {
        spec_ast(*self)
    }
}

impl View for BackrefAstNode {
    type V = SpecBack;

    open spec fn view(&self) -> SpecBack {
        spec_back(*self)
    }
}

impl DeepView for BackrefAstNode {
    type V = SpecBack;

    open spec fn deep_view(&self) -> SpecBack {
        spec_back(*self)
    }
}

/// The model of a node list has one model node per node, in order.
pub broadcast proof fn lemma_bens_index(v: Seq<BlockExprNode>)
    ensures
        (#[trigger] spec_bens(v)).len() == v.len(),
        forall|i: int| 0 <= i < v.len() ==> spec_bens(v)[i] == spec_ben(v[i]),
    decreases v.len(),
{
    if v.len() > 0 {
        lemma_bens_index(v.drop_last());
    }
}

/// The model of a node list has one model node per node, in order.
pub broadcast proof fn lemma_asts_index(v: Seq<AstNode>)
    ensures
        (#[trigger] spec_asts(v)).len() == v.len(),
        forall|i: int| 0 <= i < v.len() ==> spec_asts(v)[i] == spec_ast(v[i]),
    decreases v.len(),
{
    if v.len() > 0 {
        lemma_asts_index(v.drop_last());
    }
}

/// The model of a node list has one model node per node, in order.
pub broadcast proof fn lemma_backs_index(v: Seq<BackrefAstNode>)
    ensures
        (#[trigger] spec_backs(v)).len() == v.len(),
        forall|i: int| 0 <= i < v.len() ==> spec_backs(v)[i] == spec_back(v[i]),
    decreases v.len(),
{
    if v.len() > 0 {
        lemma_backs_index(v.drop_last());
    }
}

/// Wrapping a node with no parent reference and no render group.
pub open spec fn spec_unref(n: SpecAst) -> SpecBack {
    SpecBack { parent_idx: 0, inner: n, render_group: None }
}

/// The plain text of an inline tree: literal characters, and the text of
/// italic spans, in order.
pub open spec fn spec_stringify_bet(t: Seq<SpecBen>) -> Seq<char>
    decreases t,
{
    if t.len() == 0 {
        Seq::empty()
    } else {
        spec_stringify_bet(t.drop_last()) + spec_stringify_ben(t.last())
    }
}

/// The plain text one inline node contributes.
pub open spec fn spec_stringify_ben(n: SpecBen) -> Seq<char>
    decreases n,
{
    match n {
        SpecBen::Char(c) => seq![c],
        SpecBen::Italic(inner) => spec_stringify_bet(inner),
        _ => Seq::empty(),
    }
}



/// Appending one node appends its model.
pub proof fn lemma_bens_snoc(v: Seq<BlockExprNode>, x: BlockExprNode)
    ensures
        spec_bens(v.push(x)) == spec_bens(v).push(spec_ben(x)),
        spec_bens(v.push(x)) == spec_bens(v) + seq![spec_ben(x)],
{
    assert(v.push(x).drop_last() =~= v);
    assert(v.push(x).last() == x);
    assert(spec_bens(v).push(spec_ben(x)) =~= spec_bens(v) + seq![spec_ben(x)]);
}

/// The model of a concatenation is the concatenation of the models.
pub proof fn lemma_bens_concat(a: Seq<BlockExprNode>, b: Seq<BlockExprNode>)
    ensures
        spec_bens(a + b) == spec_bens(a) + spec_bens(b),
    decreases b.len(),
{
    if b.len() == 0 {
        assert(a + b =~= a);
        assert(spec_bens(a) + spec_bens(b) =~= spec_bens(a));
    } else {
        assert(a + b =~= (a + b.drop_last()).push(b.last()));
        lemma_bens_concat(a, b.drop_last());
        lemma_bens_snoc(a + b.drop_last(), b.last());
        assert(spec_bens(b.drop_last()).push(spec_ben(b.last())) =~= spec_bens(b));
        assert((spec_bens(a) + spec_bens(b.drop_last())).push(spec_ben(b.last())) =~= spec_bens(
            a,
        ) + spec_bens(b));
    }
}

/// Appending one node appends its model.
pub proof fn lemma_asts_snoc(v: Seq<AstNode>, x: AstNode)
    ensures
        spec_asts(v.push(x)) == spec_asts(v).push(spec_ast(x)),
        spec_asts(v.push(x)) == spec_asts(v) + seq![spec_ast(x)],
{
    assert(v.push(x).drop_last() =~= v);
    assert(v.push(x).last() == x);
    assert(spec_asts(v).push(spec_ast(x)) =~= spec_asts(v) + seq![spec_ast(x)]);
}


/// Only the blank-line node models as the blank-line marker.
pub proof fn lemma_ben_linespace_inv(n: BlockExprNode)
    ensures
        (spec_ben(n) is Linespace) <==> n is Linespace,
{
    match n {
        BlockExprNode::Char(..) => {},
        BlockExprNode::Bold(..) => {},
        BlockExprNode::Italic(..) => {},
        BlockExprNode::Underline(..) => {},
        BlockExprNode::Strikethrough(..) => {},
        BlockExprNode::NonbreakingSpace(..) => {},
        BlockExprNode::FloatToggle(..) => {},
        BlockExprNode::Warning(..) => {},
        BlockExprNode::Code(..) => {},
        BlockExprNode::Link(..) => {},
        BlockExprNode::Linespace => {},
        BlockExprNode::HeaderRouting(..) => {},
    }
}


/// Only the matching character node models as that character.
pub proof fn lemma_ben_char_inv(n: BlockExprNode, c: char)
    ensures
        (spec_ben(n) == SpecBen::Char(c)) <==> n == BlockExprNode::Char(c),
{
    match n {
        BlockExprNode::Char(..) => {},
        BlockExprNode::Bold(..) => {},
        BlockExprNode::Italic(..) => {},
        BlockExprNode::Underline(..) => {},
        BlockExprNode::Strikethrough(..) => {},
        BlockExprNode::NonbreakingSpace(..) => {},
        BlockExprNode::FloatToggle(..) => {},
        BlockExprNode::Warning(..) => {},
        BlockExprNode::Code(..) => {},
        BlockExprNode::Link(..) => {},
        BlockExprNode::Linespace => {},
        BlockExprNode::HeaderRouting(..) => {},
    }
}

/// A directive models as unclassified exactly when it is unclassified.
pub proof fn lemma_directive_raw_inv(d: Directive)
    ensures
        (spec_directive(d) is Raw) <==> d is Raw,
{
    match d {
        Directive::Id(..) => {},
        Directive::Title(..) => {},
        Directive::Raw(..) => {},
    }
}

} // verus!
