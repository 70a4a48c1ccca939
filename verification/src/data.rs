//! The document tree: inline markup nodes, top-level nodes, and the
//! annotated node that the final pass produces.

use vstd::prelude::*;
use crate::spec_ast::{
    spec_ben, spec_bens, spec_stringify_ben, spec_stringify_bet, spec_unref, lemma_bens_index,
    SpecBen,
};

verus! {

/// One inline markup unit: a literal character, an emphasis span, a link,
/// inline code, or one of the parse-time sentinels.
#[derive(Debug, PartialEq, Eq)]
pub enum BlockExprNode {
    Char(char),
    Bold(BlockExprTree),
    Italic(BlockExprTree),
    Underline(BlockExprTree),
    Strikethrough(BlockExprTree),
    NonbreakingSpace(BlockExprTree),
    /// Toggles content float in the rendered output.
    FloatToggle(BlockExprTree),
    Warning(BlockExprTree),
    /// Inline verbatim text; its content is never parsed as markup.
    Code(String),
    Link(LinkTarget, Option<BlockExprTree>),
    /// One or more blank or comment lines; eliminated before the tree is done.
    Linespace,
    /// A routing annotation inside a heading title; consumed while the
    /// heading is processed and never present in the finished tree.
    HeaderRouting(Route),
}

/// An ordered sequence of inline markup nodes.
pub type BlockExprTree = Vec<BlockExprNode>;

/// A document directive, classified by key.
#[derive(Debug, Clone, PartialEq, Eq)]
pub enum Directive {
    Id(String),
    Title(String),
    /// The unclassified key/value pair the flat parser produces; resolved or
    /// dropped before the tree is done.
    Raw(String, String),
}

/// Where a link points: another heading of the same document, or an
/// external target.
#[derive(Debug, Clone, PartialEq, Eq)]
pub enum LinkTarget {
    Heading { title: String },
    External(String),
}

/// A heading's routing annotation: the page path, section anchor, or render
/// group its subtree serves.
#[derive(Debug, Clone, PartialEq, Eq)]
pub enum Route {
    Page(String),
    Section(String),
    RenderGroup(RenderGroup),
}

/// A named output channel a subtree can be routed to.
#[derive(Debug, Clone, Copy, PartialEq, Eq, Structural)]
pub enum RenderGroup {
    Nav,
}

/// The output channel a renderer is currently filling.
#[derive(Debug, Clone, Copy, PartialEq, Eq, Structural)]
pub enum OutputTo {
    Main,
    Nav,
}

/// Whether a run of inline content stands in its own paragraph-like
/// container or flows inline.
#[derive(Debug, Clone, Copy, PartialEq, Eq, Structural)]
pub enum BlockType {
    Block,
    Inline,
}

/// One top-level unit of the document.
#[derive(Debug, PartialEq, Eq)]
pub enum AstNode {
    SourceBlock { language: String, code: String },
    Directive(Directive),
    Heading {
        level: u16,
        title: BlockExprTree,
        children: Vec<BackrefAstNode>,
        routing: Option<Route>,
    },
    Block(BlockType, BlockExprTree),
    HorizRule,
    ListItem(u16, Vec<BackrefAstNode>),
    WarningBlock(BlockType, BlockExprTree),
}

/// An ordered sequence of top-level nodes, before annotation.
pub type AbstractSyntaxTree = Vec<AstNode>;

/// A node annotated with its structural parent's index and its effective
/// render group.
#[derive(Debug, PartialEq, Eq)]
pub struct BackrefAstNode {
    /// Index of the structural parent within the collection this node is in.
    pub parent_idx: usize,
    pub inner: AstNode,
    pub render_group: Option<RenderGroup>,
}

/// The fully annotated tree the pipeline returns.
pub type PassedSyntaxTree = Vec<BackrefAstNode>;

impl OutputTo {
    /// The output channel a routing annotation selects, where it selects one.
    pub fn from_route(route: Option<Route>) -> (r: Option<Self>)
        ensures
            r == (match route {
                Some(Route::RenderGroup(RenderGroup::Nav)) => Some(OutputTo::Nav),
                _ => None::<OutputTo>,
            }),
    {
        if let Some(Route::RenderGroup(rg)) = route {
            match rg {
                RenderGroup::Nav => Some(OutputTo::Nav),
            }
        } else {
            None
        }
    }

    /// Does this channel render into full HTML?
    pub fn is_using_default_rendering(&self) -> (r: bool)
        ensures
            r == (*self is Main),
    {
        match self {
            OutputTo::Main => true,
            _ => false,
        }
    }
}

impl BlockExprNode {
    /// Returns `true` if this node is a literal character.
    pub fn is_char(&self) -> (r: bool)
        ensures
            r == (*self is Char),
    {
        matches!(self, BlockExprNode::Char(..))
    }
}

impl BackrefAstNode {
    /// Wraps a node with no parent reference and no render group yet.
    pub fn new_unref(with: AstNode) -> (r: Self)
        ensures
            r.parent_idx == 0,
            r.inner == with,
            r.render_group is None,
            r@ == spec_unref(with@),
    {
        BackrefAstNode { parent_idx: 0, inner: with, render_group: None }
    }
}

/// The plain text of an inline tree: literal characters, and the text of
/// italic spans, in order; every other node contributes nothing.
pub fn stringify_bet(bet: &BlockExprTree) -> (r: String)
    ensures
        r@ == spec_stringify_bet(spec_bens(bet@)),
{
    let mut buf: Vec<char> = Vec::new();
    stringify_into(bet, &mut buf);
    crate::chars::chars_to_string(&buf)
}

fn stringify_into(bet: &BlockExprTree, buf: &mut Vec<char>)
    ensures
        final(buf)@ == old(buf)@ + spec_stringify_bet(spec_bens(bet@)),
    decreases bet@,
{
    let ghost start = buf@;
    let ghost model = spec_bens(bet@);
    proof {
        lemma_bens_index(bet@);
        assert(model.take(0) =~= Seq::<SpecBen>::empty());
    }
    let mut i: usize = 0;
    while i < bet.len()
        invariant
            i <= bet@.len(),
            model == spec_bens(bet@),
            model.len() == bet@.len(),
            forall|k: int| 0 <= k < bet@.len() ==> model[k] == spec_ben(bet@[k]),
            buf@ == start + spec_stringify_bet(model.take(i as int)),
        decreases bet@.len() - i,
    {
        proof {
            let t1 = model.take(i + 1);
            assert(t1.drop_last() =~= model.take(i as int));
            assert(t1.last() == spec_ben(bet@[i as int]));
            assert(spec_stringify_bet(t1) == spec_stringify_bet(model.take(i as int))
                + spec_stringify_ben(spec_ben(bet@[i as int])));
            assert(decreases_to!(bet@ => bet@[i as int]));
        }
        match &bet[i] {
            BlockExprNode::Char(c) => {
                buf.push(*c);
                proof {
                    assert(spec_stringify_ben(spec_ben(bet@[i as int])) =~= seq![*c]);
                    assert(buf@ =~= start + spec_stringify_bet(model.take(i + 1)));
                }
            }
            BlockExprNode::Italic(inner) => {
                proof {
                    assert(decreases_to!(bet@[i as int] => *inner));
                }
                stringify_into(inner, buf);
                proof {
                    assert(spec_stringify_ben(spec_ben(bet@[i as int])) == spec_stringify_bet(
                        spec_bens(inner@),
                    ));
                    assert(buf@ =~= start + spec_stringify_bet(model.take(i + 1)));
                }
            }
            _ => {
                proof {
                    assert(spec_stringify_ben(spec_ben(bet@[i as int])) =~= Seq::<
                        char,
                    >::empty());
                    assert(buf@ =~= start + spec_stringify_bet(model.take(i + 1)));
                }
            }
        }
        i = i + 1;
    }
    proof {
        assert(model.take(model.len() as int) =~= model);
    }
}

} // verus!
