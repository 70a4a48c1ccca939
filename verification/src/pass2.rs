//! The annotation pass: stamps every node with its structural parent index
//! and the render group it inherits, walking the tree top-down. A heading
//! that declares a render group overrides what its subtree inherits.

use vstd::prelude::*;
use crate::data::{
    AbstractSyntaxTree, AstNode, BackrefAstNode, PassedSyntaxTree, RenderGroup,
};
use crate::pass1::unref_all;
use crate::spec_ast::{
    lemma_backs_index, spec_ast, spec_asts, spec_back, spec_backs, SpecAst, SpecBack, SpecRoute,
};

verus! {

/// The render group a node's own subtree inherits: a heading's declared
/// render group where it declares one, else what was passed down.
pub open spec fn sp_child_group(n: SpecAst, rg: Option<RenderGroup>) -> Option<RenderGroup> {
    match n {
        SpecAst::Heading { routing, .. } => match routing {
            Some(SpecRoute::RenderGroup(g)) => Some(g),
            _ => rg,
        },
        _ => rg,
    }
}

/// Annotation of one node: the parent index and render group are stamped,
/// and the children of headings and list items are annotated in turn, with
/// the render group a heading may override.
pub open spec fn sp_pass2_one(n: SpecBack, parent: usize, rg: Option<RenderGroup>) -> SpecBack
    decreases n,
{
    match n.inner {
        SpecAst::Heading { level, title, children, routing } => {
            let new_rg = sp_child_group(n.inner, rg);
            SpecBack {
                parent_idx: parent,
                render_group: new_rg,
                inner: SpecAst::Heading {
                    level,
                    title,
                    children: sp_pass2(children, parent, new_rg),
                    routing,
                },
            }
        },
        SpecAst::ListItem(lvl, children) => SpecBack {
            parent_idx: parent,
            render_group: rg,
            inner: SpecAst::ListItem(lvl, sp_pass2(children, parent, rg)),
        },
        other => SpecBack { parent_idx: parent, render_group: rg, inner: other },
    }
}

/// Annotation of a sibling sequence, in order.
pub open spec fn sp_pass2(ns: Seq<SpecBack>, parent: usize, rg: Option<RenderGroup>) -> Seq<
    SpecBack,
>
    decreases ns,
{
    if ns.len() == 0 {
        Seq::empty()
    } else {
        seq![sp_pass2_one(ns[0], parent, rg)] + sp_pass2(ns.drop_first(), parent, rg)
    }
}

/// Annotating element by element from the left appends one annotated node.
pub proof fn lemma_sp_pass2_snoc(ns: Seq<SpecBack>, x: SpecBack, parent: usize, rg: Option<
    RenderGroup,
>)
    ensures
        sp_pass2(ns.push(x), parent, rg) == sp_pass2(ns, parent, rg).push(
            sp_pass2_one(x, parent, rg),
        ),
    decreases ns.len(),
{
    if ns.len() == 0 {
        assert(ns.push(x)[0] == x);
        assert(ns.push(x).drop_first() =~= Seq::<SpecBack>::empty());
        assert(sp_pass2(Seq::<SpecBack>::empty(), parent, rg) =~= Seq::<SpecBack>::empty());
        assert(sp_pass2(ns.push(x), parent, rg) == seq![sp_pass2_one(x, parent, rg)]
            + sp_pass2(ns.push(x).drop_first(), parent, rg));
        assert(sp_pass2(ns.push(x), parent, rg) =~= sp_pass2(ns, parent, rg).push(
            sp_pass2_one(x, parent, rg),
        ));
    } else {
        assert(ns.push(x)[0] == ns[0]);
        assert(ns.push(x).drop_first() =~= ns.drop_first().push(x));
        lemma_sp_pass2_snoc(ns.drop_first(), x, parent, rg);
        assert(sp_pass2(ns.push(x), parent, rg) == seq![sp_pass2_one(ns[0], parent, rg)] + (
        sp_pass2(ns.drop_first(), parent, rg).push(sp_pass2_one(x, parent, rg))));
        assert(sp_pass2(ns.push(x), parent, rg) =~= sp_pass2(ns, parent, rg).push(
            sp_pass2_one(x, parent, rg),
        ));
    }
}

/// A copy of a directive.
fn clone_directive(d: &crate::data::Directive) -> (o: crate::data::Directive)
    ensures
        crate::spec_ast::spec_directive(o) == crate::spec_ast::spec_directive(*d),
{
    match d {
        crate::data::Directive::Id(s) => crate::data::Directive::Id(s.clone()),
        crate::data::Directive::Title(s) => crate::data::Directive::Title(s.clone()),
        crate::data::Directive::Raw(k, v) => crate::data::Directive::Raw(k.clone(), v.clone()),
    }
}

/// A copy of an optional routing annotation.
fn clone_opt_route(r: &Option<crate::data::Route>) -> (o: Option<crate::data::Route>)
    ensures
        match *r {
            Some(rt) => o matches Some(ot) && crate::spec_ast::spec_route(ot)
                == crate::spec_ast::spec_route(rt),
            None => o is None,
        },
{
    match r {
        Some(rt) => Some(crate::pass1::clone_route(rt)),
        None => None,
    }
}

/// Annotates a sibling sequence with the given parent index and inherited
/// render group, recursing into heading and list-item children.
fn add_backreferences_internal(
    nodes: &Vec<BackrefAstNode>,
    parent_idx: usize,
    render_group: Option<RenderGroup>,
) -> (r: PassedSyntaxTree)
    ensures
        spec_backs(r@) == sp_pass2(spec_backs(nodes@), parent_idx, render_group),
    decreases nodes@,
{
    proof {
        lemma_backs_index(nodes@);
    }
    let ghost model = spec_backs(nodes@);
    let mut out: PassedSyntaxTree = Vec::new();
    let mut i: usize = 0;
    proof {
        assert(model.take(0) =~= Seq::<SpecBack>::empty());
        assert(sp_pass2(model.take(0), parent_idx, render_group) =~= Seq::<SpecBack>::empty());
        assert(spec_backs(out@) =~= Seq::<SpecBack>::empty());
    }
    while i < nodes.len()
        invariant
            i <= nodes@.len(),
            model == spec_backs(nodes@),
            model.len() == nodes@.len(),
            forall|k: int| 0 <= k < nodes@.len() ==> model[k] == spec_back(nodes@[k]),
            spec_backs(out@) == sp_pass2(model.take(i as int), parent_idx, render_group),
        decreases nodes@.len() - i,
    {
        proof {
            assert(model.take(i as int).push(model[i as int]) =~= model.take(i + 1));
            lemma_sp_pass2_snoc(model.take(i as int), model[i as int], parent_idx, render_group);
            assert(decreases_to!(nodes@ => nodes@[i as int]));
        }
        let n = &nodes[i];
        let annotated: BackrefAstNode = match &n.inner {
            AstNode::Heading { level, title, children, routing } => {
                let new_rg: Option<RenderGroup> = match routing {
                    Some(crate::data::Route::RenderGroup(g)) => Some(*g),
                    _ => render_group,
                };
                proof {
                    assert(decreases_to!(nodes@[i as int] => nodes@[i as int].inner));
                    assert(decreases_to!(nodes@[i as int].inner => *children));
                }
                let new_children = add_backreferences_internal(children, parent_idx, new_rg);
                BackrefAstNode {
                    parent_idx,
                    render_group: new_rg,
                    inner: AstNode::Heading {
                        level: *level,
                        title: crate::pass1::clone_bet(title),
                        children: new_children,
                        routing: clone_opt_route(routing),
                    },
                }
            },
            AstNode::ListItem(lvl, children) => {
                proof {
                    assert(decreases_to!(nodes@[i as int] => nodes@[i as int].inner));
                    assert(decreases_to!(nodes@[i as int].inner => *children));
                }
                let new_children = add_backreferences_internal(
                    children,
                    parent_idx,
                    render_group,
                );
                BackrefAstNode {
                    parent_idx,
                    render_group,
                    inner: AstNode::ListItem(*lvl, new_children),
                }
            },
            AstNode::SourceBlock { language, code } => BackrefAstNode {
                parent_idx,
                render_group,
                inner: AstNode::SourceBlock {
                    language: language.clone(),
                    code: code.clone(),
                },
            },
            AstNode::Directive(d) => BackrefAstNode {
                parent_idx,
                render_group,
                inner: AstNode::Directive(clone_directive(d)),
            },
            AstNode::Block(ty, bet) => BackrefAstNode {
                parent_idx,
                render_group,
                inner: AstNode::Block(*ty, crate::pass1::clone_bet(bet)),
            },
            AstNode::HorizRule => BackrefAstNode {
                parent_idx,
                render_group,
                inner: AstNode::HorizRule,
            },
            AstNode::WarningBlock(ty, bet) => BackrefAstNode {
                parent_idx,
                render_group,
                inner: AstNode::WarningBlock(*ty, crate::pass1::clone_bet(bet)),
            },
        };
        proof {
            assert(spec_back(annotated) == sp_pass2_one(model[i as int], parent_idx, render_group));
            lemma_backs_index(out@);
            lemma_backs_index(out@.push(annotated));
            assert(spec_backs(out@.push(annotated)) =~= spec_backs(out@).push(
                spec_back(annotated),
            ));
        }
        out.push(annotated);
        i = i + 1;
    }
    proof {
        assert(model.take(model.len() as int) =~= model);
    }
    out
}

/// Stamps every node, at every depth, with its structural parent index and
/// its effective render group, starting from no parent and no group.
pub fn add_backreferences(nodes: AbstractSyntaxTree) -> (r: PassedSyntaxTree)
    ensures
        spec_backs(r@) == sp_pass2(unref_all(spec_asts(nodes@)), 0, None),
{
    let wrapped = crate::pass1::unref_vec(nodes);
    add_backreferences_internal(&wrapped, 0, None)
}

} // verus!
