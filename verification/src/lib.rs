//! A parser for a lightweight org-style markup language.
//!
//! The pipeline has three stages: a character-level grammar produces a flat,
//! line-oriented stream of nodes; a structural pass folds that stream into a
//! nested tree, resolving inline markup on the way; a final pass stamps every
//! node with its structural parent index and an inherited render group.

pub mod chars;
pub mod data;
pub mod spec_ast;
pub mod spec_grammar;
pub mod combiner;
pub mod pass1;
pub mod pass2;
pub mod laws;

use vstd::prelude::*;

verus! {

/// A fatal parse failure, carrying the character index at which it was found.
#[derive(Debug, Clone, PartialEq, Eq, Structural)]
pub struct ParseError {
    pub at: usize,
}

/// Collects the characters of a string slice into a vector.
pub fn str_chars(s: &str) -> (v: Vec<char>)
    ensures
        v@ == s@,
{
    let n: usize = s.unicode_len();
    let mut v: Vec<char> = Vec::new();
    let mut i: usize = 0;
    while i < n
        invariant
            i <= n,
            n == s@.len(),
            v@ == s@.subrange(0, i as int),
        decreases n - i,
    {
        v.push(s.get_char(i));
        i = i + 1;
        proof {
            assert(v@ =~= s@.subrange(0, i as int));
        }
    }
    proof {
        assert(v@ =~= s@);
    }
    v
}


/// What the whole pipeline returns: the flat stream of the grammar, shaped
/// into a tree and annotated, or the position of the fatal parse failure.
pub open spec fn sp_parse(s: Seq<char>) -> Result<Seq<crate::spec_ast::SpecBack>, int> {
    match crate::spec_grammar::sp_org_file(s) {
        crate::spec_grammar::SpecParse::Hit(flat, j) => Ok(
            crate::pass2::sp_pass2(
                crate::pass1::unref_all(
                    crate::pass1::sp_tree(flat, 0, Seq::empty()).0,
                ),
                0,
                None,
            ),
        ),
        crate::spec_grammar::SpecParse::Fatal(p) => Err(p),
        // the grammar never reports a recoverable mismatch at the top level
        crate::spec_grammar::SpecParse::Miss => arbitrary(),
    }
}

/// Parses a whole document: the flat stream is built by the grammar, shaped
/// into a tree, and annotated with parent indices and render groups.
pub fn parse_n_pass(input: &str) -> (r: Result<crate::data::PassedSyntaxTree, ParseError>)
    ensures
        match sp_parse(input@) {
            Ok(t) => r matches Ok(v) && crate::spec_ast::spec_backs(v@) == t,
            Err(p) => r matches Err(e) && e.at as int == p,
        },
{
    let chars = str_chars(input);
    proof {
        crate::spec_grammar::lemma_nodes_no_miss(chars@, 0);
        crate::pass1::lemma_nodes_all_raw(chars@, 0);
    }
    match crate::combiner::org_file(&chars) {
        Err(e) => Err(e),
        Ok(flat) => {
            let mut pos: usize = 0;
            let reqs: Vec<crate::pass1::StopReq> = Vec::new();
            proof {
                assert(reqs@ =~= Seq::<crate::pass1::StopReq>::empty());
            }
            let tree = crate::pass1::flat_nodes_to_tree(&flat, &mut pos, &reqs);
            let annotated = crate::pass2::add_backreferences(tree);
            Ok(annotated)
        },
    }
}

} // verus!
