//! The same scenarios as the pipeline tests, exercised against the flat
//! parser and the tree-shaping pass directly.

use orgish::combiner::org_file;
use orgish::data::{AstNode, BackrefAstNode, BlockExprNode, BlockType, Directive};
use orgish::pass1::flat_nodes_to_tree;
use orgish::pass1::StopReq;
use orgish::str_chars;

/// Wraps a node the way the tree-shaping pass leaves a child node.
fn bk(n: AstNode) -> BackrefAstNode {
    BackrefAstNode { parent_idx: 0, inner: n, render_group: None }
}

/// The characters of a string as literal inline nodes.
fn cs(s: &str) -> Vec<BlockExprNode> {
    s.chars().map(BlockExprNode::Char).collect()
}

/// The flat stream of a document.
fn flat(s: &str) -> Vec<AstNode> {
    org_file(&str_chars(s)).unwrap()
}

/// The shaped tree of a document, before annotation.
fn tree(s: &str) -> Vec<AstNode> {
    let stream = flat(s);
    let mut pos: usize = 0;
    let reqs: Vec<StopReq> = Vec::new();
    flat_nodes_to_tree(&stream, &mut pos, &reqs)
}

#[test]
fn test_parses_directive() {
    assert_eq!(
        flat("#+TITLE: hello\n"),
        vec![AstNode::Directive(Directive::Raw("TITLE".to_string(), "hello".to_string()))]
    );
}

#[test]
fn test_parses_text() {
    assert_eq!(
        flat("hi world\n"),
        vec![AstNode::Block(BlockType::Block, cs("hi world"))]
    );
}

#[test]
fn test_parses_empty() {
    assert_eq!(flat(""), vec![]);
}

#[test]
fn test_parses_whitespaces() {
    assert_eq!(
        flat(" \n \n"),
        vec![
            AstNode::Block(BlockType::Block, cs(" ")),
            AstNode::Block(BlockType::Block, cs(" ")),
        ]
    );
    assert_eq!(
        flat("\n\n"),
        vec![
            AstNode::Block(BlockType::Inline, vec![BlockExprNode::Linespace]),
            AstNode::Block(BlockType::Inline, vec![BlockExprNode::Linespace]),
        ]
    );
}

#[test]
fn test_parses_comment() {
    let tests = vec!["\n# test\n", "\n\n# test\n", "# test\n", "# test \n"];
    for test in tests {
        assert!(
            flat(test)
                .iter()
                .all(|n| n
                    == &AstNode::Block(BlockType::Inline, vec![BlockExprNode::Linespace])),
            "input: '{}' did not parse to single linespace",
            test
        );
    }
}

#[test]
fn test_parses_heading() {
    assert_eq!(
        flat("* ta\nbh\n"),
        vec![
            AstNode::Heading { level: 1, title: cs("ta"), children: vec![], routing: None },
            AstNode::Block(BlockType::Block, cs("bh")),
        ]
    );
}

#[test]
fn test_parse_escapes_heading_level() {
    assert_eq!(
        tree("* a\n** b\n** c\n* d\n"),
        vec![
            AstNode::Heading {
                level: 1,
                title: cs("a"),
                children: vec![
                    bk(AstNode::Heading {
                        level: 2,
                        title: cs("b"),
                        children: vec![],
                        routing: None,
                    }),
                    bk(AstNode::Heading {
                        level: 2,
                        title: cs("c"),
                        children: vec![],
                        routing: None,
                    }),
                ],
                routing: None,
            },
            AstNode::Heading { level: 1, title: cs("d"), children: vec![], routing: None },
        ]
    );
}
