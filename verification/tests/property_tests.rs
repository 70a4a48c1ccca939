//! Scenario tests for the documented behaviours of the pipeline: routing
//! extraction, nested emphasis, verbatim code, source blocks, directives,
//! list items, render-group propagation, and the fatal error positions.

use orgish::chars::chars_to_string;
use orgish::combiner::{ast_node, org_file};
use orgish::data::{
    AstNode, BackrefAstNode, BlockExprNode, BlockType, Directive, LinkTarget, OutputTo,
    RenderGroup, Route,
};
use orgish::data::stringify_bet;
use orgish::{parse_n_pass, str_chars, ParseError};

/// Wraps a node the way the annotation pass leaves a root node.
fn bk(n: AstNode) -> BackrefAstNode {
    BackrefAstNode { parent_idx: 0, inner: n, render_group: None }
}

/// Wraps a node with an explicit render group.
fn bkg(n: AstNode, g: RenderGroup) -> BackrefAstNode {
    BackrefAstNode { parent_idx: 0, inner: n, render_group: Some(g) }
}

/// The characters of a string as literal inline nodes.
fn cs(s: &str) -> Vec<BlockExprNode> {
    s.chars().map(BlockExprNode::Char).collect()
}

#[test]
fn routing_extraction_with_spaces() {
    assert_eq!(
        parse_n_pass("* :/path: h\n").unwrap(),
        vec![bk(AstNode::Heading {
            level: 1,
            title: cs("h"),
            children: vec![],
            routing: Some(Route::Page("/path".to_string())),
        })]
    );
}

#[test]
fn routing_extraction_without_spaces() {
    assert_eq!(
        parse_n_pass("*:/path:h\n").unwrap(),
        vec![bk(AstNode::Heading {
            level: 1,
            title: cs("h"),
            children: vec![],
            routing: Some(Route::Page("/path".to_string())),
        })]
    );
}

#[test]
fn routing_extraction_at_title_end() {
    assert_eq!(
        parse_n_pass("** Blah blah :world:\n").unwrap(),
        vec![bk(AstNode::Heading {
            level: 2,
            title: cs("Blah blah"),
            children: vec![],
            routing: Some(Route::Page("world".to_string())),
        })]
    );
}

#[test]
fn routing_section_anchor() {
    assert_eq!(
        parse_n_pass("* :#how: t\n").unwrap(),
        vec![bk(AstNode::Heading {
            level: 1,
            title: cs("t"),
            children: vec![],
            routing: Some(Route::Section("how".to_string())),
        })]
    );
}

#[test]
fn render_group_propagates_to_children() {
    assert_eq!(
        parse_n_pass("* :@nav: t\n** c\nbody\n").unwrap(),
        vec![bkg(
            AstNode::Heading {
                level: 1,
                title: cs("t"),
                children: vec![bkg(
                    AstNode::Heading {
                        level: 2,
                        title: cs("c"),
                        children: vec![bkg(
                            AstNode::Block(BlockType::Block, cs("body")),
                            RenderGroup::Nav
                        )],
                        routing: None,
                    },
                    RenderGroup::Nav
                )],
                routing: Some(Route::RenderGroup(RenderGroup::Nav)),
            },
            RenderGroup::Nav
        )]
    );
}

#[test]
fn mixed_nested_emphasis() {
    assert_eq!(
        parse_n_pass("_/*combine*/_\n").unwrap(),
        vec![bk(AstNode::Block(
            BlockType::Block,
            vec![BlockExprNode::Underline(vec![BlockExprNode::Italic(vec![
                BlockExprNode::Bold(cs("combine")),
            ])])]
        ))]
    );
}

#[test]
fn inline_code_is_not_reparsed() {
    assert_eq!(
        parse_n_pass("=_literally_=\n").unwrap(),
        vec![bk(AstNode::Block(
            BlockType::Block,
            vec![BlockExprNode::Code("_literally_".to_string())]
        ))]
    );
    assert_eq!(
        parse_n_pass("~*also* /literal/~\n").unwrap(),
        vec![bk(AstNode::Block(
            BlockType::Block,
            vec![BlockExprNode::Code("*also* /literal/".to_string())]
        ))]
    );
}

#[test]
fn source_block_with_language() {
    assert_eq!(
        parse_n_pass("#+BEGIN_SRC rust\nfn main() {}\n#+END_SRC\n").unwrap(),
        vec![bk(AstNode::SourceBlock {
            language: "rust".to_string(),
            code: "fn main() {}\n".to_string(),
        })]
    );
}

#[test]
fn source_block_without_language() {
    assert_eq!(
        parse_n_pass("#+BEGIN_SRC\n*not bold*\n#+END_SRC\n").unwrap(),
        vec![bk(AstNode::SourceBlock {
            language: "Plain Text".to_string(),
            code: "*not bold*\n".to_string(),
        })]
    );
}

#[test]
fn directive_id_and_case_insensitive_keys() {
    assert_eq!(
        parse_n_pass("#+id: xyz\n").unwrap(),
        vec![bk(AstNode::Directive(Directive::Id("xyz".to_string())))]
    );
    assert_eq!(
        parse_n_pass("#+TiTlE: a b\n").unwrap(),
        vec![bk(AstNode::Directive(Directive::Title("a b".to_string())))]
    );
}

#[test]
fn unknown_directive_is_dropped() {
    assert_eq!(parse_n_pass("#+AUTHOR: someone\n").unwrap(), vec![]);
}

#[test]
fn horiz_rule() {
    assert_eq!(parse_n_pass("-----\n").unwrap(), vec![bk(AstNode::HorizRule)]);
}

#[test]
fn list_item_takes_following_content() {
    assert_eq!(
        parse_n_pass("- hello\n").unwrap(),
        vec![bk(AstNode::ListItem(
            0,
            vec![bk(AstNode::Block(BlockType::Block, cs("hello")))]
        ))]
    );
}

#[test]
fn list_item_ends_at_blank_line() {
    assert_eq!(
        parse_n_pass("+ a\n\nrest\n").unwrap(),
        vec![
            bk(AstNode::ListItem(
                0,
                vec![bk(AstNode::Block(BlockType::Block, cs("a")))]
            )),
            bk(AstNode::Block(BlockType::Block, cs("rest"))),
        ]
    );
}

#[test]
fn internal_link_target() {
    assert_eq!(
        parse_n_pass("[[*Some Heading]]\n").unwrap(),
        vec![bk(AstNode::Block(
            BlockType::Block,
            vec![BlockExprNode::Link(
                LinkTarget::Heading { title: "Some Heading".to_string() },
                None
            )]
        ))]
    );
}

#[test]
fn float_toggle_and_warning_spans() {
    assert_eq!(
        parse_n_pass("ft&x&ft\n").unwrap(),
        vec![bk(AstNode::Block(
            BlockType::Block,
            vec![BlockExprNode::FloatToggle(cs("x"))]
        ))]
    );
    assert_eq!(
        parse_n_pass("warning&w&warning\n").unwrap(),
        vec![bk(AstNode::Block(
            BlockType::Block,
            vec![BlockExprNode::Warning(cs("w"))]
        ))]
    );
}

#[test]
fn stars_without_whitespace_are_not_a_heading() {
    assert_eq!(
        parse_n_pass("*bold*\n").unwrap(),
        vec![bk(AstNode::Block(
            BlockType::Block,
            vec![BlockExprNode::Bold(cs("bold"))]
        ))]
    );
}

#[test]
fn unterminated_line_is_a_fatal_error() {
    assert_eq!(parse_n_pass("hi"), Err(ParseError { at: 2 }));
}

#[test]
fn empty_delimiter_span_is_a_fatal_error() {
    assert_eq!(parse_n_pass("a **b\n"), Err(ParseError { at: 3 }));
}

#[test]
fn org_file_yields_the_flat_stream() {
    let input = str_chars("* a\nbh\n");
    let flat = org_file(&input).unwrap();
    assert_eq!(
        flat,
        vec![
            AstNode::Heading { level: 1, title: cs("a"), children: vec![], routing: None },
            AstNode::Block(BlockType::Block, cs("bh")),
        ]
    );
}

#[test]
fn ast_node_consumes_one_statement() {
    let input = str_chars("-----\nrest\n");
    let r = ast_node(&input, 0).unwrap();
    assert_eq!(r, Some((AstNode::HorizRule, 6)));
}

#[test]
fn stringify_collects_chars_and_italics() {
    let bet = vec![
        BlockExprNode::Char('h'),
        BlockExprNode::Italic(cs("i")),
        BlockExprNode::Bold(cs("zzz")),
    ];
    assert_eq!(stringify_bet(&bet), "hi".to_string());
}

#[test]
fn output_channel_selection() {
    assert_eq!(
        OutputTo::from_route(Some(Route::RenderGroup(RenderGroup::Nav))),
        Some(OutputTo::Nav)
    );
    assert_eq!(OutputTo::from_route(Some(Route::Page("p".to_string()))), None);
    assert_eq!(OutputTo::from_route(None), None);
    assert!(OutputTo::Main.is_using_default_rendering());
    assert!(!OutputTo::Nav.is_using_default_rendering());
}

#[test]
fn char_vector_round_trip() {
    let v = str_chars("héllo\u{a0}w");
    assert_eq!(chars_to_string(&v), "héllo\u{a0}w".to_string());
    assert!(BlockExprNode::Char('x').is_char());
    assert!(!BlockExprNode::Linespace.is_char());
}
