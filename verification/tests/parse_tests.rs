//! The original parser tests, against the full pipeline.

use orgish::data::{
    AstNode, BackrefAstNode, BlockExprNode, BlockType, Directive, LinkTarget,
};
use orgish::parse_n_pass;

/// Wraps a node the way the annotation pass leaves a root node.
fn bk(n: AstNode) -> BackrefAstNode {
    BackrefAstNode { parent_idx: 0, inner: n, render_group: None }
}

/// The characters of a string as literal inline nodes.
fn cs(s: &str) -> Vec<BlockExprNode> {
    s.chars().map(BlockExprNode::Char).collect()
}

#[test]
fn parses_directive() {
    assert_eq!(
        parse_n_pass("#+TITLE: hello\n").unwrap(),
        vec![bk(AstNode::Directive(Directive::Title("hello".to_string())))]
    );
}

#[test]
fn parses_text() {
    assert_eq!(
        parse_n_pass("hi world\n").unwrap(),
        vec![bk(AstNode::Block(BlockType::Block, cs("hi world")))]
    );
}

#[test]
fn parses_empty() {
    assert_eq!(parse_n_pass("").unwrap(), vec![]);
}

#[test]
fn parses_whitespaces() {
    assert_eq!(
        parse_n_pass(" \n \n").unwrap(),
        vec![
            bk(AstNode::Block(BlockType::Block, cs(" "))),
            bk(AstNode::Block(BlockType::Block, cs(" ")))
        ],
    );
    assert_eq!(parse_n_pass("\n\n").unwrap(), vec![]);
}

#[test]
fn parses_comment() {
    let tests = vec!["\n# test\n", "\n\n# test\n", "# test\n", "# test \n"];
    for test in tests {
        assert!(
            parse_n_pass(test)
                .unwrap()
                .iter()
                .all(|n| n.inner
                    == AstNode::Block(BlockType::Block, vec![BlockExprNode::Linespace])),
            "input: '{}' did not parse to single linespace",
            test
        );
    }
}

#[test]
fn parses_heading() {
    struct TI(&'static str, u16);
    let tests = vec![
        TI("* ta\nbh\n", 1),
        TI(" * ta\nbh\n", 1),
        TI("** ta\nbh\n", 2),
    ];
    for test in tests {
        assert_eq!(
            parse_n_pass(test.0).unwrap(),
            vec![bk(AstNode::Heading {
                level: test.1,
                children: vec![bk(AstNode::Block(BlockType::Block, cs("bh")))],
                title: cs("ta"),
                routing: None,
            })],
            "\ninput: {} (lvl={})",
            test.0,
            test.1
        );
    }
}

// Consider three headings:
// * a
// ** b
// ** c
// * d
// `c`/`d` should not be children of `b`
#[test]
fn parse_escapes_heading_level() {
    assert_eq!(
        parse_n_pass("* a\n** b\n** c\n* d\n").unwrap(),
        vec![
            bk(AstNode::Heading {
                level: 1,
                title: cs("a"),
                children: vec![
                    bk(AstNode::Heading {
                        level: 2,
                        title: cs("b"),
                        children: vec![],
                        routing: None,
                    }),
                    bk(AstNode::Heading {
                        level: 2,
                        title: cs("c"),
                        children: vec![],
                        routing: None,
                    })
                ],
                routing: None,
            }),
            bk(AstNode::Heading {
                level: 1,
                title: cs("d"),
                children: vec![],
                routing: None,
            })
        ]
    );
}

#[test]
fn parses_nbsp() {
    let nbsp_char = BlockExprNode::Char('\u{a0}');
    assert_eq!(
        parse_n_pass("nbsp&h h&nbsp\n").unwrap(),
        vec![bk(AstNode::Block(
            BlockType::Block,
            vec![BlockExprNode::Char('h'), nbsp_char, BlockExprNode::Char('h')]
        ))]
    );
    assert_eq!(
        parse_n_pass("h h\n").unwrap(),
        vec![bk(AstNode::Block(BlockType::Block, cs("h h")))]
    );
}

#[test]
fn parses_link() {
    assert_eq!(
        parse_n_pass("[[https://example.com/some-path][helo]]\n").unwrap(),
        vec![bk(AstNode::Block(
            BlockType::Block,
            vec![BlockExprNode::Link(
                LinkTarget::External("https://example.com/some-path".to_string()),
                Some(cs("helo"))
            )]
        ))]
    );

    assert_eq!(
        parse_n_pass("[[https://example.com/some-path]]\n").unwrap(),
        vec![bk(AstNode::Block(
            BlockType::Block,
            vec![BlockExprNode::Link(
                LinkTarget::External("https://example.com/some-path".to_string()),
                None
            )]
        ))]
    );
}

#[test]
fn parses_blockexpr_formatting() {
    assert_eq!(
        parse_n_pass(
            r#"To markup text in Org, simply surround it with one or more marker characters. *Bold*, /italic/ and _underline_ are fairly intuitive, and the ability to use +strikethrough+ is a plus.  You can _/*combine*/_ the basic markup in any order, however ~code~ and =verbatim= need to be the *_~inner-most~_* markers if they are present since their contents are interpreted =_literally_=.
"#
        ).unwrap(),
        vec![bk(AstNode::Block(
            BlockType::Block,
            vec![
                BlockExprNode::Char('T'),
                BlockExprNode::Char('o'),
                BlockExprNode::Char(' '),
                BlockExprNode::Char('m'),
                BlockExprNode::Char('a'),
                BlockExprNode::Char('r'),
                BlockExprNode::Char('k'),
                BlockExprNode::Char('u'),
                BlockExprNode::Char('p'),
                BlockExprNode::Char(' '),
                BlockExprNode::Char('t'),
                BlockExprNode::Char('e'),
                BlockExprNode::Char('x'),
                BlockExprNode::Char('t'),
                BlockExprNode::Char(' '),
                BlockExprNode::Char('i'),
                BlockExprNode::Char('n'),
                BlockExprNode::Char(' '),
                BlockExprNode::Char('O'),
                BlockExprNode::Char('r'),
                BlockExprNode::Char('g'),
                BlockExprNode::Char(','),
                BlockExprNode::Char(' '),
                BlockExprNode::Char('s'),
                BlockExprNode::Char('i'),
                BlockExprNode::Char('m'),
                BlockExprNode::Char('p'),
                BlockExprNode::Char('l'),
                BlockExprNode::Char('y'),
                BlockExprNode::Char(' '),
                BlockExprNode::Char('s'),
                BlockExprNode::Char('u'),
                BlockExprNode::Char('r'),
                BlockExprNode::Char('r'),
                BlockExprNode::Char('o'),
                BlockExprNode::Char('u'),
                BlockExprNode::Char('n'),
                BlockExprNode::Char('d'),
                BlockExprNode::Char(' '),
                BlockExprNode::Char('i'),
                BlockExprNode::Char('t'),
                BlockExprNode::Char(' '),
                BlockExprNode::Char('w'),
                BlockExprNode::Char('i'),
                BlockExprNode::Char('t'),
                BlockExprNode::Char('h'),
                BlockExprNode::Char(' '),
                BlockExprNode::Char('o'),
                BlockExprNode::Char('n'),
                BlockExprNode::Char('e'),
                BlockExprNode::Char(' '),
                BlockExprNode::Char('o'),
                BlockExprNode::Char('r'),
                BlockExprNode::Char(' '),
                BlockExprNode::Char('m'),
                BlockExprNode::Char('o'),
                BlockExprNode::Char('r'),
                BlockExprNode::Char('e'),
                BlockExprNode::Char(' '),
                BlockExprNode::Char('m'),
                BlockExprNode::Char('a'),
                BlockExprNode::Char('r'),
                BlockExprNode::Char('k'),
                BlockExprNode::Char('e'),
                BlockExprNode::Char('r'),
                BlockExprNode::Char(' '),
                BlockExprNode::Char('c'),
                BlockExprNode::Char('h'),
                BlockExprNode::Char('a'),
                BlockExprNode::Char('r'),
                BlockExprNode::Char('a'),
                BlockExprNode::Char('c'),
                BlockExprNode::Char('t'),
                BlockExprNode::Char('e'),
                BlockExprNode::Char('r'),
                BlockExprNode::Char('s'),
                BlockExprNode::Char('.'),
                BlockExprNode::Char(' '),
                BlockExprNode::Bold(vec![
                    BlockExprNode::Char('B'),
                    BlockExprNode::Char('o'),
                    BlockExprNode::Char('l'),
                    BlockExprNode::Char('d')
                ]),
                BlockExprNode::Char(','),
                BlockExprNode::Char(' '),
                BlockExprNode::Italic(vec![
                    BlockExprNode::Char('i'),
                    BlockExprNode::Char('t'),
                    BlockExprNode::Char('a'),
                    BlockExprNode::Char('l'),
                    BlockExprNode::Char('i'),
                    BlockExprNode::Char('c')
                ]),
                BlockExprNode::Char(' '),
                BlockExprNode::Char('a'),
                BlockExprNode::Char('n'),
                BlockExprNode::Char('d'),
                BlockExprNode::Char(' '),
                BlockExprNode::Underline(vec![
                    BlockExprNode::Char('u'),
                    BlockExprNode::Char('n'),
                    BlockExprNode::Char('d'),
                    BlockExprNode::Char('e'),
                    BlockExprNode::Char('r'),
                    BlockExprNode::Char('l'),
                    BlockExprNode::Char('i'),
                    BlockExprNode::Char('n'),
                    BlockExprNode::Char('e')
                ]),
                BlockExprNode::Char(' '),
                BlockExprNode::Char('a'),
                BlockExprNode::Char('r'),
                BlockExprNode::Char('e'),
                BlockExprNode::Char(' '),
                BlockExprNode::Char('f'),
                BlockExprNode::Char('a'),
                BlockExprNode::Char('i'),
                BlockExprNode::Char('r'),
                BlockExprNode::Char('l'),
                BlockExprNode::Char('y'),
                BlockExprNode::Char(' '),
                BlockExprNode::Char('i'),
                BlockExprNode::Char('n'),
                BlockExprNode::Char('t'),
                BlockExprNode::Char('u'),
                BlockExprNode::Char('i'),
                BlockExprNode::Char('t'),
                BlockExprNode::Char('i'),
                BlockExprNode::Char('v'),
                BlockExprNode::Char('e'),
                BlockExprNode::Char(','),
                BlockExprNode::Char(' '),
                BlockExprNode::Char('a'),
                BlockExprNode::Char('n'),
                BlockExprNode::Char('d'),
                BlockExprNode::Char(' '),
                BlockExprNode::Char('t'),
                BlockExprNode::Char('h'),
                BlockExprNode::Char('e'),
                BlockExprNode::Char(' '),
                BlockExprNode::Char('a'),
                BlockExprNode::Char('b'),
                BlockExprNode::Char('i'),
                BlockExprNode::Char('l'),
                BlockExprNode::Char('i'),
                BlockExprNode::Char('t'),
                BlockExprNode::Char('y'),
                BlockExprNode::Char(' '),
                BlockExprNode::Char('t'),
                BlockExprNode::Char('o'),
                BlockExprNode::Char(' '),
                BlockExprNode::Char('u'),
                BlockExprNode::Char('s'),
                BlockExprNode::Char('e'),
                BlockExprNode::Char(' '),
                BlockExprNode::Strikethrough(vec![
                    BlockExprNode::Char('s'),
                    BlockExprNode::Char('t'),
                    BlockExprNode::Char('r'),
                    BlockExprNode::Char('i'),
                    BlockExprNode::Char('k'),
                    BlockExprNode::Char('e'),
                    BlockExprNode::Char('t'),
                    BlockExprNode::Char('h'),
                    BlockExprNode::Char('r'),
                    BlockExprNode::Char('o'),
                    BlockExprNode::Char('u'),
                    BlockExprNode::Char('g'),
                    BlockExprNode::Char('h')
                ]),
                BlockExprNode::Char(' '),
                BlockExprNode::Char('i'),
                BlockExprNode::Char('s'),
                BlockExprNode::Char(' '),
                BlockExprNode::Char('a'),
                BlockExprNode::Char(' '),
                BlockExprNode::Char('p'),
                BlockExprNode::Char('l'),
                BlockExprNode::Char('u'),
                BlockExprNode::Char('s'),
                BlockExprNode::Char('.'),
                BlockExprNode::Char(' '),
                BlockExprNode::Char(' '),
                BlockExprNode::Char('Y'),
                BlockExprNode::Char('o'),
                BlockExprNode::Char('u'),
                BlockExprNode::Char(' '),
                BlockExprNode::Char('c'),
                BlockExprNode::Char('a'),
                BlockExprNode::Char('n'),
                BlockExprNode::Char(' '),
                BlockExprNode::Underline(vec![BlockExprNode::Italic(vec![BlockExprNode::Bold(
                    vec![
                        BlockExprNode::Char('c'),
                        BlockExprNode::Char('o'),
                        BlockExprNode::Char('m'),
                        BlockExprNode::Char('b'),
                        BlockExprNode::Char('i'),
                        BlockExprNode::Char('n'),
                        BlockExprNode::Char('e')
                    ]
                )])]),
                BlockExprNode::Char(' '),
                BlockExprNode::Char('t'),
                BlockExprNode::Char('h'),
                BlockExprNode::Char('e'),
                BlockExprNode::Char(' '),
                BlockExprNode::Char('b'),
                BlockExprNode::Char('a'),
                BlockExprNode::Char('s'),
                BlockExprNode::Char('i'),
                BlockExprNode::Char('c'),
                BlockExprNode::Char(' '),
                BlockExprNode::Char('m'),
                BlockExprNode::Char('a'),
                BlockExprNode::Char('r'),
                BlockExprNode::Char('k'),
                BlockExprNode::Char('u'),
                BlockExprNode::Char('p'),
                BlockExprNode::Char(' '),
                BlockExprNode::Char('i'),
                BlockExprNode::Char('n'),
                BlockExprNode::Char(' '),
                BlockExprNode::Char('a'),
                BlockExprNode::Char('n'),
                BlockExprNode::Char('y'),
                BlockExprNode::Char(' '),
                BlockExprNode::Char('o'),
                BlockExprNode::Char('r'),
                BlockExprNode::Char('d'),
                BlockExprNode::Char('e'),
                BlockExprNode::Char('r'),
                BlockExprNode::Char(','),
                BlockExprNode::Char(' '),
                BlockExprNode::Char('h'),
                BlockExprNode::Char('o'),
                BlockExprNode::Char('w'),
                BlockExprNode::Char('e'),
                BlockExprNode::Char('v'),
                BlockExprNode::Char('e'),
                BlockExprNode::Char('r'),
                BlockExprNode::Char(' '),
                BlockExprNode::Code("code".to_string()),
                BlockExprNode::Char(' '),
                BlockExprNode::Char('a'),
                BlockExprNode::Char('n'),
                BlockExprNode::Char('d'),
                BlockExprNode::Char(' '),
                BlockExprNode::Code("verbatim".to_string()),
                BlockExprNode::Char(' '),
                BlockExprNode::Char('n'),
                BlockExprNode::Char('e'),
                BlockExprNode::Char('e'),
                BlockExprNode::Char('d'),
                BlockExprNode::Char(' '),
                BlockExprNode::Char('t'),
                BlockExprNode::Char('o'),
                BlockExprNode::Char(' '),
                BlockExprNode::Char('b'),
                BlockExprNode::Char('e'),
                BlockExprNode::Char(' '),
                BlockExprNode::Char('t'),
                BlockExprNode::Char('h'),
                BlockExprNode::Char('e'),
                BlockExprNode::Char(' '),
                BlockExprNode::Bold(vec![BlockExprNode::Underline(vec![BlockExprNode::Code(
                    "inner-most".to_string()
                )])]),
                BlockExprNode::Char(' '),
                BlockExprNode::Char('m'),
                BlockExprNode::Char('a'),
                BlockExprNode::Char('r'),
                BlockExprNode::Char('k'),
                BlockExprNode::Char('e'),
                BlockExprNode::Char('r'),
                BlockExprNode::Char('s'),
                BlockExprNode::Char(' '),
                BlockExprNode::Char('i'),
                BlockExprNode::Char('f'),
                BlockExprNode::Char(' '),
                BlockExprNode::Char('t'),
                BlockExprNode::Char('h'),
                BlockExprNode::Char('e'),
                BlockExprNode::Char('y'),
                BlockExprNode::Char(' '),
                BlockExprNode::Char('a'),
                BlockExprNode::Char('r'),
                BlockExprNode::Char('e'),
                BlockExprNode::Char(' '),
                BlockExprNode::Char('p'),
                BlockExprNode::Char('r'),
                BlockExprNode::Char('e'),
                BlockExprNode::Char('s'),
                BlockExprNode::Char('e'),
                BlockExprNode::Char('n'),
                BlockExprNode::Char('t'),
                BlockExprNode::Char(' '),
                BlockExprNode::Char('s'),
                BlockExprNode::Char('i'),
                BlockExprNode::Char('n'),
                BlockExprNode::Char('c'),
                BlockExprNode::Char('e'),
                BlockExprNode::Char(' '),
                BlockExprNode::Char('t'),
                BlockExprNode::Char('h'),
                BlockExprNode::Char('e'),
                BlockExprNode::Char('i'),
                BlockExprNode::Char('r'),
                BlockExprNode::Char(' '),
                BlockExprNode::Char('c'),
                BlockExprNode::Char('o'),
                BlockExprNode::Char('n'),
                BlockExprNode::Char('t'),
                BlockExprNode::Char('e'),
                BlockExprNode::Char('n'),
                BlockExprNode::Char('t'),
                BlockExprNode::Char('s'),
                BlockExprNode::Char(' '),
                BlockExprNode::Char('a'),
                BlockExprNode::Char('r'),
                BlockExprNode::Char('e'),
                BlockExprNode::Char(' '),
                BlockExprNode::Char('i'),
                BlockExprNode::Char('n'),
                BlockExprNode::Char('t'),
                BlockExprNode::Char('e'),
                BlockExprNode::Char('r'),
                BlockExprNode::Char('p'),
                BlockExprNode::Char('r'),
                BlockExprNode::Char('e'),
                BlockExprNode::Char('t'),
                BlockExprNode::Char('e'),
                BlockExprNode::Char('d'),
                BlockExprNode::Char(' '),
                BlockExprNode::Code("_literally_".to_string()),
                BlockExprNode::Char('.')
            ]
        ))]
    );
}
