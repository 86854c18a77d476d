use booltable::eval::{build_kind_str, build_node_str};
use booltable::parser::{is_op, parse, parse_expression, Node, NodeKind, ParseError, TokenStream};
use booltable::symbols::{lexer, BoolDict};

fn leaf(symbol: char, negated: bool) -> NodeKind {
    NodeKind::Leaf { symbol, negated }
}

fn bin(left: NodeKind, operator: char, right: NodeKind, not: bool) -> NodeKind {
    NodeKind::TreeNode(Box::new(Node { left, operator, right, not }))
}

fn text(v: &Vec<char>) -> String {
    v.iter().collect()
}

#[test]
fn lexer_collects_distinct_symbols_in_order() {
    assert_eq!(lexer("a+b.a").tokens, vec!['a', 'b']);
    assert_eq!(lexer("(X1+x).!X").tokens, vec!['X', '1', 'x']);
    assert_eq!(lexer("!(c.d)").tokens, vec!['c', 'd']);
}

#[test]
fn lexer_of_empty_and_symbol_free_text() {
    assert!(lexer("").tokens.is_empty());
    assert!(lexer("+.!() ").tokens.is_empty());
}

#[test]
fn bool_dict_add_skips_repeats_and_operators() {
    let mut dict = BoolDict { tokens: Vec::new() };
    dict.add('a');
    dict.add('+');
    dict.add('a');
    dict.add('B');
    dict.add('(');
    assert_eq!(dict.tokens, vec!['a', 'B']);
}

#[test]
fn token_stream_consumes_in_order() {
    let mut stream = TokenStream::new("a+");
    assert_eq!(stream.peek(), Some('a'));
    assert_eq!(stream.consume(), Some('a'));
    assert_eq!(stream.consume(), Some('+'));
    assert_eq!(stream.consume(), None);
    assert_eq!(stream.peek(), None);
    assert_eq!(stream.pos, 2);
}

#[test]
fn is_op_accepts_binary_operators_only() {
    assert!(is_op('+'));
    assert!(is_op('.'));
    assert!(!is_op('!'));
    assert!(!is_op('a'));
    assert!(!is_op(')'));
}

#[test]
fn parse_single_leaves() {
    assert_eq!(parse_expression("a"), Ok(leaf('a', false)));
    assert_eq!(parse_expression("!a"), Ok(leaf('a', true)));
    assert_eq!(parse_expression("(a)"), Ok(leaf('a', false)));
    assert_eq!(parse_expression("!(a)"), Ok(leaf('a', true)));
    assert_eq!(parse_expression("!(!a)"), Ok(leaf('a', false)));
}

#[test]
fn parse_binary_operators() {
    assert_eq!(parse_expression("a+b"), Ok(bin(leaf('a', false), '+', leaf('b', false), false)));
    assert_eq!(parse_expression("a.!b"), Ok(bin(leaf('a', false), '.', leaf('b', true), false)));
}

#[test]
fn parse_nests_chains_to_the_right() {
    let expected = bin(
        leaf('a', false),
        '+',
        bin(leaf('b', false), '.', leaf('c', false), false),
        false,
    );
    assert_eq!(parse_expression("a+b.c"), Ok(expected));
}

#[test]
fn parse_parenthesised_left_operand() {
    let expected = bin(
        bin(leaf('a', false), '+', leaf('b', false), false),
        '.',
        leaf('c', false),
        false,
    );
    assert_eq!(parse_expression("(a+b).c"), Ok(expected));
}

#[test]
fn parse_negated_group() {
    let expected = bin(leaf('c', false), '.', leaf('d', false), true);
    assert_eq!(parse_expression("!(c.d)"), Ok(expected));
    let inner = bin(
        leaf('a', false),
        '+',
        bin(leaf('b', false), '.', leaf('c', false), false),
        true,
    );
    assert_eq!(parse_expression("!(a+b.c)"), Ok(inner));
}

#[test]
fn parse_errors_report_position() {
    assert_eq!(parse_expression(""), Err(ParseError::UnexpectedEnd { position: 0 }));
    assert_eq!(parse_expression("a+"), Err(ParseError::UnexpectedEnd { position: 2 }));
    assert_eq!(parse_expression("(a+b"), Err(ParseError::UnexpectedEnd { position: 4 }));
    assert_eq!(parse_expression("!"), Err(ParseError::UnexpectedEnd { position: 1 }));
    assert_eq!(
        parse_expression("a+b)"),
        Err(ParseError::UnexpectedChar { position: 3, found: ')' })
    );
    assert_eq!(
        parse_expression("+a"),
        Err(ParseError::UnexpectedChar { position: 0, found: '+' })
    );
    assert_eq!(
        parse_expression("ab"),
        Err(ParseError::UnexpectedChar { position: 1, found: 'b' })
    );
    assert_eq!(
        parse_expression("(a+b]"),
        Err(ParseError::UnexpectedChar { position: 4, found: ']' })
    );
    assert_eq!(
        parse_expression("!!a"),
        Err(ParseError::UnexpectedChar { position: 1, found: '!' })
    );
}

#[test]
fn parse_from_stream_position() {
    let mut stream = TokenStream::new("a+b");
    assert_eq!(stream.consume(), Some('a'));
    assert_eq!(stream.consume(), Some('+'));
    assert_eq!(parse(&mut stream), Ok(leaf('b', false)));
}

#[test]
fn canonical_text_of_nodes() {
    let tree = parse_expression("(a+b).!c").unwrap();
    assert_eq!(text(&build_kind_str(&tree)), "((a+b).!c)");
    let neg = parse_expression("!(c.d)").unwrap();
    match &neg {
        NodeKind::TreeNode(n) => assert_eq!(text(&build_node_str(n)), "!(c.d)"),
        NodeKind::Leaf { .. } => panic!("expected a binary node"),
    }
    assert_eq!(text(&build_kind_str(&leaf('x', true))), "!x");
}
