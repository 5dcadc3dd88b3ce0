use offside::parsing::{
    AssignmentNode, AstRoot, ExpressionNode, IdentifierNode, ParseError, Parser, StatementNode,
    StringNode, ValueNode,
};
use offside::position::LineCol;
use offside::tokenising::{tokenise, Token};

fn ident(text: &str, line: usize, col: usize) -> ValueNode {
    ValueNode::Identifier(IdentifierNode { text: text.to_string(), location: LineCol(line, col) })
}

fn has_hole(root: &AstRoot) -> bool {
    let value_hole = |v: &ValueNode| matches!(v, ValueNode::Hole);
    let expr_hole = |e: &ExpressionNode| match e {
        ExpressionNode::Value(v) => value_hole(v),
        ExpressionNode::BinaryOps(b) => value_hole(&b.left) || value_hole(&b.right),
    };
    match root {
        AstRoot::Expression(e) => expr_hole(e),
        AstRoot::Statement(StatementNode::Assignment(a)) => {
            value_hole(&a.assignee) || expr_hole(&a.expression)
        }
    }
}

#[test]
fn default_tree_is_a_hole() {
    assert_eq!(AstRoot::default(), AstRoot::Expression(ExpressionNode::Value(ValueNode::Hole)));
}

#[test]
fn assignment_scenario() {
    let mut parser = Parser::new(tokenise("f=apple"));
    assert_eq!(parser.incrementally_build(), Ok(()));
    assert_eq!(parser.state, AstRoot::Expression(ExpressionNode::Value(ident("f", 1, 1))));
    assert_eq!(parser.incrementally_build(), Ok(()));
    assert_eq!(parser.incrementally_build(), Ok(()));
    assert_eq!(
        parser.state,
        AstRoot::Statement(StatementNode::Assignment(AssignmentNode {
            assignee: ident("f", 1, 1),
            expression: ExpressionNode::Value(ident("apple", 1, 6)),
        }))
    );
    assert!(!has_hole(&parser.state));
}

#[test]
fn assignment_of_a_string() {
    let mut parser = Parser::new(tokenise("x='hi'"));
    assert_eq!(parser.incrementally_build(), Ok(()));
    assert_eq!(parser.incrementally_build(), Ok(()));
    assert_eq!(
        parser.state,
        AstRoot::Statement(StatementNode::Assignment(AssignmentNode {
            assignee: ident("x", 1, 1),
            expression: ExpressionNode::Value(ValueNode::String(StringNode {
                text: "hi".to_string(),
                location: LineCol(1, 5),
            })),
        }))
    );
}

#[test]
fn unhandled_combination_scenario() {
    let mut parser = Parser::new(tokenise("<*> + \"yolo\""));
    assert_eq!(parser.incrementally_build(), Ok(()));
    let first = AstRoot::Expression(ExpressionNode::Value(ident("<*>", 1, 3)));
    assert_eq!(parser.state, first);
    let r = parser.incrementally_build();
    assert!(matches!(r, Err(ParseError::UnhandledCombination { location: LineCol(1, 3), .. })));
    assert_eq!(parser.state, first);
    assert_eq!(parser.incrementally_build(), r);
}

#[test]
fn finished_parse_has_no_hole() {
    let mut parser = Parser::new(tokenise(" \nname"));
    for _ in 0..3 {
        assert_eq!(parser.incrementally_build(), Ok(()));
    }
    assert_eq!(parser.state, AstRoot::Expression(ExpressionNode::Value(ident("name", 2, 4))));
    assert!(!has_hole(&parser.state));
    assert_eq!(parser.incrementally_build(), Ok(()));
}

#[test]
fn blank_input_keeps_the_hole() {
    let mut parser = Parser::new(tokenise(" \n "));
    for _ in 0..4 {
        assert_eq!(parser.incrementally_build(), Ok(()));
    }
    assert_eq!(parser.state, AstRoot::default());
}

#[test]
fn column_counts_characters() {
    let input = "ab \"cd\" <*> x";
    let tokens = tokenise(input);
    let n = tokens.len();
    let mut parser = Parser::new(tokens);
    for _ in 0..n {
        assert_eq!(parser.consume(), Ok(()));
    }
    match parser.state {
        AstRoot::Expression(ExpressionNode::Value(ValueNode::Identifier(ref node))) => {
            assert_eq!(node.location, LineCol(1, input.chars().count()));
        }
        ref other => panic!("unexpected tree {:?}", other),
    }
}

#[test]
fn newline_moves_to_next_line() {
    let mut parser = Parser::new(tokenise("ab\nc"));
    for _ in 0..3 {
        assert_eq!(parser.consume(), Ok(()));
    }
    assert_eq!(parser.state, AstRoot::Expression(ExpressionNode::Value(ident("c", 2, 1))));
}

#[test]
fn consume_reports_unhandled_token() {
    let mut parser = Parser::new(tokenise("12"));
    assert_eq!(
        parser.consume(),
        Err(ParseError::UnhandledToken { token: Token::Number, location: LineCol(1, 0) })
    );
    assert_eq!(parser.state, AstRoot::default());
}

#[test]
fn consume_reports_malformed_token() {
    let mut parser = Parser::new(vec![(Token::Identifier, None)]);
    assert_eq!(parser.consume(), Err(ParseError::MalformedToken { token: Token::Identifier }));
    let mut parser = Parser::new(vec![(Token::Whitespace, Some(" ".to_string()))]);
    assert_eq!(parser.incrementally_build(), Err(ParseError::MalformedToken { token: Token::Whitespace }));
}

#[test]
fn failed_right_hand_side_leaves_parser_unchanged() {
    let mut parser = Parser::new(tokenise("f=1"));
    assert_eq!(parser.incrementally_build(), Ok(()));
    let r = parser.incrementally_build();
    assert_eq!(r, Err(ParseError::UnhandledToken { token: Token::Number, location: LineCol(1, 1) }));
    assert_eq!(parser.state, AstRoot::Expression(ExpressionNode::Value(ident("f", 1, 1))));
    assert_eq!(parser.incrementally_build(), r);
}

#[test]
fn consume_on_exhausted_parser_does_nothing() {
    let mut parser = Parser::new(vec![]);
    assert_eq!(parser.consume(), Ok(()));
    assert_eq!(parser.incrementally_build(), Ok(()));
    assert_eq!(parser.state, AstRoot::default());
}
