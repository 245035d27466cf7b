use lox::ast::{Expr, Stmt};
use lox::error::LoxError;
use lox::number::Number;
use lox::object::LoxObject;
use lox::parser::Parser;
use lox::scanner::Scanner;
use lox::source_location::SourceLocation;
use lox::token::Token;
use lox::token::TokenType;

fn parse_text(source: &str) -> Result<Vec<Stmt>, LoxError> {
    let mut scanner = Scanner::new(source);
    let tokens = scanner.scan()?;
    let mut parser = Parser::new(&tokens);
    parser.parse()
}

fn only_expression(source: &str) -> Expr {
    let mut statements = parse_text(source).unwrap();
    assert_eq!(statements.len(), 1);
    match statements.remove(0) {
        Stmt::Expression { expression, .. } => expression,
        other => panic!("not an expression statement: {:?}", other),
    }
}

#[test]
fn it_should_match_token() {
    let dummy = SourceLocation::new_single_line(1, 0, 0);
    let tokens = vec![
        Token::new(TokenType::LeftBrace, dummy.clone(), "".to_string(), None),
        Token::new(TokenType::RightBrace, dummy.clone(), "".to_string(), None),
        Token::new(TokenType::Number, dummy.clone(), "".to_string(), None),
    ];
    let mut parser = Parser::new(&tokens);

    assert!(parser.match_token(&[TokenType::LeftBrace]));
    assert!(parser.match_token(&[TokenType::RightBrace]));
    assert!(parser.match_token(&[TokenType::Number]));
}

#[test]
fn it_should_parse_primary() {
    let location = SourceLocation::new_single_line(1, 0, 0);
    let tokens = vec![
        Token::new(
            TokenType::Number,
            location,
            "5.55".to_string(),
            Some(LoxObject::Number {
                location,
                value: Number::from_bits(5.55f64.to_bits()),
            }),
        ),
        Token::new(TokenType::Semicolon, location, ";".to_string(), None),
        Token::new(TokenType::EOF, location, "".to_string(), None),
    ];
    let mut parser = Parser::new(&tokens);
    let statements = parser.parse().unwrap();

    let expr = match &statements[0] {
        Stmt::Expression { expression, .. } => expression,
        _ => panic!("Wrong"),
    };

    let expected = Expr::Literal {
        location,
        literal: LoxObject::Number {
            location,
            value: Number::from_bits(5.55f64.to_bits()),
        },
    };
    assert_eq!(expr, &expected);
}

#[test]
fn it_should_parse_grouping() {
    let location = SourceLocation::new_single_line(1, 0, 0);
    let literal = LoxObject::String {
        location,
        value: "The quick brown fox jumped over the lazy cat.".to_string(),
    };
    let tokens = vec![
        Token::new(TokenType::LeftParen, location, "(".to_string(), None),
        Token::new(
            TokenType::String,
            location,
            "".to_string(),
            Some(literal.clone()),
        ),
        Token::new(TokenType::RightParen, location, ")".to_string(), None),
        Token::new(TokenType::Semicolon, location, ";".to_string(), None),
        Token::new(TokenType::EOF, location, "".to_string(), None),
    ];
    let mut parser = Parser::new(&tokens);
    let statements = parser.parse().unwrap();

    let expr = match &statements[0] {
        Stmt::Expression { expression, .. } => expression,
        _ => panic!("Wrong"),
    };

    let expected = Expr::Grouping {
        location,
        expression: Box::new(Expr::Literal { location, literal }),
    };
    assert_eq!(expr, &expected);
}

#[test]
fn a_token_that_does_not_match_is_left_in_place() {
    let dummy = SourceLocation::new_single_line(1, 0, 0);
    let tokens = vec![
        Token::new(TokenType::LeftBrace, dummy, "{".to_string(), None),
        Token::new(TokenType::EOF, dummy, "".to_string(), None),
    ];
    let mut parser = Parser::new(&tokens);
    assert!(!parser.match_token(&[TokenType::RightBrace, TokenType::Number]));
    assert!(parser.match_token(&[TokenType::RightBrace, TokenType::LeftBrace]));
    assert!(!parser.match_token(&[TokenType::EOF]));
}

#[test]
fn multiplication_binds_tighter_than_addition() {
    match only_expression("1 + 2 * 3;") {
        Expr::Binary { left, operator, right, location } => {
            assert_eq!(operator.kind, TokenType::Plus);
            assert!(matches!(*left, Expr::Literal { .. }));
            match *right {
                Expr::Binary { operator, .. } => assert_eq!(operator.kind, TokenType::Star),
                other => panic!("not a product: {:?}", other),
            }
            assert_eq!(location, SourceLocation::new_single_line(1, 0, 8));
        }
        other => panic!("not a sum: {:?}", other),
    }
}

#[test]
fn subtraction_groups_to_the_left() {
    match only_expression("1 - 2 - 3;") {
        Expr::Binary { left, right, .. } => {
            assert!(matches!(*left, Expr::Binary { .. }));
            assert!(matches!(*right, Expr::Literal { .. }));
        }
        other => panic!("not a difference: {:?}", other),
    }
}

#[test]
fn assignment_groups_to_the_right() {
    match only_expression("a = b = 3;") {
        Expr::Assignment { identifier, value, .. } => {
            assert_eq!(identifier.lexeme, "a");
            match *value {
                Expr::Assignment { identifier, .. } => assert_eq!(identifier.lexeme, "b"),
                other => panic!("not an assignment: {:?}", other),
            }
        }
        other => panic!("not an assignment: {:?}", other),
    }
}

#[test]
fn or_is_looser_than_and() {
    match only_expression("a or b and c;") {
        Expr::Logical { operator, right, .. } => {
            assert_eq!(operator.kind, TokenType::Or);
            match *right {
                Expr::Logical { operator, .. } => assert_eq!(operator.kind, TokenType::And),
                other => panic!("not a conjunction: {:?}", other),
            }
        }
        other => panic!("not a disjunction: {:?}", other),
    }
}

#[test]
fn only_a_variable_can_be_assigned_to() {
    let error = parse_text("a + b = 3;").unwrap_err();
    assert_eq!(
        error,
        LoxError::InvalidAssignmentTarget {
            location: SourceLocation::new_single_line(1, 0, 8),
            lexeme: "a + b".to_string(),
        }
    );
}

#[test]
fn an_empty_pair_of_parentheses_is_nil() {
    let both = SourceLocation::new_single_line(1, 0, 1);
    assert_eq!(
        only_expression("();"),
        Expr::Literal { location: both, literal: LoxObject::Nil { location: both } }
    );
}

#[test]
fn calls_can_be_chained() {
    match only_expression("f(1)(2, 3);") {
        Expr::Call { callee, arguments, location, .. } => {
            assert_eq!(arguments.len(), 2);
            assert_eq!(location, SourceLocation::new_single_line(1, 0, 9));
            match *callee {
                Expr::Call { callee, arguments, .. } => {
                    assert_eq!(arguments.len(), 1);
                    assert!(matches!(*callee, Expr::Variable { .. }));
                }
                other => panic!("not a call: {:?}", other),
            }
        }
        other => panic!("not a call: {:?}", other),
    }
}

fn call_with_arguments(count: usize) -> String {
    let mut source = String::from("f(");
    for i in 0..count {
        if i > 0 {
            source.push_str(", ");
        }
        source.push('1');
    }
    source.push_str(");");
    source
}

#[test]
fn a_call_takes_up_to_255_arguments() {
    match only_expression(&call_with_arguments(255)) {
        Expr::Call { arguments, .. } => assert_eq!(arguments.len(), 255),
        other => panic!("not a call: {:?}", other),
    }
    let error = parse_text(&call_with_arguments(256)).unwrap_err();
    assert!(matches!(error, LoxError::ExceededMaximumArity { .. }));
}

#[test]
fn a_function_takes_up_to_255_parameters() {
    let mut names = Vec::new();
    for i in 0..256 {
        names.push(format!("p{}", i));
    }
    let accepted = format!("fun f({}) {{ }}", names[..255].join(", "));
    match &parse_text(&accepted).unwrap()[0] {
        Stmt::Function { parameters, .. } => assert_eq!(parameters.len(), 255),
        other => panic!("not a function: {:?}", other),
    }
    let refused = format!("fun f({}) {{ }}", names.join(", "));
    assert_eq!(
        parse_text(&refused).unwrap_err(),
        LoxError::ExceededMaximumArity { location: SourceLocation::new_single_line(1, 4, 4) }
    );
}

#[test]
fn a_for_loop_is_a_block_with_a_while() {
    let statements = parse_text("for (var i = 0; i < 3; i = i + 1) print i;").unwrap();
    assert_eq!(statements.len(), 1);
    match &statements[0] {
        Stmt::Block { statements, .. } => {
            assert_eq!(statements.len(), 2);
            assert!(matches!(statements[0], Stmt::VariableDeclaration { .. }));
            match &statements[1] {
                Stmt::While { condition, body, .. } => {
                    assert!(matches!(condition, Expr::Binary { .. }));
                    match &**body {
                        Stmt::Block { statements, .. } => {
                            assert_eq!(statements.len(), 2);
                            assert!(matches!(statements[0], Stmt::Print { .. }));
                            assert!(matches!(statements[1], Stmt::Expression { .. }));
                        }
                        other => panic!("not a block: {:?}", other),
                    }
                }
                other => panic!("not a while: {:?}", other),
            }
        }
        other => panic!("not a block: {:?}", other),
    }
}

#[test]
fn a_for_loop_without_clauses_runs_while_true() {
    let statements = parse_text("for (;;) print 1;").unwrap();
    let semicolon = SourceLocation::new_single_line(1, 6, 6);
    match &statements[0] {
        Stmt::While { condition, body, .. } => {
            assert_eq!(
                condition,
                &Expr::Literal {
                    location: semicolon,
                    literal: LoxObject::Boolean { location: semicolon, value: true },
                }
            );
            assert!(matches!(**body, Stmt::Print { .. }));
        }
        other => panic!("not a while: {:?}", other),
    }
}

#[test]
fn a_statement_needs_its_semicolon() {
    assert_eq!(
        parse_text("print 1").unwrap_err(),
        LoxError::ExpectedSemicolon { location: SourceLocation::new_single_line(1, 6, 6) }
    );
    assert_eq!(
        parse_text("var a = 1").unwrap_err(),
        LoxError::ExpectedSemicolon { location: SourceLocation::new_single_line(1, 8, 8) }
    );
}

#[test]
fn a_variable_needs_a_name() {
    assert_eq!(
        parse_text("var 1 = 2;").unwrap_err(),
        LoxError::InvalidVariableName {
            location: SourceLocation::new_single_line(1, 4, 4),
            variable: "1".to_string(),
        }
    );
}

#[test]
fn a_function_needs_a_name() {
    assert_eq!(
        parse_text("fun (a) { }").unwrap_err(),
        LoxError::InvalidFunctionName {
            location: SourceLocation::new_single_line(1, 4, 4),
            variable: "(".to_string(),
        }
    );
}

#[test]
fn an_operator_needs_its_operand() {
    assert_eq!(
        parse_text("1 + ;").unwrap_err(),
        LoxError::ExpectedExpression { location: SourceLocation::new_single_line(1, 4, 4) }
    );
}

#[test]
fn a_group_needs_its_closing_parenthesis() {
    assert_eq!(
        parse_text("(1 + 2;").unwrap_err(),
        LoxError::ExpectedToken {
            location: SourceLocation::new_single_line(1, 6, 6),
            message: "Expected enclosing ) after grouping expression.".to_string(),
        }
    );
}

#[test]
fn a_block_needs_its_closing_brace() {
    assert!(matches!(
        parse_text("{ print 1;").unwrap_err(),
        LoxError::ExpectedToken { .. }
    ));
}

#[test]
fn the_first_error_ends_the_parse() {
    assert_eq!(
        parse_text("print 1; var = 3; print ;").unwrap_err(),
        LoxError::InvalidVariableName {
            location: SourceLocation::new_single_line(1, 13, 13),
            variable: "=".to_string(),
        }
    );
}

#[test]
fn parsing_the_same_tokens_twice_gives_the_same_tree() {
    let source = "fun add(a, b) { return a + b; } var x = add(2, 3); if (x > 4) print x; else { x = 0; }";
    let mut scanner = Scanner::new(source);
    let tokens = scanner.scan().unwrap();
    let first = Parser::new(&tokens).parse().unwrap();
    let second = Parser::new(&tokens).parse().unwrap();
    assert_eq!(first, second);
    assert_eq!(first.len(), 3);
}

#[test]
fn an_if_takes_an_optional_else() {
    match &parse_text("if (a) print 1; else print 2;").unwrap()[0] {
        Stmt::If { else_branch, location, .. } => {
            assert!(else_branch.is_some());
            assert_eq!(*location, SourceLocation::new_single_line(1, 0, 28));
        }
        other => panic!("not an if: {:?}", other),
    }
    match &parse_text("if (a) print 1;").unwrap()[0] {
        Stmt::If { else_branch, .. } => assert!(else_branch.is_none()),
        other => panic!("not an if: {:?}", other),
    }
}

#[test]
fn a_return_may_stand_without_a_value() {
    match &parse_text("fun f() { return; }").unwrap()[0] {
        Stmt::Function { body, name, .. } => {
            assert_eq!(name.lexeme, "f");
            match &**body {
                Stmt::Block { statements, .. } => {
                    assert_eq!(statements.len(), 1);
                    assert!(matches!(statements[0], Stmt::Return { value: None, .. }));
                }
                other => panic!("not a block: {:?}", other),
            }
        }
        other => panic!("not a function: {:?}", other),
    }
}

#[test]
fn the_span_of_a_function_covers_its_header_and_its_body() {
    let source = "fun long_name(first,\n    second_parameter)\n{\n  return first;\n}";
    match &parse_text(source).unwrap()[0] {
        Stmt::Function { location, name, parameters, body, .. } => {
            assert_eq!(*location, SourceLocation::new_multiple_line(1, 5, 0, 19));
            assert_eq!(name.location, SourceLocation::new_single_line(1, 4, 12));
            assert_eq!(parameters[1].location, SourceLocation::new_single_line(2, 4, 19));
            assert_eq!(body.location(), SourceLocation::new_multiple_line(3, 5, 0, 14));
        }
        other => panic!("not a function: {:?}", other),
    }
}

#[test]
fn the_nodes_made_for_a_for_loop_have_the_span_of_the_statement() {
    let whole = SourceLocation::new_single_line(1, 0, 41);
    match &parse_text("for (var i = 0; i < 3; i = i + 1) print i;").unwrap()[0] {
        Stmt::Block { location, statements } => {
            assert_eq!(*location, whole);
            match &statements[1] {
                Stmt::While { location, body, .. } => {
                    assert_eq!(*location, whole);
                    assert_eq!(body.location(), whole);
                }
                other => panic!("not a while: {:?}", other),
            }
        }
        other => panic!("not a block: {:?}", other),
    }
}

#[test]
fn the_span_of_a_group_begins_at_its_own_parenthesis() {
    match only_expression("(1 + (2));") {
        Expr::Grouping { location, expression } => {
            assert_eq!(location, SourceLocation::new_single_line(1, 0, 8));
            assert_eq!(expression.location(), SourceLocation::new_single_line(1, 1, 7));
        }
        other => panic!("not a group: {:?}", other),
    }
}
