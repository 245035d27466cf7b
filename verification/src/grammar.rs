//! The grammar, as functions from a token sequence and a position to the
//! syntax tree that begins there and the position after it.
//!
//! From lowest to highest precedence an expression is an assignment, `or`,
//! `and`, an equality, a comparison, a term, a factor, a unary operation, a
//! call, or a primary expression. The first error ends the parse.

use crate::ast::{expression_location, statement_location, ExprView, StmtView};
use crate::error::ErrorView;
use crate::object::ObjectView;
use crate::source_location::{dummy_span, join_spans, SourceLocation};
use crate::token::{TokenType, TokenView};
use vstd::prelude::*;

verus! {

/// The most arguments a call, and parameters a function, may have.
pub const MAXIMUM_ARITY: usize = 255;

/// What parsing one construct gives: the construct with the position after
/// it, or an error.
pub type Parsed<T> = Result<(T, int), ErrorView>;

/// The kind of the token at `pos`; past the end of the tokens, end of input.
pub open spec fn kind_at(tokens: Seq<TokenView>, pos: int) -> TokenType {
    if 0 <= pos < tokens.len() {
        tokens[pos].kind
    } else {
        TokenType::EOF
    }
}

/// The span of the token at `pos`; past the end of the tokens, the dummy span.
pub open spec fn location_at(tokens: Seq<TokenView>, pos: int) -> SourceLocation {
    if 0 <= pos < tokens.len() {
        tokens[pos].location
    } else {
        dummy_span()
    }
}

/// The text of the token at `pos`; past the end of the tokens, no text.
pub open spec fn lexeme_at(tokens: Seq<TokenView>, pos: int) -> Seq<char> {
    if 0 <= pos < tokens.len() {
        tokens[pos].lexeme
    } else {
        Seq::empty()
    }
}

/// Whether the token at `pos` is of kind `kind` and is not the end of input.
pub open spec fn holds(tokens: Seq<TokenView>, pos: int, kind: TokenType) -> bool {
    kind_at(tokens, pos) == kind && kind != TokenType::EOF
}

/// The texts of the tokens from `from` up to `to`, with one space between
/// neighbours.
pub open spec fn source_text(tokens: Seq<TokenView>, from: int, to: int) -> Seq<char>
    decreases to - from,
{
    if to <= from {
        Seq::empty()
    } else if to - 1 == from {
        lexeme_at(tokens, from)
    } else {
        source_text(tokens, from, to - 1) + seq![' '] + lexeme_at(tokens, to - 1)
    }
}

/// The levels of binary operators, from the loosest to the tightest.
#[derive(Clone, Copy)]
pub enum Level {
    Or,
    And,
    Equality,
    Comparison,
    Term,
    Factor,
}

/// How tightly a level binds: the loosest level has the greatest number.
pub open spec fn rank(level: Level) -> int {
    match level {
        Level::Or => 5,
        Level::And => 4,
        Level::Equality => 3,
        Level::Comparison => 2,
        Level::Term => 1,
        Level::Factor => 0,
    }
}

/// Whether a token of kind `kind` is an operator of `level`.
pub open spec fn is_operator(level: Level, kind: TokenType) -> bool {
    match level {
        Level::Or => kind == TokenType::Or,
        Level::And => kind == TokenType::And,
        Level::Equality => kind == TokenType::BangEqual || kind == TokenType::EqualEqual,
        Level::Comparison => kind == TokenType::Greater || kind == TokenType::GreaterEqual || kind
            == TokenType::Less || kind == TokenType::LessEqual,
        Level::Term => kind == TokenType::Minus || kind == TokenType::Plus,
        Level::Factor => kind == TokenType::Slash || kind == TokenType::Star,
    }
}

/// The node of `left operator right` at `level`: a logical expression for
/// `or` and `and`, a binary one for the others. Its span covers all three.
pub open spec fn combined(
    level: Level,
    left: ExprView,
    operator: TokenView,
    right: ExprView,
) -> ExprView {
    let location = join_spans(
        join_spans(expression_location(left), operator.location),
        expression_location(right),
    );
    match level {
        Level::Or | Level::And => ExprView::Logical {
            location,
            left: Box::new(left),
            operator,
            right: Box::new(right),
        },
        _ => ExprView::Binary { location, left: Box::new(left), operator, right: Box::new(right) },
    }
}

/// Whether `after` is a position beyond `pos` and within the tokens, or at
/// their end.
pub open spec fn ahead(tokens: Seq<TokenView>, pos: int, after: int) -> bool {
    pos < after <= tokens.len()
}

/// The result for a construct that did not move past the token it began
/// at. No construct of the grammar is empty (see
/// `lemma_declaration_moves_on`), so no parse takes that way.
pub open spec fn stuck(tokens: Seq<TokenView>, pos: int) -> ErrorView {
    ErrorView::ExpectedExpression { location: location_at(tokens, pos) }
}

/// The error for a token that is not the expected one, with what was expected.
pub open spec fn expected(tokens: Seq<TokenView>, pos: int, message: Seq<char>) -> ErrorView {
    ErrorView::ExpectedToken { location: location_at(tokens, pos), message }
}

/// `primary → "false" | "true" | "nil" | NUMBER | STRING | "(" ")" |
/// "(" expression ")" | IDENTIFIER`. An empty pair of parentheses is `nil`.
pub open spec fn primary(tokens: Seq<TokenView>, pos: int) -> Parsed<ExprView>
    decreases tokens.len() - pos, 0int,
{
    let location = location_at(tokens, pos);
    let kind = kind_at(tokens, pos);
    if kind == TokenType::False {
        Ok(
            (
                ExprView::Literal {
                    location,
                    literal: ObjectView::Boolean { location, value: false },
                },
                pos + 1,
            ),
        )
    } else if kind == TokenType::True {
        Ok(
            (
                ExprView::Literal {
                    location,
                    literal: ObjectView::Boolean { location, value: true },
                },
                pos + 1,
            ),
        )
    } else if kind == TokenType::Nil {
        Ok((ExprView::Literal { location, literal: ObjectView::Nil { location } }, pos + 1))
    } else if kind == TokenType::String || kind == TokenType::Number {
        match tokens[pos].literal {
            Some(literal) => Ok((ExprView::Literal { location, literal }, pos + 1)),
            None => Err(ErrorView::ExpectedExpression { location }),
        }
    } else if kind == TokenType::LeftParen {
        if holds(tokens, pos + 1, TokenType::RightParen) {
            let both = join_spans(location, location_at(tokens, pos + 1));
            Ok(
                (
                    ExprView::Literal {
                        location: both,
                        literal: ObjectView::Nil { location: both },
                    },
                    pos + 2,
                ),
            )
        } else {
            match expression(tokens, pos + 1) {
                Ok((inner, after)) => if holds(tokens, after, TokenType::RightParen) {
                    Ok(
                        (
                            ExprView::Grouping {
                                location: join_spans(
                                    join_spans(location, expression_location(inner)),
                                    location_at(tokens, after),
                                ),
                                expression: Box::new(inner),
                            },
                            after + 1,
                        ),
                    )
                } else {
                    Err(
                        expected(
                            tokens,
                            after,
                            "Expected enclosing ) after grouping expression."@,
                        ),
                    )
                },
                Err(error) => Err(error),
            }
        }
    } else if kind == TokenType::Identifier {
        Ok((ExprView::Variable { location, identifier: tokens[pos] }, pos + 1))
    } else {
        Err(ErrorView::ExpectedExpression { location })
    }
}

/// The arguments of a call from `pos` on, after those in `sofar`: an
/// expression, then after each comma another. `location` is the span of
/// the call so far. More than `MAXIMUM_ARITY` arguments are an error.
pub open spec fn arguments(
    tokens: Seq<TokenView>,
    pos: int,
    sofar: Seq<ExprView>,
    location: SourceLocation,
) -> Result<(Seq<ExprView>, SourceLocation, int), ErrorView>
    decreases tokens.len() - pos, 17int,
{
    match expression(tokens, pos) {
        Ok((argument, after)) => {
            let covered = join_spans(location, expression_location(argument));
            if sofar.len() >= MAXIMUM_ARITY {
                Err(ErrorView::ExceededMaximumArity { location: covered })
            } else if holds(tokens, after, TokenType::Comma) {
                if after >= pos {
                    arguments(tokens, after + 1, sofar.push(argument), covered)
                } else {
                    Err(stuck(tokens, pos))
                }
            } else {
                Ok((sofar.push(argument), covered, after))
            }
        },
        Err(error) => Err(error),
    }
}

/// The call of `callee` whose opening parenthesis stands at `open`:
/// `"(" ( expression ( "," expression )* )? ")"`. The span of the call
/// covers the callee, both parentheses and all arguments.
pub open spec fn finish_call(tokens: Seq<TokenView>, callee: ExprView, open: int) -> Parsed<
    ExprView,
>
    decreases tokens.len() - open, 18int,
{
    let location = join_spans(expression_location(callee), location_at(tokens, open));
    let read = if holds(tokens, open + 1, TokenType::RightParen) {
        Ok((Seq::empty(), location, open + 1))
    } else if 0 <= open < tokens.len() {
        arguments(tokens, open + 1, Seq::empty(), location)
    } else {
        Err(stuck(tokens, open))
    };
    match read {
        Ok((list, covered, close)) => if holds(tokens, close, TokenType::RightParen) {
            Ok(
                (
                    ExprView::Call {
                        location: join_spans(covered, location_at(tokens, close)),
                        callee: Box::new(callee),
                        paren: tokens[close],
                        arguments: list,
                    },
                    close + 1,
                ),
            )
        } else {
            Err(expected(tokens, close, "Expected after call )"@))
        },
        Err(error) => Err(error),
    }
}

/// The calls that follow `callee`, each applied to the result of the one
/// before: `( "(" arguments? ")" )*`.
pub open spec fn calls(tokens: Seq<TokenView>, callee: ExprView, pos: int) -> Parsed<ExprView>
    decreases tokens.len() - pos, 19int,
{
    if holds(tokens, pos, TokenType::LeftParen) {
        match finish_call(tokens, callee, pos) {
            Ok((call, after)) => if ahead(tokens, pos, after) {
                calls(tokens, call, after)
            } else {
                Err(stuck(tokens, pos))
            },
            Err(error) => Err(error),
        }
    } else {
        Ok((callee, pos))
    }
}

/// `call → primary ( "(" arguments? ")" )*`.
pub open spec fn call(tokens: Seq<TokenView>, pos: int) -> Parsed<ExprView>
    decreases tokens.len() - pos, 1int,
{
    match primary(tokens, pos) {
        Ok((callee, after)) => if ahead(tokens, pos, after) {
            calls(tokens, callee, after)
        } else {
            Err(stuck(tokens, pos))
        },
        Err(error) => Err(error),
    }
}

/// `unary → ( "!" | "-" ) unary | call`.
pub open spec fn unary(tokens: Seq<TokenView>, pos: int) -> Parsed<ExprView>
    decreases tokens.len() - pos, 2int,
{
    if holds(tokens, pos, TokenType::Bang) || holds(tokens, pos, TokenType::Minus) {
        match unary(tokens, pos + 1) {
            Ok((right, after)) => Ok(
                (
                    ExprView::Unary {
                        location: join_spans(tokens[pos].location, expression_location(right)),
                        operator: tokens[pos],
                        right: Box::new(right),
                    },
                    after,
                ),
            ),
            Err(error) => Err(error),
        }
    } else {
        call(tokens, pos)
    }
}

/// An operand of `level`: an expression of the next tighter level, or a
/// unary expression where there is none.
pub open spec fn operand(tokens: Seq<TokenView>, level: Level, pos: int) -> Parsed<ExprView>
    decreases tokens.len() - pos, 3 + 2 * rank(level),
{
    match level {
        Level::Or => binary(tokens, Level::And, pos),
        Level::And => binary(tokens, Level::Equality, pos),
        Level::Equality => binary(tokens, Level::Comparison, pos),
        Level::Comparison => binary(tokens, Level::Term, pos),
        Level::Term => binary(tokens, Level::Factor, pos),
        Level::Factor => unary(tokens, pos),
    }
}

/// The operators of `level` that follow `left`, each with its right
/// operand, taken from left to right: `( operator operand )*`.
pub open spec fn operations(
    tokens: Seq<TokenView>,
    level: Level,
    left: ExprView,
    pos: int,
) -> Parsed<
    ExprView,
>
    decreases tokens.len() - pos, 20int,
{
    if is_operator(level, kind_at(tokens, pos)) && 0 <= pos < tokens.len() {
        match operand(tokens, level, pos + 1) {
            Ok((right, after)) => if ahead(tokens, pos, after) {
                operations(tokens, level, combined(level, left, tokens[pos], right), after)
            } else {
                Err(stuck(tokens, pos))
            },
            Err(error) => Err(error),
        }
    } else {
        Ok((left, pos))
    }
}

/// An expression of `level`: `operand ( operator operand )*`, grouped to
/// the left.
pub open spec fn binary(tokens: Seq<TokenView>, level: Level, pos: int) -> Parsed<ExprView>
    decreases tokens.len() - pos, 4 + 2 * rank(level),
{
    match operand(tokens, level, pos) {
        Ok((left, after)) => if ahead(tokens, pos, after) {
            operations(tokens, level, left, after)
        } else {
            Err(stuck(tokens, pos))
        },
        Err(error) => Err(error),
    }
}

/// `assignment → logic_or ( "=" assignment )?`, grouped to the right. Only
/// a variable may stand on the left of `=`; for anything else the error
/// carries the text of the tokens of that expression.
pub open spec fn assignment(tokens: Seq<TokenView>, pos: int) -> Parsed<ExprView>
    decreases tokens.len() - pos, 15int,
{
    match binary(tokens, Level::Or, pos) {
        Ok((target, equals)) => if holds(tokens, equals, TokenType::Equal) {
            if equals >= pos {
                match assignment(tokens, equals + 1) {
                    Ok((value, after)) => {
                        let location = join_spans(
                            join_spans(expression_location(target), tokens[equals].location),
                            expression_location(value),
                        );
                        match target {
                            ExprView::Variable { identifier, .. } => Ok(
                                (
                                    ExprView::Assignment {
                                        location,
                                        identifier,
                                        value: Box::new(value),
                                    },
                                    after,
                                ),
                            ),
                            _ => Err(
                                ErrorView::InvalidAssignmentTarget {
                                    location,
                                    lexeme: source_text(tokens, pos, equals),
                                },
                            ),
                        }
                    },
                    Err(error) => Err(error),
                }
            } else {
                Err(stuck(tokens, pos))
            }
        } else {
            Ok((target, equals))
        },
        Err(error) => Err(error),
    }
}

/// `expression → assignment`.
pub open spec fn expression(tokens: Seq<TokenView>, pos: int) -> Parsed<ExprView>
    decreases tokens.len() - pos, 16int,
{
    assignment(tokens, pos)
}

/// What parsing one statement gives.
pub type ParsedStatement = Result<(StmtView, int), ErrorView>;

/// The error for a statement that does not end with a semicolon.
pub open spec fn no_semicolon(tokens: Seq<TokenView>, pos: int) -> ErrorView {
    ErrorView::ExpectedSemicolon { location: location_at(tokens, pos) }
}

/// `exprStmt → expression ";"`.
pub open spec fn expression_statement(tokens: Seq<TokenView>, pos: int) -> ParsedStatement
    decreases tokens.len() - pos, 21int,
{
    match expression(tokens, pos) {
        Ok((value, end)) => if holds(tokens, end, TokenType::Semicolon) {
            Ok(
                (
                    StmtView::Expression {
                        location: join_spans(expression_location(value), tokens[end].location),
                        expression: value,
                    },
                    end + 1,
                ),
            )
        } else {
            Err(no_semicolon(tokens, end))
        },
        Err(error) => Err(error),
    }
}

/// `printStmt → "print" expression ";"`, with the keyword at `keyword`.
pub open spec fn print_statement(tokens: Seq<TokenView>, keyword: int) -> ParsedStatement
    decreases tokens.len() - keyword, 22int,
{
    if !(0 <= keyword < tokens.len()) {
        Err(stuck(tokens, keyword))
    } else {
        match expression(tokens, keyword + 1) {
            Ok((value, end)) => if holds(tokens, end, TokenType::Semicolon) {
                Ok(
                    (
                        StmtView::Print {
                            location: join_spans(
                                join_spans(tokens[keyword].location, expression_location(value)),
                                tokens[end].location,
                            ),
                            expression: value,
                        },
                        end + 1,
                    ),
                )
            } else {
                Err(no_semicolon(tokens, end))
            },
            Err(error) => Err(error),
        }
    }
}

/// `returnStmt → "return" expression? ";"`, with the keyword at `keyword`.
pub open spec fn return_statement(tokens: Seq<TokenView>, keyword: int) -> ParsedStatement
    decreases tokens.len() - keyword, 22int,
{
    if !(0 <= keyword < tokens.len()) {
        Err(stuck(tokens, keyword))
    } else if holds(tokens, keyword + 1, TokenType::Semicolon) {
        Ok(
            (
                StmtView::Return {
                    location: join_spans(tokens[keyword].location, tokens[keyword + 1].location),
                    value: None,
                },
                keyword + 2,
            ),
        )
    } else {
        match expression(tokens, keyword + 1) {
            Ok((value, end)) => if holds(tokens, end, TokenType::Semicolon) {
                Ok(
                    (
                        StmtView::Return {
                            location: join_spans(
                                join_spans(tokens[keyword].location, expression_location(value)),
                                tokens[end].location,
                            ),
                            value: Some(value),
                        },
                        end + 1,
                    ),
                )
            } else {
                Err(no_semicolon(tokens, end))
            },
            Err(error) => Err(error),
        }
    }
}

/// `varDecl → "var" IDENTIFIER ( "=" expression )? ";"`, with the keyword
/// at `keyword`.
pub open spec fn variable_declaration(tokens: Seq<TokenView>, keyword: int) -> ParsedStatement
    decreases tokens.len() - keyword, 22int,
{
    if !(0 <= keyword < tokens.len()) {
        Err(stuck(tokens, keyword))
    } else if !holds(tokens, keyword + 1, TokenType::Identifier) {
        Err(
            ErrorView::InvalidVariableName {
                location: location_at(tokens, keyword + 1),
                variable: lexeme_at(tokens, keyword + 1),
            },
        )
    } else {
        let named = join_spans(tokens[keyword].location, tokens[keyword + 1].location);
        if holds(tokens, keyword + 2, TokenType::Equal) {
            match expression(tokens, keyword + 3) {
                Ok((value, end)) => if holds(tokens, end, TokenType::Semicolon) {
                    Ok(
                        (
                            StmtView::VariableDeclaration {
                                location: join_spans(
                                    join_spans(named, expression_location(value)),
                                    tokens[end].location,
                                ),
                                identifier: tokens[keyword + 1],
                                expression: Some(value),
                            },
                            end + 1,
                        ),
                    )
                } else {
                    Err(no_semicolon(tokens, end))
                },
                Err(error) => Err(error),
            }
        } else if holds(tokens, keyword + 2, TokenType::Semicolon) {
            Ok(
                (
                    StmtView::VariableDeclaration {
                        location: join_spans(named, tokens[keyword + 2].location),
                        identifier: tokens[keyword + 1],
                        expression: None,
                    },
                    keyword + 3,
                ),
            )
        } else {
            Err(no_semicolon(tokens, keyword + 2))
        }
    }
}

/// The statements of a block from `pos` on, after those in `sofar`, up to
/// the closing brace. `location` is the span of the block so far.
pub open spec fn block_items(
    tokens: Seq<TokenView>,
    pos: int,
    sofar: Seq<StmtView>,
    location: SourceLocation,
) -> ParsedStatement
    decreases tokens.len() - pos, 32int,
{
    if holds(tokens, pos, TokenType::RightBrace) {
        Ok(
            (
                StmtView::Block {
                    location: join_spans(location, tokens[pos].location),
                    statements: sofar,
                },
                pos + 1,
            ),
        )
    } else if kind_at(tokens, pos) == TokenType::EOF {
        Err(expected(tokens, pos, "Expected } after block statement."@))
    } else {
        match declaration(tokens, pos) {
            Ok((statement, after)) => if ahead(tokens, pos, after) {
                block_items(
                    tokens,
                    after,
                    sofar.push(statement),
                    join_spans(location, statement_location(statement)),
                )
            } else {
                Err(stuck(tokens, pos))
            },
            Err(error) => Err(error),
        }
    }
}

/// `block → "{" declaration* "}"`, with the opening brace at `open`.
pub open spec fn block(tokens: Seq<TokenView>, open: int) -> ParsedStatement
    decreases tokens.len() - open, 25int,
{
    if !(0 <= open < tokens.len()) {
        Err(stuck(tokens, open))
    } else {
        block_items(tokens, open + 1, Seq::empty(), tokens[open].location)
    }
}

/// `ifStmt → "if" "(" expression ")" statement ( "else" statement )?`, with
/// the keyword at `keyword`.
pub open spec fn if_statement(tokens: Seq<TokenView>, keyword: int) -> ParsedStatement
    decreases tokens.len() - keyword, 26int,
{
    if !(0 <= keyword < tokens.len()) {
        Err(stuck(tokens, keyword))
    } else if !holds(tokens, keyword + 1, TokenType::LeftParen) {
        Err(expected(tokens, keyword + 1, "Expected ( after if keyword."@))
    } else {
        match expression(tokens, keyword + 2) {
            Ok((condition, close)) => if !holds(tokens, close, TokenType::RightParen) {
                Err(expected(tokens, close, "Expected ) after condition."@))
            } else if close <= keyword {
                Err(stuck(tokens, keyword))
            } else {
                match statement(tokens, close + 1) {
                    Ok((then_branch, after)) => {
                        let location = join_spans(
                            join_spans(tokens[keyword].location, expression_location(condition)),
                            statement_location(then_branch),
                        );
                        if !holds(tokens, after, TokenType::Else) {
                            Ok(
                                (
                                    StmtView::If {
                                        location,
                                        condition,
                                        then_branch: Box::new(then_branch),
                                        else_branch: None,
                                    },
                                    after,
                                ),
                            )
                        } else if after <= keyword {
                            Err(stuck(tokens, keyword))
                        } else {
                            match statement(tokens, after + 1) {
                                Ok((else_branch, end)) => Ok(
                                    (
                                        StmtView::If {
                                            location: join_spans(
                                                location,
                                                statement_location(else_branch),
                                            ),
                                            condition,
                                            then_branch: Box::new(then_branch),
                                            else_branch: Some(Box::new(else_branch)),
                                        },
                                        end,
                                    ),
                                ),
                                Err(error) => Err(error),
                            }
                        }
                    },
                    Err(error) => Err(error),
                }
            },
            Err(error) => Err(error),
        }
    }
}

/// `whileStmt → "while" "(" expression ")" statement`, with the keyword at
/// `keyword`.
pub open spec fn while_statement(tokens: Seq<TokenView>, keyword: int) -> ParsedStatement
    decreases tokens.len() - keyword, 26int,
{
    if !(0 <= keyword < tokens.len()) {
        Err(stuck(tokens, keyword))
    } else if !holds(tokens, keyword + 1, TokenType::LeftParen) {
        Err(expected(tokens, keyword + 1, "Expected ( after while keyword."@))
    } else {
        match expression(tokens, keyword + 2) {
            Ok((condition, close)) => if !holds(tokens, close, TokenType::RightParen) {
                Err(expected(tokens, close, "Expected ) after the condition."@))
            } else if close <= keyword {
                Err(stuck(tokens, keyword))
            } else {
                match statement(tokens, close + 1) {
                    Ok((body, after)) => Ok(
                        (
                            StmtView::While {
                                location: join_spans(
                                    join_spans(
                                        tokens[keyword].location,
                                        expression_location(condition),
                                    ),
                                    statement_location(body),
                                ),
                                condition,
                                body: Box::new(body),
                            },
                            after,
                        ),
                    ),
                    Err(error) => Err(error),
                }
            },
            Err(error) => Err(error),
        }
    }
}

/// The span of a `for` statement: that of its keyword, of each of its
/// clauses and of its body; for a missing condition, that of the semicolon
/// which ends the clause.
pub open spec fn for_span(
    keyword: SourceLocation,
    initializer: Option<StmtView>,
    condition: Option<ExprView>,
    semicolon: SourceLocation,
    increment: Option<ExprView>,
    body: StmtView,
) -> SourceLocation {
    let first = match initializer {
        Some(first) => join_spans(keyword, statement_location(first)),
        None => keyword,
    };
    let second = match condition {
        Some(test) => join_spans(first, expression_location(test)),
        None => join_spans(first, semicolon),
    };
    let third = match increment {
        Some(step) => join_spans(second, expression_location(step)),
        None => second,
    };
    join_spans(third, statement_location(body))
}

/// The loop that `for (initializer; condition; increment) body` stands for:
/// a block of the initializer and a `while` whose body is `body` followed
/// by the increment. Without a condition the loop runs while `true`; that
/// literal gets the span `semicolon` of the clause's semicolon. Without an
/// increment the body stands alone, and without an initializer the `while`
/// does. The blocks and the `while` that are made have the span of the
/// whole statement.
pub open spec fn for_loop(
    keyword: SourceLocation,
    initializer: Option<StmtView>,
    condition: Option<ExprView>,
    semicolon: SourceLocation,
    increment: Option<ExprView>,
    body: StmtView,
) -> StmtView {
    let whole = for_span(keyword, initializer, condition, semicolon, increment, body);
    let repeated = match increment {
        Some(step) => StmtView::Block {
            location: whole,
            statements: seq![
                body,
                StmtView::Expression { location: expression_location(step), expression: step },
            ],
        },
        None => body,
    };
    let test = match condition {
        Some(test) => test,
        None => ExprView::Literal {
            location: semicolon,
            literal: ObjectView::Boolean { location: semicolon, value: true },
        },
    };
    let looping = StmtView::While { location: whole, condition: test, body: Box::new(repeated) };
    match initializer {
        Some(first) => StmtView::Block { location: whole, statements: seq![first, looping] },
        None => looping,
    }
}

/// The first clause of a `for`, which begins at `pos`: nothing but a
/// semicolon, a variable declaration, or an expression statement.
pub open spec fn for_initializer(tokens: Seq<TokenView>, pos: int) -> Result<
    (Option<StmtView>, int),
    ErrorView,
>
    decreases tokens.len() - pos, 23int,
{
    if holds(tokens, pos, TokenType::Semicolon) {
        Ok((None, pos + 1))
    } else if holds(tokens, pos, TokenType::Var) {
        match variable_declaration(tokens, pos) {
            Ok((declared, after)) => Ok((Some(declared), after)),
            Err(error) => Err(error),
        }
    } else {
        match expression_statement(tokens, pos) {
            Ok((evaluated, after)) => Ok((Some(evaluated), after)),
            Err(error) => Err(error),
        }
    }
}

/// A clause of a `for` that may be empty: an expression, if the token at
/// `pos` is not of kind `end`.
pub open spec fn for_clause(tokens: Seq<TokenView>, pos: int, end: TokenType) -> Result<
    (Option<ExprView>, int),
    ErrorView,
>
    decreases tokens.len() - pos, 23int,
{
    if holds(tokens, pos, end) {
        Ok((None, pos))
    } else {
        match expression(tokens, pos) {
            Ok((clause, after)) => Ok((Some(clause), after)),
            Err(error) => Err(error),
        }
    }
}

/// `forStmt → "for" "(" ( varDecl | exprStmt | ";" ) expression? ";"
/// expression? ")" statement`, with the keyword at `keyword`. The result is
/// the loop that the statement stands for.
pub open spec fn for_statement(tokens: Seq<TokenView>, keyword: int) -> ParsedStatement
    decreases tokens.len() - keyword, 26int,
{
    if !(0 <= keyword < tokens.len()) {
        Err(stuck(tokens, keyword))
    } else if !holds(tokens, keyword + 1, TokenType::LeftParen) {
        Err(expected(tokens, keyword + 1, "Expected ( after `for` keyword"@))
    } else {
        match for_initializer(tokens, keyword + 2) {
            Ok((initializer, first)) => if !ahead(tokens, keyword, first) {
                Err(stuck(tokens, keyword))
            } else {
                match for_clause(tokens, first, TokenType::Semicolon) {
                    Ok((condition, second)) => if !holds(tokens, second, TokenType::Semicolon) {
                        Err(no_semicolon(tokens, second))
                    } else if second <= keyword {
                        Err(stuck(tokens, keyword))
                    } else {
                        match for_clause(tokens, second + 1, TokenType::RightParen) {
                            Ok((increment, close)) => if !holds(
                                tokens,
                                close,
                                TokenType::RightParen,
                            ) {
                                Err(expected(tokens, close, "Expected )"@))
                            } else if close <= keyword {
                                Err(stuck(tokens, keyword))
                            } else {
                                match statement(tokens, close + 1) {
                                    Ok((body, after)) => Ok(
                                        (
                                            for_loop(
                                                tokens[keyword].location,
                                                initializer,
                                                condition,
                                                tokens[second].location,
                                                increment,
                                                body,
                                            ),
                                            after,
                                        ),
                                    ),
                                    Err(error) => Err(error),
                                }
                            },
                            Err(error) => Err(error),
                        }
                    },
                    Err(error) => Err(error),
                }
            },
            Err(error) => Err(error),
        }
    }
}

/// The error for a token that cannot be the name of a function or of a
/// parameter.
pub open spec fn no_function_name(tokens: Seq<TokenView>, pos: int) -> ErrorView {
    ErrorView::InvalidFunctionName {
        location: location_at(tokens, pos),
        variable: lexeme_at(tokens, pos),
    }
}

/// The parameters of a function from `pos` on, after those in `sofar`: a
/// name, then after each comma another. `location` is the span of the
/// declaration so far. More than `MAXIMUM_ARITY` names are an error at the
/// span `name` of the function's name.
pub open spec fn parameters(
    tokens: Seq<TokenView>,
    pos: int,
    sofar: Seq<TokenView>,
    name: SourceLocation,
    location: SourceLocation,
) -> Result<(Seq<TokenView>, SourceLocation, int), ErrorView>
    decreases tokens.len() - pos,
{
    if sofar.len() >= MAXIMUM_ARITY {
        Err(ErrorView::ExceededMaximumArity { location: name })
    } else if !holds(tokens, pos, TokenType::Identifier) {
        Err(no_function_name(tokens, pos))
    } else if holds(tokens, pos + 1, TokenType::Comma) {
        parameters(
            tokens,
            pos + 2,
            sofar.push(tokens[pos]),
            name,
            join_spans(location, tokens[pos].location),
        )
    } else {
        Ok((sofar.push(tokens[pos]), join_spans(location, tokens[pos].location), pos + 1))
    }
}

/// `funDecl → "fun" IDENTIFIER "(" ( IDENTIFIER ( "," IDENTIFIER )* )? ")"
/// block`, with the keyword at `keyword`.
pub open spec fn function(tokens: Seq<TokenView>, keyword: int) -> ParsedStatement
    decreases tokens.len() - keyword, 26int,
{
    if !(0 <= keyword < tokens.len()) {
        Err(stuck(tokens, keyword))
    } else if !holds(tokens, keyword + 1, TokenType::Identifier) {
        Err(no_function_name(tokens, keyword + 1))
    } else if !holds(tokens, keyword + 2, TokenType::LeftParen) {
        Err(expected(tokens, keyword + 2, "("@))
    } else {
        let name = tokens[keyword + 1];
        let named = join_spans(tokens[keyword].location, name.location);
        let read = if holds(tokens, keyword + 3, TokenType::RightParen) {
            Ok((Seq::empty(), named, keyword + 3))
        } else {
            parameters(tokens, keyword + 3, Seq::empty(), name.location, named)
        };
        match read {
            Ok((names, covered, close)) => if !holds(tokens, close, TokenType::RightParen) {
                Err(expected(tokens, close, ")"@))
            } else if !holds(tokens, close + 1, TokenType::LeftBrace) {
                Err(expected(tokens, close + 1, "{"@))
            } else if close <= keyword {
                Err(stuck(tokens, keyword))
            } else {
                match block(tokens, close + 1) {
                    Ok((body, after)) => Ok(
                        (
                            StmtView::Function {
                                location: join_spans(covered, statement_location(body)),
                                name,
                                parameters: names,
                                body: Box::new(body),
                            },
                            after,
                        ),
                    ),
                    Err(error) => Err(error),
                }
            },
            Err(error) => Err(error),
        }
    }
}

/// `statement → printStmt | returnStmt | block | ifStmt | whileStmt |
/// forStmt | exprStmt`, told apart by the first token.
pub open spec fn statement(tokens: Seq<TokenView>, pos: int) -> ParsedStatement
    decreases tokens.len() - pos, 30int,
{
    let kind = kind_at(tokens, pos);
    if kind == TokenType::Print {
        print_statement(tokens, pos)
    } else if kind == TokenType::Return {
        return_statement(tokens, pos)
    } else if kind == TokenType::LeftBrace {
        block(tokens, pos)
    } else if kind == TokenType::If {
        if_statement(tokens, pos)
    } else if kind == TokenType::While {
        while_statement(tokens, pos)
    } else if kind == TokenType::For {
        for_statement(tokens, pos)
    } else {
        expression_statement(tokens, pos)
    }
}

/// `declaration → funDecl | varDecl | statement`, told apart by the first
/// token.
pub open spec fn declaration(tokens: Seq<TokenView>, pos: int) -> ParsedStatement
    decreases tokens.len() - pos, 31int,
{
    let kind = kind_at(tokens, pos);
    if kind == TokenType::Function {
        function(tokens, pos)
    } else if kind == TokenType::Var {
        variable_declaration(tokens, pos)
    } else {
        statement(tokens, pos)
    }
}

/// The declarations from `pos` up to the end of input, after those in
/// `sofar`.
pub open spec fn program(tokens: Seq<TokenView>, pos: int, sofar: Seq<StmtView>) -> Result<
    Seq<StmtView>,
    ErrorView,
>
    decreases tokens.len() - pos, 33int,
{
    if kind_at(tokens, pos) == TokenType::EOF {
        Ok(sofar)
    } else {
        match declaration(tokens, pos) {
            Ok((statement, after)) => if ahead(tokens, pos, after) {
                program(tokens, after, sofar.push(statement))
            } else {
                Err(stuck(tokens, pos))
            },
            Err(error) => Err(error),
        }
    }
}

/// The statements that a token sequence spells, or the first error in it.
pub open spec fn parse_tokens(tokens: Seq<TokenView>) -> Result<Seq<StmtView>, ErrorView> {
    program(tokens, 0, Seq::empty())
}

/// Whether a parse that succeeded moved on: the position after the
/// construct is beyond the one it began at, and within the tokens.
pub open spec fn moves_on<T>(parsed: Parsed<T>, tokens: Seq<TokenView>, pos: int) -> bool {
    parsed matches Ok((_, after)) ==> ahead(tokens, pos, after)
}

/// No expression is empty: a primary expression that was parsed takes at
/// least one token.
pub proof fn lemma_primary_moves_on(tokens: Seq<TokenView>, pos: int)
    ensures
        moves_on(primary(tokens, pos), tokens, pos),
    decreases tokens.len() - pos, 0int,
{
    if kind_at(tokens, pos) == TokenType::LeftParen && !holds(
        tokens,
        pos + 1,
        TokenType::RightParen,
    ) {
        lemma_expression_moves_on(tokens, pos + 1);
    }
}

/// Arguments that were parsed take at least one token.
pub proof fn lemma_arguments_move_on(
    tokens: Seq<TokenView>,
    pos: int,
    sofar: Seq<ExprView>,
    location: SourceLocation,
)
    ensures
        arguments(tokens, pos, sofar, location) matches Ok((_, _, after)) ==> ahead(
            tokens,
            pos,
            after,
        ),
    decreases tokens.len() - pos, 17int,
{
    lemma_expression_moves_on(tokens, pos);
    if let Ok((argument, after)) = expression(tokens, pos) {
        if sofar.len() < MAXIMUM_ARITY && holds(tokens, after, TokenType::Comma) {
            lemma_arguments_move_on(
                tokens,
                after + 1,
                sofar.push(argument),
                join_spans(location, expression_location(argument)),
            );
        }
    }
}

/// A call that was parsed ends beyond its opening parenthesis.
pub proof fn lemma_finish_call_moves_on(tokens: Seq<TokenView>, callee: ExprView, open: int)
    ensures
        moves_on(finish_call(tokens, callee, open), tokens, open),
    decreases tokens.len() - open, 18int,
{
    if !holds(tokens, open + 1, TokenType::RightParen) && 0 <= open < tokens.len() {
        lemma_arguments_move_on(
            tokens,
            open + 1,
            Seq::empty(),
            join_spans(expression_location(callee), location_at(tokens, open)),
        );
    }
}

/// Calls that follow a callee end at or beyond where they begin.
pub proof fn lemma_calls_move_on(tokens: Seq<TokenView>, callee: ExprView, pos: int)
    requires
        pos <= tokens.len(),
    ensures
        calls(tokens, callee, pos) matches Ok((_, after)) ==> pos <= after <= tokens.len(),
    decreases tokens.len() - pos, 19int,
{
    if holds(tokens, pos, TokenType::LeftParen) {
        lemma_finish_call_moves_on(tokens, callee, pos);
        if let Ok((called, after)) = finish_call(tokens, callee, pos) {
            lemma_calls_move_on(tokens, called, after);
        }
    }
}

/// A call expression that was parsed takes at least one token.
pub proof fn lemma_call_moves_on(tokens: Seq<TokenView>, pos: int)
    ensures
        moves_on(call(tokens, pos), tokens, pos),
    decreases tokens.len() - pos, 1int,
{
    lemma_primary_moves_on(tokens, pos);
    if let Ok((callee, after)) = primary(tokens, pos) {
        lemma_calls_move_on(tokens, callee, after);
    }
}

/// A unary expression that was parsed takes at least one token.
pub proof fn lemma_unary_moves_on(tokens: Seq<TokenView>, pos: int)
    ensures
        moves_on(unary(tokens, pos), tokens, pos),
    decreases tokens.len() - pos, 2int,
{
    if holds(tokens, pos, TokenType::Bang) || holds(tokens, pos, TokenType::Minus) {
        lemma_unary_moves_on(tokens, pos + 1);
    } else {
        lemma_call_moves_on(tokens, pos);
    }
}

/// An operand that was parsed takes at least one token.
pub proof fn lemma_operand_moves_on(tokens: Seq<TokenView>, level: Level, pos: int)
    ensures
        moves_on(operand(tokens, level, pos), tokens, pos),
    decreases tokens.len() - pos, 3 + 2 * rank(level),
{
    match level {
        Level::Or => lemma_binary_moves_on(tokens, Level::And, pos),
        Level::And => lemma_binary_moves_on(tokens, Level::Equality, pos),
        Level::Equality => lemma_binary_moves_on(tokens, Level::Comparison, pos),
        Level::Comparison => lemma_binary_moves_on(tokens, Level::Term, pos),
        Level::Term => lemma_binary_moves_on(tokens, Level::Factor, pos),
        Level::Factor => lemma_unary_moves_on(tokens, pos),
    }
}

/// Operators with their operands end at or beyond where they begin.
pub proof fn lemma_operations_move_on(
    tokens: Seq<TokenView>,
    level: Level,
    left: ExprView,
    pos: int,
)
    requires
        pos <= tokens.len(),
    ensures
        operations(tokens, level, left, pos) matches Ok((_, after)) ==> pos <= after
            <= tokens.len(),
    decreases tokens.len() - pos, 20int,
{
    if is_operator(level, kind_at(tokens, pos)) && 0 <= pos < tokens.len() {
        lemma_operand_moves_on(tokens, level, pos + 1);
        if let Ok((right, after)) = operand(tokens, level, pos + 1) {
            lemma_operations_move_on(
                tokens,
                level,
                combined(level, left, tokens[pos], right),
                after,
            );
        }
    }
}

/// An expression of a level that was parsed takes at least one token.
pub proof fn lemma_binary_moves_on(tokens: Seq<TokenView>, level: Level, pos: int)
    ensures
        moves_on(binary(tokens, level, pos), tokens, pos),
    decreases tokens.len() - pos, 4 + 2 * rank(level),
{
    lemma_operand_moves_on(tokens, level, pos);
    if let Ok((left, after)) = operand(tokens, level, pos) {
        lemma_operations_move_on(tokens, level, left, after);
    }
}

/// An assignment that was parsed takes at least one token.
pub proof fn lemma_assignment_moves_on(tokens: Seq<TokenView>, pos: int)
    ensures
        moves_on(assignment(tokens, pos), tokens, pos),
    decreases tokens.len() - pos, 15int,
{
    lemma_binary_moves_on(tokens, Level::Or, pos);
    if let Ok((target, equals)) = binary(tokens, Level::Or, pos) {
        if holds(tokens, equals, TokenType::Equal) {
            lemma_assignment_moves_on(tokens, equals + 1);
        }
    }
}

/// No expression is empty: an expression that was parsed takes at least
/// one token, so that a parse always moves on.
pub proof fn lemma_expression_moves_on(tokens: Seq<TokenView>, pos: int)
    ensures
        moves_on(expression(tokens, pos), tokens, pos),
    decreases tokens.len() - pos, 16int,
{
    lemma_assignment_moves_on(tokens, pos);
}

/// An expression statement that was parsed takes at least one token.
pub proof fn lemma_expression_statement_moves_on(tokens: Seq<TokenView>, pos: int)
    ensures
        moves_on(expression_statement(tokens, pos), tokens, pos),
{
    lemma_expression_moves_on(tokens, pos);
}

/// A variable declaration that was parsed ends beyond its keyword.
pub proof fn lemma_variable_declaration_moves_on(tokens: Seq<TokenView>, keyword: int)
    ensures
        moves_on(variable_declaration(tokens, keyword), tokens, keyword),
{
    lemma_expression_moves_on(tokens, keyword + 3);
}

/// The statements of a block that were parsed end beyond where they begin.
pub proof fn lemma_block_items_move_on(
    tokens: Seq<TokenView>,
    pos: int,
    sofar: Seq<StmtView>,
    location: SourceLocation,
)
    ensures
        moves_on(block_items(tokens, pos, sofar, location), tokens, pos),
    decreases tokens.len() - pos, 32int,
{
    if !holds(tokens, pos, TokenType::RightBrace) && kind_at(tokens, pos) != TokenType::EOF {
        lemma_declaration_moves_on(tokens, pos);
        if let Ok((statement, after)) = declaration(tokens, pos) {
            lemma_block_items_move_on(
                tokens,
                after,
                sofar.push(statement),
                join_spans(location, statement_location(statement)),
            );
        }
    }
}

/// A block that was parsed ends beyond its opening brace.
pub proof fn lemma_block_moves_on(tokens: Seq<TokenView>, open: int)
    ensures
        moves_on(block(tokens, open), tokens, open),
    decreases tokens.len() - open, 25int,
{
    if 0 <= open < tokens.len() {
        lemma_block_items_move_on(tokens, open + 1, Seq::empty(), tokens[open].location);
    }
}

/// An `if` statement that was parsed ends beyond its keyword.
pub proof fn lemma_if_statement_moves_on(tokens: Seq<TokenView>, keyword: int)
    ensures
        moves_on(if_statement(tokens, keyword), tokens, keyword),
    decreases tokens.len() - keyword, 26int,
{
    if 0 <= keyword < tokens.len() && holds(tokens, keyword + 1, TokenType::LeftParen) {
        lemma_expression_moves_on(tokens, keyword + 2);
        if let Ok((condition, close)) = expression(tokens, keyword + 2) {
            if holds(tokens, close, TokenType::RightParen) {
                lemma_statement_moves_on(tokens, close + 1);
                if let Ok((then_branch, after)) = statement(tokens, close + 1) {
                    if holds(tokens, after, TokenType::Else) {
                        lemma_statement_moves_on(tokens, after + 1);
                    }
                }
            }
        }
    }
}

/// A `while` statement that was parsed ends beyond its keyword.
pub proof fn lemma_while_statement_moves_on(tokens: Seq<TokenView>, keyword: int)
    ensures
        moves_on(while_statement(tokens, keyword), tokens, keyword),
    decreases tokens.len() - keyword, 26int,
{
    if 0 <= keyword < tokens.len() && holds(tokens, keyword + 1, TokenType::LeftParen) {
        lemma_expression_moves_on(tokens, keyword + 2);
        if let Ok((condition, close)) = expression(tokens, keyword + 2) {
            if holds(tokens, close, TokenType::RightParen) {
                lemma_statement_moves_on(tokens, close + 1);
            }
        }
    }
}

/// The first clause of a `for` that was parsed takes at least one token.
pub proof fn lemma_for_initializer_moves_on(tokens: Seq<TokenView>, pos: int)
    ensures
        moves_on(for_initializer(tokens, pos), tokens, pos),
{
    lemma_variable_declaration_moves_on(tokens, pos);
    lemma_expression_statement_moves_on(tokens, pos);
}

/// A clause of a `for` that was parsed ends at or beyond where it begins.
pub proof fn lemma_for_clause_moves_on(tokens: Seq<TokenView>, pos: int, end: TokenType)
    requires
        pos <= tokens.len(),
    ensures
        for_clause(tokens, pos, end) matches Ok((_, after)) ==> pos <= after <= tokens.len(),
{
    lemma_expression_moves_on(tokens, pos);
}

/// A `for` statement that was parsed ends beyond its keyword.
pub proof fn lemma_for_statement_moves_on(tokens: Seq<TokenView>, keyword: int)
    ensures
        moves_on(for_statement(tokens, keyword), tokens, keyword),
    decreases tokens.len() - keyword, 26int,
{
    if 0 <= keyword < tokens.len() && holds(tokens, keyword + 1, TokenType::LeftParen) {
        lemma_for_initializer_moves_on(tokens, keyword + 2);
        if let Ok((initializer, first)) = for_initializer(tokens, keyword + 2) {
            lemma_for_clause_moves_on(tokens, first, TokenType::Semicolon);
            if let Ok((condition, second)) = for_clause(tokens, first, TokenType::Semicolon) {
                if holds(tokens, second, TokenType::Semicolon) {
                    lemma_for_clause_moves_on(tokens, second + 1, TokenType::RightParen);
                    if let Ok((increment, close)) = for_clause(
                        tokens,
                        second + 1,
                        TokenType::RightParen,
                    ) {
                        if holds(tokens, close, TokenType::RightParen) {
                            lemma_statement_moves_on(tokens, close + 1);
                        }
                    }
                }
            }
        }
    }
}

/// Parameters that were parsed take at least one token.
pub proof fn lemma_parameters_move_on(
    tokens: Seq<TokenView>,
    pos: int,
    sofar: Seq<TokenView>,
    name: SourceLocation,
    location: SourceLocation,
)
    ensures
        parameters(tokens, pos, sofar, name, location) matches Ok((_, _, after)) ==> ahead(
            tokens,
            pos,
            after,
        ),
    decreases tokens.len() - pos,
{
    if sofar.len() < MAXIMUM_ARITY && holds(tokens, pos, TokenType::Identifier) && holds(
        tokens,
        pos + 1,
        TokenType::Comma,
    ) {
        lemma_parameters_move_on(
            tokens,
            pos + 2,
            sofar.push(tokens[pos]),
            name,
            join_spans(location, tokens[pos].location),
        );
    }
}

/// A function declaration that was parsed ends beyond its keyword.
pub proof fn lemma_function_moves_on(tokens: Seq<TokenView>, keyword: int)
    ensures
        moves_on(function(tokens, keyword), tokens, keyword),
    decreases tokens.len() - keyword, 26int,
{
    if 0 <= keyword < tokens.len() && holds(tokens, keyword + 1, TokenType::Identifier) && holds(
        tokens,
        keyword + 2,
        TokenType::LeftParen,
    ) {
        let name = tokens[keyword + 1];
        let named = join_spans(tokens[keyword].location, name.location);
        let read = if holds(tokens, keyword + 3, TokenType::RightParen) {
            Ok((Seq::empty(), named, keyword + 3))
        } else {
            parameters(tokens, keyword + 3, Seq::empty(), name.location, named)
        };
        lemma_parameters_move_on(tokens, keyword + 3, Seq::empty(), name.location, named);
        if let Ok((names, covered, close)) = read {
            if holds(tokens, close, TokenType::RightParen) && holds(
                tokens,
                close + 1,
                TokenType::LeftBrace,
            ) {
                lemma_block_moves_on(tokens, close + 1);
            }
        }
    }
}

/// No statement is empty: a statement that was parsed takes at least one
/// token.
pub proof fn lemma_statement_moves_on(tokens: Seq<TokenView>, pos: int)
    ensures
        moves_on(statement(tokens, pos), tokens, pos),
    decreases tokens.len() - pos, 30int,
{
    let kind = kind_at(tokens, pos);
    if kind == TokenType::Print {
        if 0 <= pos < tokens.len() {
            lemma_expression_moves_on(tokens, pos + 1);
        }
    } else if kind == TokenType::Return {
        if 0 <= pos < tokens.len() {
            lemma_expression_moves_on(tokens, pos + 1);
        }
    } else if kind == TokenType::LeftBrace {
        lemma_block_moves_on(tokens, pos);
    } else if kind == TokenType::If {
        lemma_if_statement_moves_on(tokens, pos);
    } else if kind == TokenType::While {
        lemma_while_statement_moves_on(tokens, pos);
    } else if kind == TokenType::For {
        lemma_for_statement_moves_on(tokens, pos);
    } else {
        lemma_expression_statement_moves_on(tokens, pos);
    }
}

/// No declaration is empty: a declaration that was parsed takes at least
/// one token. The checks of the grammar that a construct moved on
/// therefore never fail.
pub proof fn lemma_declaration_moves_on(tokens: Seq<TokenView>, pos: int)
    ensures
        moves_on(declaration(tokens, pos), tokens, pos),
    decreases tokens.len() - pos, 31int,
{
    let kind = kind_at(tokens, pos);
    if kind == TokenType::Function {
        lemma_function_moves_on(tokens, pos);
    } else if kind == TokenType::Var {
        lemma_variable_declaration_moves_on(tokens, pos);
    } else {
        lemma_statement_moves_on(tokens, pos);
    }
}

} // verus!
