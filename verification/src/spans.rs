//! The spans of a parsed tree: every node's span covers the spans of the
//! tokens that the node holds and of the nodes below it.

use crate::ast::{expression_location, statement_location, ExprView, StmtView};
use crate::grammar::{
    ahead, arguments, assignment, binary, block, block_items, call, calls, combined, declaration,
    expression, expression_statement, finish_call, for_clause, for_initializer, for_loop,
    for_span, for_statement, function, holds, if_statement, is_operator, kind_at, location_at,
    operand, operations, parameters, parse_tokens, primary, print_statement, program, rank,
    return_statement, statement, unary, variable_declaration, while_statement, Level, Parsed,
    ParsedStatement, MAXIMUM_ARITY,
};
use crate::source_location::{covers, join_spans, SourceLocation};
use crate::token::{TokenType, TokenView};
use vstd::prelude::*;

verus! {

/// Whether the span of every node of `e` covers the spans of the node's
/// tokens and of its operands.
pub open spec fn expression_is_spanned(e: ExprView) -> bool
    decreases e,
{
    match e {
        ExprView::Literal { .. } => true,
        ExprView::Variable { location, identifier } => covers(location, identifier.location),
        ExprView::Grouping { location, expression } => {
            &&& covers(location, expression_location(*expression))
            &&& expression_is_spanned(*expression)
        },
        ExprView::Unary { location, operator, right } => {
            &&& covers(location, operator.location)
            &&& covers(location, expression_location(*right))
            &&& expression_is_spanned(*right)
        },
        ExprView::Binary { location, left, operator, right } => {
            &&& covers(location, expression_location(*left))
            &&& covers(location, operator.location)
            &&& covers(location, expression_location(*right))
            &&& expression_is_spanned(*left)
            &&& expression_is_spanned(*right)
        },
        ExprView::Logical { location, left, operator, right } => {
            &&& covers(location, expression_location(*left))
            &&& covers(location, operator.location)
            &&& covers(location, expression_location(*right))
            &&& expression_is_spanned(*left)
            &&& expression_is_spanned(*right)
        },
        ExprView::Assignment { location, identifier, value } => {
            &&& covers(location, identifier.location)
            &&& covers(location, expression_location(*value))
            &&& expression_is_spanned(*value)
        },
        ExprView::Call { location, callee, paren, arguments } => {
            &&& covers(location, expression_location(*callee))
            &&& covers(location, paren.location)
            &&& expression_is_spanned(*callee)
            &&& forall|i: int|
                0 <= i < arguments.len() ==> covers(
                    location,
                    expression_location(#[trigger] arguments[i]),
                ) && expression_is_spanned(arguments[i])
        },
    }
}

/// Whether `location` covers each expression of `list`, and each is
/// spanned.
pub open spec fn expressions_are_spanned(list: Seq<ExprView>, location: SourceLocation) -> bool {
    forall|i: int|
        0 <= i < list.len() ==> covers(location, expression_location(#[trigger] list[i]))
            && expression_is_spanned(list[i])
}

/// Whether the span of every node of `s` covers the spans of the node's
/// tokens, expressions and statements.
pub open spec fn statement_is_spanned(s: StmtView) -> bool
    decreases s,
{
    match s {
        StmtView::Block { location, statements } => forall|i: int|
            0 <= i < statements.len() ==> covers(
                location,
                statement_location(#[trigger] statements[i]),
            ) && statement_is_spanned(statements[i]),
        StmtView::Expression { location, expression } => {
            &&& covers(location, expression_location(expression))
            &&& expression_is_spanned(expression)
        },
        StmtView::Print { location, expression } => {
            &&& covers(location, expression_location(expression))
            &&& expression_is_spanned(expression)
        },
        StmtView::VariableDeclaration { location, identifier, expression } => {
            &&& covers(location, identifier.location)
            &&& expression matches Some(initializer) ==> covers(
                location,
                expression_location(initializer),
            ) && expression_is_spanned(initializer)
        },
        StmtView::If { location, condition, then_branch, else_branch } => {
            &&& covers(location, expression_location(condition))
            &&& expression_is_spanned(condition)
            &&& covers(location, statement_location(*then_branch))
            &&& statement_is_spanned(*then_branch)
            &&& else_branch matches Some(branch) ==> covers(location, statement_location(*branch))
                && statement_is_spanned(*branch)
        },
        StmtView::While { location, condition, body } => {
            &&& covers(location, expression_location(condition))
            &&& expression_is_spanned(condition)
            &&& covers(location, statement_location(*body))
            &&& statement_is_spanned(*body)
        },
        StmtView::Function { location, name, parameters, body } => {
            &&& covers(location, name.location)
            &&& tokens_are_covered(parameters, location)
            &&& covers(location, statement_location(*body))
            &&& statement_is_spanned(*body)
        },
        StmtView::Return { location, value } => {
            value matches Some(returned) ==> covers(location, expression_location(returned))
                && expression_is_spanned(returned)
        },
    }
}

/// Whether `location` covers each statement of `list`, and each is spanned.
pub open spec fn statements_are_spanned(list: Seq<StmtView>, location: SourceLocation) -> bool {
    forall|i: int|
        0 <= i < list.len() ==> covers(location, statement_location(#[trigger] list[i]))
            && statement_is_spanned(list[i])
}

/// Whether `location` covers the span of each token of `list`.
pub open spec fn tokens_are_covered(list: Seq<TokenView>, location: SourceLocation) -> bool {
    forall|i: int| 0 <= i < list.len() ==> covers(location, (#[trigger] list[i]).location)
}

/// Whether the expression of a parse that succeeded is spanned.
pub open spec fn gives_spanned_expression(parsed: Parsed<ExprView>) -> bool {
    parsed matches Ok((e, _)) ==> expression_is_spanned(e)
}

/// Whether the statement of a parse that succeeded is spanned.
pub open spec fn gives_spanned_statement(parsed: ParsedStatement) -> bool {
    parsed matches Ok((s, _)) ==> statement_is_spanned(s)
}

/// A primary expression that was parsed is spanned.
proof fn lemma_primary_is_spanned(tokens: Seq<TokenView>, pos: int)
    ensures
        gives_spanned_expression(primary(tokens, pos)),
    decreases tokens.len() - pos, 0int,
{
    if kind_at(tokens, pos) == TokenType::LeftParen && !holds(
        tokens,
        pos + 1,
        TokenType::RightParen,
    ) {
        lemma_expression_is_spanned(tokens, pos + 1);
    }
}

/// The span of a call so far covers the arguments parsed so far, and still
/// does when the rest of them has been parsed.
proof fn lemma_arguments_are_spanned(
    tokens: Seq<TokenView>,
    pos: int,
    sofar: Seq<ExprView>,
    location: SourceLocation,
)
    requires
        expressions_are_spanned(sofar, location),
    ensures
        arguments(tokens, pos, sofar, location) matches Ok((list, covered, _)) ==> covers(
            covered,
            location,
        ) && expressions_are_spanned(list, covered),
    decreases tokens.len() - pos, 17int,
{
    lemma_expression_is_spanned(tokens, pos);
    if let Ok((argument, after)) = expression(tokens, pos) {
        let covered = join_spans(location, expression_location(argument));
        let longer = sofar.push(argument);
        assert forall|i: int| 0 <= i < longer.len() implies covers(
            covered,
            expression_location(#[trigger] longer[i]),
        ) && expression_is_spanned(longer[i]) by {
            if i < sofar.len() {
                assert(longer[i] == sofar[i]);
            }
        }
        if sofar.len() < MAXIMUM_ARITY && holds(tokens, after, TokenType::Comma) && after >= pos {
            lemma_arguments_are_spanned(tokens, after + 1, longer, covered);
        }
    }
}

/// A call of a spanned callee is spanned.
proof fn lemma_finish_call_is_spanned(tokens: Seq<TokenView>, callee: ExprView, open: int)
    requires
        expression_is_spanned(callee),
    ensures
        gives_spanned_expression(finish_call(tokens, callee, open)),
    decreases tokens.len() - open, 18int,
{
    let location = join_spans(expression_location(callee), location_at(tokens, open));
    if !holds(tokens, open + 1, TokenType::RightParen) && 0 <= open < tokens.len() {
        lemma_arguments_are_spanned(tokens, open + 1, Seq::empty(), location);
    }
    if let Ok((node, _)) = finish_call(tokens, callee, open) {
        if let ExprView::Call { location: whole, arguments: list, .. } = node {
            assert forall|i: int| 0 <= i < list.len() implies covers(
                whole,
                expression_location(#[trigger] list[i]),
            ) && expression_is_spanned(list[i]) by {}
        }
    }
}

/// Calls that follow a spanned callee are spanned.
proof fn lemma_calls_are_spanned(tokens: Seq<TokenView>, callee: ExprView, pos: int)
    requires
        expression_is_spanned(callee),
    ensures
        gives_spanned_expression(calls(tokens, callee, pos)),
    decreases tokens.len() - pos, 19int,
{
    if holds(tokens, pos, TokenType::LeftParen) {
        lemma_finish_call_is_spanned(tokens, callee, pos);
        if let Ok((called, after)) = finish_call(tokens, callee, pos) {
            if ahead(tokens, pos, after) {
                lemma_calls_are_spanned(tokens, called, after);
            }
        }
    }
}

/// A call expression that was parsed is spanned.
proof fn lemma_call_is_spanned(tokens: Seq<TokenView>, pos: int)
    ensures
        gives_spanned_expression(call(tokens, pos)),
    decreases tokens.len() - pos, 1int,
{
    lemma_primary_is_spanned(tokens, pos);
    if let Ok((callee, after)) = primary(tokens, pos) {
        if ahead(tokens, pos, after) {
            lemma_calls_are_spanned(tokens, callee, after);
        }
    }
}

/// A unary expression that was parsed is spanned.
proof fn lemma_unary_is_spanned(tokens: Seq<TokenView>, pos: int)
    ensures
        gives_spanned_expression(unary(tokens, pos)),
    decreases tokens.len() - pos, 2int,
{
    if holds(tokens, pos, TokenType::Bang) || holds(tokens, pos, TokenType::Minus) {
        lemma_unary_is_spanned(tokens, pos + 1);
    } else {
        lemma_call_is_spanned(tokens, pos);
    }
}

/// An operand that was parsed is spanned.
proof fn lemma_operand_is_spanned(tokens: Seq<TokenView>, level: Level, pos: int)
    ensures
        gives_spanned_expression(operand(tokens, level, pos)),
    decreases tokens.len() - pos, 3 + 2 * rank(level),
{
    match level {
        Level::Or => lemma_binary_is_spanned(tokens, Level::And, pos),
        Level::And => lemma_binary_is_spanned(tokens, Level::Equality, pos),
        Level::Equality => lemma_binary_is_spanned(tokens, Level::Comparison, pos),
        Level::Comparison => lemma_binary_is_spanned(tokens, Level::Term, pos),
        Level::Term => lemma_binary_is_spanned(tokens, Level::Factor, pos),
        Level::Factor => lemma_unary_is_spanned(tokens, pos),
    }
}

/// Operators with their operands after a spanned left operand are spanned.
proof fn lemma_operations_are_spanned(
    tokens: Seq<TokenView>,
    level: Level,
    left: ExprView,
    pos: int,
)
    requires
        expression_is_spanned(left),
    ensures
        gives_spanned_expression(operations(tokens, level, left, pos)),
    decreases tokens.len() - pos, 20int,
{
    if is_operator(level, kind_at(tokens, pos)) && 0 <= pos < tokens.len() {
        lemma_operand_is_spanned(tokens, level, pos + 1);
        if let Ok((right, after)) = operand(tokens, level, pos + 1) {
            if ahead(tokens, pos, after) {
                lemma_operations_are_spanned(
                    tokens,
                    level,
                    combined(level, left, tokens[pos], right),
                    after,
                );
            }
        }
    }
}

/// An expression of a level that was parsed is spanned.
proof fn lemma_binary_is_spanned(tokens: Seq<TokenView>, level: Level, pos: int)
    ensures
        gives_spanned_expression(binary(tokens, level, pos)),
    decreases tokens.len() - pos, 4 + 2 * rank(level),
{
    lemma_operand_is_spanned(tokens, level, pos);
    if let Ok((left, after)) = operand(tokens, level, pos) {
        if ahead(tokens, pos, after) {
            lemma_operations_are_spanned(tokens, level, left, after);
        }
    }
}

/// An assignment that was parsed is spanned.
proof fn lemma_assignment_is_spanned(tokens: Seq<TokenView>, pos: int)
    ensures
        gives_spanned_expression(assignment(tokens, pos)),
    decreases tokens.len() - pos, 15int,
{
    lemma_binary_is_spanned(tokens, Level::Or, pos);
    if let Ok((target, equals)) = binary(tokens, Level::Or, pos) {
        if holds(tokens, equals, TokenType::Equal) && equals >= pos {
            lemma_assignment_is_spanned(tokens, equals + 1);
        }
    }
}

/// Every expression that the parser gives is spanned: the span of each of
/// its nodes covers the spans of the node's tokens and operands.
pub proof fn lemma_expression_is_spanned(tokens: Seq<TokenView>, pos: int)
    ensures
        gives_spanned_expression(expression(tokens, pos)),
    decreases tokens.len() - pos, 16int,
{
    lemma_assignment_is_spanned(tokens, pos);
}

/// An expression statement that was parsed is spanned.
proof fn lemma_expression_statement_is_spanned(tokens: Seq<TokenView>, pos: int)
    ensures
        gives_spanned_statement(expression_statement(tokens, pos)),
{
    lemma_expression_is_spanned(tokens, pos);
}

/// A variable declaration that was parsed is spanned.
proof fn lemma_variable_declaration_is_spanned(tokens: Seq<TokenView>, keyword: int)
    ensures
        gives_spanned_statement(variable_declaration(tokens, keyword)),
{
    lemma_expression_is_spanned(tokens, keyword + 3);
}

/// The span of a block so far covers the statements parsed so far, and the
/// block is spanned when the rest of it has been parsed.
proof fn lemma_block_items_are_spanned(
    tokens: Seq<TokenView>,
    pos: int,
    sofar: Seq<StmtView>,
    location: SourceLocation,
)
    requires
        statements_are_spanned(sofar, location),
    ensures
        gives_spanned_statement(block_items(tokens, pos, sofar, location)),
    decreases tokens.len() - pos, 32int,
{
    if holds(tokens, pos, TokenType::RightBrace) {
        let whole = join_spans(location, tokens[pos].location);
        assert forall|i: int| 0 <= i < sofar.len() implies covers(
            whole,
            statement_location(#[trigger] sofar[i]),
        ) && statement_is_spanned(sofar[i]) by {}
    } else if kind_at(tokens, pos) != TokenType::EOF {
        lemma_declaration_is_spanned(tokens, pos);
        if let Ok((statement, after)) = declaration(tokens, pos) {
            if ahead(tokens, pos, after) {
                let covered = join_spans(location, statement_location(statement));
                let longer = sofar.push(statement);
                assert forall|i: int| 0 <= i < longer.len() implies covers(
                    covered,
                    statement_location(#[trigger] longer[i]),
                ) && statement_is_spanned(longer[i]) by {
                    if i < sofar.len() {
                        assert(longer[i] == sofar[i]);
                    }
                }
                lemma_block_items_are_spanned(tokens, after, longer, covered);
            }
        }
    }
}

/// A block that was parsed is spanned.
proof fn lemma_block_is_spanned(tokens: Seq<TokenView>, open: int)
    ensures
        gives_spanned_statement(block(tokens, open)),
    decreases tokens.len() - open, 25int,
{
    if 0 <= open < tokens.len() {
        lemma_block_items_are_spanned(tokens, open + 1, Seq::empty(), tokens[open].location);
    }
}

/// An `if` statement that was parsed is spanned.
proof fn lemma_if_statement_is_spanned(tokens: Seq<TokenView>, keyword: int)
    ensures
        gives_spanned_statement(if_statement(tokens, keyword)),
    decreases tokens.len() - keyword, 26int,
{
    if 0 <= keyword < tokens.len() && holds(tokens, keyword + 1, TokenType::LeftParen) {
        lemma_expression_is_spanned(tokens, keyword + 2);
        if let Ok((condition, close)) = expression(tokens, keyword + 2) {
            if holds(tokens, close, TokenType::RightParen) && close > keyword {
                lemma_statement_is_spanned(tokens, close + 1);
                if let Ok((then_branch, after)) = statement(tokens, close + 1) {
                    if holds(tokens, after, TokenType::Else) && after > keyword {
                        lemma_statement_is_spanned(tokens, after + 1);
                    }
                }
            }
        }
    }
}

/// A `while` statement that was parsed is spanned.
proof fn lemma_while_statement_is_spanned(tokens: Seq<TokenView>, keyword: int)
    ensures
        gives_spanned_statement(while_statement(tokens, keyword)),
    decreases tokens.len() - keyword, 26int,
{
    if 0 <= keyword < tokens.len() && holds(tokens, keyword + 1, TokenType::LeftParen) {
        lemma_expression_is_spanned(tokens, keyword + 2);
        if let Ok((condition, close)) = expression(tokens, keyword + 2) {
            if holds(tokens, close, TokenType::RightParen) && close > keyword {
                lemma_statement_is_spanned(tokens, close + 1);
            }
        }
    }
}

/// The loop that a `for` statement stands for is spanned if the parts of
/// the statement are.
pub proof fn lemma_for_loop_is_spanned(
    keyword: SourceLocation,
    initializer: Option<StmtView>,
    condition: Option<ExprView>,
    semicolon: SourceLocation,
    increment: Option<ExprView>,
    body: StmtView,
)
    requires
        initializer matches Some(first) ==> statement_is_spanned(first),
        condition matches Some(test) ==> expression_is_spanned(test),
        increment matches Some(step) ==> expression_is_spanned(step),
        statement_is_spanned(body),
    ensures
        statement_is_spanned(
            for_loop(keyword, initializer, condition, semicolon, increment, body),
        ),
{
    let whole = for_span(keyword, initializer, condition, semicolon, increment, body);
    let repeated = match increment {
        Some(step) => StmtView::Block {
            location: whole,
            statements: seq![
                body,
                StmtView::Expression { location: expression_location(step), expression: step },
            ],
        },
        None => body,
    };
    if let Some(step) = increment {
        let both = seq![
            body,
            StmtView::Expression { location: expression_location(step), expression: step },
        ];
        assert forall|i: int| 0 <= i < both.len() implies covers(
            whole,
            statement_location(#[trigger] both[i]),
        ) && statement_is_spanned(both[i]) by {
            if i == 0 {
                assert(both[0] == body);
            } else {
                assert(both[1] == StmtView::Expression {
                    location: expression_location(step),
                    expression: step,
                });
            }
        }
    }
    assert(statement_is_spanned(repeated));
    assert(covers(whole, statement_location(repeated)));
    let test = match condition {
        Some(test) => test,
        None => ExprView::Literal {
            location: semicolon,
            literal: crate::object::ObjectView::Boolean { location: semicolon, value: true },
        },
    };
    let looping = StmtView::While { location: whole, condition: test, body: Box::new(repeated) };
    assert(statement_is_spanned(looping));
    if let Some(first) = initializer {
        let both = seq![first, looping];
        assert forall|i: int| 0 <= i < both.len() implies covers(
            whole,
            statement_location(#[trigger] both[i]),
        ) && statement_is_spanned(both[i]) by {
            if i == 0 {
                assert(both[0] == first);
            } else {
                assert(both[1] == looping);
            }
        }
    }
}

/// The loop that a parsed `for` statement stands for is spanned.
proof fn lemma_for_statement_is_spanned(tokens: Seq<TokenView>, keyword: int)
    ensures
        gives_spanned_statement(for_statement(tokens, keyword)),
    decreases tokens.len() - keyword, 26int,
{
    if 0 <= keyword < tokens.len() && holds(tokens, keyword + 1, TokenType::LeftParen) {
        lemma_variable_declaration_is_spanned(tokens, keyword + 2);
        lemma_expression_statement_is_spanned(tokens, keyword + 2);
        if let Ok((initializer, first)) = for_initializer(tokens, keyword + 2) {
            if ahead(tokens, keyword, first) {
                lemma_expression_is_spanned(tokens, first);
                if let Ok((condition, second)) = for_clause(tokens, first, TokenType::Semicolon) {
                    if holds(tokens, second, TokenType::Semicolon) && second > keyword {
                        lemma_expression_is_spanned(tokens, second + 1);
                        if let Ok((increment, close)) = for_clause(
                            tokens,
                            second + 1,
                            TokenType::RightParen,
                        ) {
                            if holds(tokens, close, TokenType::RightParen) && close > keyword {
                                lemma_statement_is_spanned(tokens, close + 1);
                                if let Ok((body, after)) = statement(tokens, close + 1) {
                                    lemma_for_loop_is_spanned(
                                        tokens[keyword].location,
                                        initializer,
                                        condition,
                                        tokens[second].location,
                                        increment,
                                        body,
                                    );
                                }
                            }
                        }
                    }
                }
            }
        }
    }
}

/// The span of a declaration so far covers the parameters parsed so far,
/// and still does when the rest of them has been parsed.
proof fn lemma_parameters_are_covered(
    tokens: Seq<TokenView>,
    pos: int,
    sofar: Seq<TokenView>,
    name: SourceLocation,
    location: SourceLocation,
)
    requires
        tokens_are_covered(sofar, location),
    ensures
        parameters(tokens, pos, sofar, name, location) matches Ok((names, covered, _)) ==> covers(
            covered,
            location,
        ) && tokens_are_covered(names, covered),
    decreases tokens.len() - pos,
{
    if sofar.len() < MAXIMUM_ARITY && holds(tokens, pos, TokenType::Identifier) {
        let covered = join_spans(location, tokens[pos].location);
        let longer = sofar.push(tokens[pos]);
        assert forall|i: int| 0 <= i < longer.len() implies covers(
            covered,
            (#[trigger] longer[i]).location,
        ) by {
            if i < sofar.len() {
                assert(longer[i] == sofar[i]);
            }
        }
        if holds(tokens, pos + 1, TokenType::Comma) {
            lemma_parameters_are_covered(tokens, pos + 2, longer, name, covered);
        }
    }
}

/// A function declaration that was parsed is spanned.
proof fn lemma_function_is_spanned(tokens: Seq<TokenView>, keyword: int)
    ensures
        gives_spanned_statement(function(tokens, keyword)),
    decreases tokens.len() - keyword, 26int,
{
    if 0 <= keyword < tokens.len() && holds(tokens, keyword + 1, TokenType::Identifier) && holds(
        tokens,
        keyword + 2,
        TokenType::LeftParen,
    ) {
        let name = tokens[keyword + 1];
        let named = join_spans(tokens[keyword].location, name.location);
        let read = if holds(tokens, keyword + 3, TokenType::RightParen) {
            Ok((Seq::empty(), named, keyword + 3))
        } else {
            parameters(tokens, keyword + 3, Seq::empty(), name.location, named)
        };
        lemma_parameters_are_covered(tokens, keyword + 3, Seq::empty(), name.location, named);
        if let Ok((names, covered, close)) = read {
            if holds(tokens, close, TokenType::RightParen) && holds(
                tokens,
                close + 1,
                TokenType::LeftBrace,
            ) && close > keyword {
                lemma_block_is_spanned(tokens, close + 1);
                if let Ok((body, after)) = block(tokens, close + 1) {
                    let whole = join_spans(covered, statement_location(body));
                    assert forall|i: int| 0 <= i < names.len() implies covers(
                        whole,
                        (#[trigger] names[i]).location,
                    ) by {}
                }
            }
        }
    }
}

/// A statement that was parsed is spanned.
proof fn lemma_statement_is_spanned(tokens: Seq<TokenView>, pos: int)
    ensures
        gives_spanned_statement(statement(tokens, pos)),
    decreases tokens.len() - pos, 30int,
{
    let kind = kind_at(tokens, pos);
    if kind == TokenType::Print {
        if 0 <= pos < tokens.len() {
            lemma_expression_is_spanned(tokens, pos + 1);
        }
    } else if kind == TokenType::Return {
        if 0 <= pos < tokens.len() {
            lemma_expression_is_spanned(tokens, pos + 1);
        }
    } else if kind == TokenType::LeftBrace {
        lemma_block_is_spanned(tokens, pos);
    } else if kind == TokenType::If {
        lemma_if_statement_is_spanned(tokens, pos);
    } else if kind == TokenType::While {
        lemma_while_statement_is_spanned(tokens, pos);
    } else if kind == TokenType::For {
        lemma_for_statement_is_spanned(tokens, pos);
    } else {
        lemma_expression_statement_is_spanned(tokens, pos);
    }
}

/// A declaration that was parsed is spanned.
proof fn lemma_declaration_is_spanned(tokens: Seq<TokenView>, pos: int)
    ensures
        gives_spanned_statement(declaration(tokens, pos)),
    decreases tokens.len() - pos, 31int,
{
    let kind = kind_at(tokens, pos);
    if kind == TokenType::Function {
        lemma_function_is_spanned(tokens, pos);
    } else if kind == TokenType::Var {
        lemma_variable_declaration_is_spanned(tokens, pos);
    } else {
        lemma_statement_is_spanned(tokens, pos);
    }
}

/// The statements of a program are spanned, those parsed so far and those
/// parsed after them.
proof fn lemma_program_is_spanned(tokens: Seq<TokenView>, pos: int, sofar: Seq<StmtView>)
    requires
        forall|i: int| 0 <= i < sofar.len() ==> statement_is_spanned(#[trigger] sofar[i]),
    ensures
        program(tokens, pos, sofar) matches Ok(list) ==> forall|i: int|
            0 <= i < list.len() ==> statement_is_spanned(#[trigger] list[i]),
    decreases tokens.len() - pos, 33int,
{
    if kind_at(tokens, pos) != TokenType::EOF {
        lemma_declaration_is_spanned(tokens, pos);
        if let Ok((statement, after)) = declaration(tokens, pos) {
            if ahead(tokens, pos, after) {
                let longer = sofar.push(statement);
                assert forall|i: int| 0 <= i < longer.len() implies statement_is_spanned(
                    #[trigger] longer[i],
                ) by {
                    if i < sofar.len() {
                        assert(longer[i] == sofar[i]);
                    }
                }
                lemma_program_is_spanned(tokens, after, longer);
            }
        }
    }
}

/// Every node of a parsed program has a span that covers the spans of the
/// tokens that the node holds and of the nodes below it.
pub proof fn parsed_programs_are_spanned(tokens: Seq<TokenView>)
    ensures
        parse_tokens(tokens) matches Ok(list) ==> forall|i: int|
            0 <= i < list.len() ==> statement_is_spanned(#[trigger] list[i]),
{
    lemma_program_is_spanned(tokens, 0, Seq::empty());
}

} // verus!
