//! The parser: tokens to statements, by recursive descent.

use crate::ast::{
    expression_location, expressions_model, statements_model, Expr, ExprView, Stmt, StmtView,
};
use crate::error::{ErrorView, LoxError, LoxResult};
use crate::grammar::{
    arguments, assignment, binary, block, block_items, call, calls, combined, declaration, expected,
    expression, expression_statement, finish_call, for_clause, for_initializer, for_loop, for_span,
    for_statement, function, holds, if_statement, is_operator, kind_at, lexeme_at, location_at,
    operand, operations, parameters, parse_tokens, primary, print_statement, program, rank,
    return_statement, source_text, statement, unary, variable_declaration, while_statement, Level,
    Parsed, ParsedStatement, MAXIMUM_ARITY,
};
use crate::object::LoxObject;
use crate::source_location::SourceLocation;

use crate::token::{tokens_model, Token, TokenType, TokenView};
use vstd::prelude::*;
use vstd::string::StringExecFns;

verus! {

/// A parser over a list of tokens, with the position it has reached.
pub struct Parser<'a> {
    current: usize,
    tokens: &'a Vec<Token>,
}

/// What parsing an expression gave, with the position reached.
pub open spec fn parsed_expression(result: Result<Expr, LoxError>, after: int) -> Parsed<ExprView> {
    match result {
        Ok(expression) => Ok((expression@, after)),
        Err(error) => Err(error@),
    }
}

/// What parsing a statement gave, with the position reached.
pub open spec fn parsed_statement(result: Result<Stmt, LoxError>, after: int) -> ParsedStatement {
    match result {
        Ok(statement) => Ok((statement@, after)),
        Err(error) => Err(error@),
    }
}

/// What parsing a whole program gave.
pub open spec fn parsed_program(result: Result<Vec<Stmt>, LoxError>) -> Result<
    Seq<StmtView>,
    ErrorView,
> {
    match result {
        Ok(statements) => Ok(statements_model(statements@)),
        Err(error) => Err(error@),
    }
}

/// What parsing an optional clause gave, with the position reached.
pub open spec fn parsed_clause(result: Result<Option<Expr>, LoxError>, after: int) -> Result<
    (Option<ExprView>, int),
    ErrorView,
> {
    match result {
        Ok(Some(clause)) => Ok((Some(clause@), after)),
        Ok(None) => Ok((None, after)),
        Err(error) => Err(error@),
    }
}

/// What parsing an optional statement gave, with the position reached.
pub open spec fn parsed_initializer(result: Result<Option<Stmt>, LoxError>, after: int) -> Result<
    (Option<StmtView>, int),
    ErrorView,
> {
    match result {
        Ok(Some(statement)) => Ok((Some(statement@), after)),
        Ok(None) => Ok((None, after)),
        Err(error) => Err(error@),
    }
}

/// What parsing a list of names gave, with the position reached.
pub open spec fn parsed_names(
    result: Result<(Vec<Token>, SourceLocation), LoxError>,
    after: int,
) -> Result<(Seq<TokenView>, SourceLocation, int), ErrorView> {
    match result {
        Ok((names, location)) => Ok((tokens_model(names@), location, after)),
        Err(error) => Err(error@),
    }
}

/// What parsing the arguments of a call gave, with the position reached.
pub open spec fn parsed_arguments(
    result: Result<(Vec<Expr>, SourceLocation), LoxError>,
    after: int,
) -> Result<(Seq<ExprView>, SourceLocation, int), ErrorView> {
    match result {
        Ok((list, location)) => Ok((expressions_model(list@), location, after)),
        Err(error) => Err(error@),
    }
}

/// Whether `kind` is one of `kinds` and is not the end of input.
pub open spec fn one_of(kinds: Seq<TokenType>, kind: TokenType) -> bool {
    kind != TokenType::EOF && kinds.contains(kind)
}

impl<'a> Parser<'a> {
    /// The tokens that the parser reads.
    pub closed spec fn input(&self) -> Seq<TokenView> {
        tokens_model(self.tokens@)
    }

    /// The index of the token that the parser is at.
    pub closed spec fn position(&self) -> int {
        self.current as int
    }

    /// The parser is within its tokens, or at their end.
    pub closed spec fn well_formed(&self) -> bool {
        self.current <= self.tokens.len()
    }

    /// A parser at the first of `tokens`.
    pub fn new(tokens: &'a Vec<Token>) -> (r: Self)
        ensures
            r.input() == tokens_model(tokens@),
            r.position() == 0,
            r.well_formed(),
    {
        Parser { current: 0, tokens }
    }
}

// parsing statements
impl<'a> Parser<'a> {
    /// Parses the tokens from where the parser is up to the end of input.
    /// On a parser that has read nothing yet, that is the whole program.
    pub fn parse(&mut self) -> (r: LoxResult<Vec<Stmt>>)
        requires
            old(self).well_formed(),
        ensures
            parsed_program(r) == program(old(self).input(), old(self).position(), Seq::empty()),
            old(self).position() == 0 ==> parsed_program(r) == parse_tokens(old(self).input()),
            final(self).input() == old(self).input(),
            final(self).well_formed(),
            r is Ok ==> kind_at(final(self).input(), final(self).position()) == TokenType::EOF,
    {
        let mut statements: Vec<Stmt> = Vec::new();
        assert(statements_model(statements@) =~= Seq::empty());
        while !self.is_at_end()
            invariant
                self.tokens == old(self).tokens,
                old(self).current <= self.current <= self.tokens.len(),
                program(self.input(), self.current as int, statements_model(statements@))
                    == program(old(self).input(), old(self).position(), Seq::empty()),
            decreases self.tokens.len() - self.current,
        {
            let ghost sofar = statements_model(statements@);
            match self.parse_declaration() {
                Ok(statement) => {
                    statements.push(statement);
                    assert(statements_model(statements@) =~= sofar.push(statement@));
                },
                Err(error) => {
                    return Err(error);
                },
            }
        }
        Ok(statements)
    }

    #[verifier::rlimit(50)]
    fn parse_statement(&mut self) -> (r: LoxResult<Stmt>)
        requires
            old(self).well_formed(),
        ensures
            parsed_statement(r, final(self).position()) == statement(
                old(self).input(),
                old(self).position(),
            ),
            final(self).tokens == old(self).tokens,
            final(self).well_formed(),
            r is Ok ==> old(self).current < final(self).current,
        decreases old(self).tokens.len() - old(self).current, 30int,
    {
        if self.check(TokenType::Print) {
            let _ = self.advance();
            return self.parse_print_statement();
        }
        if self.check(TokenType::Return) {
            let _ = self.advance();
            return self.parse_return_statement();
        }
        if self.check(TokenType::LeftBrace) {
            let _ = self.advance();
            return self.parse_block_statement();
        }
        if self.check(TokenType::If) {
            let _ = self.advance();
            return self.parse_if_statement();
        }
        if self.check(TokenType::While) {
            let _ = self.advance();
            return self.parse_while_loop_statement();
        }
        if self.check(TokenType::For) {
            let _ = self.advance();
            return self.parse_for_loop_statement();
        }
        self.parse_expression_statement()
    }

    /// Parses an `if` statement whose keyword was read.
    #[verifier::rlimit(50)]
    fn parse_if_statement(&mut self) -> (r: LoxResult<Stmt>)
        requires
            old(self).well_formed(),
            old(self).current > 0,
        ensures
            parsed_statement(r, final(self).position()) == if_statement(
                old(self).input(),
                old(self).position() - 1,
            ),
            final(self).tokens == old(self).tokens,
            final(self).well_formed(),
            r is Ok ==> old(self).current < final(self).current,
        decreases old(self).tokens.len() - old(self).current + 1, 26int,
    {
        let keyword = self.tokens[self.current - 1].location;
        match self.expect(
            TokenType::LeftParen,
            LoxError::ExpectedToken {
                location: self.peek_location(),
                message: String::from_str("Expected ( after if keyword."),
            },
        ) {
            Ok(_) => {},
            Err(error) => {
                return Err(error);
            },
        }
        let condition = match self.parse_expression() {
            Ok(condition) => condition,
            Err(error) => {
                return Err(error);
            },
        };
        match self.expect(
            TokenType::RightParen,
            LoxError::ExpectedToken {
                location: self.peek_location(),
                message: String::from_str("Expected ) after condition."),
            },
        ) {
            Ok(_) => {},
            Err(error) => {
                return Err(error);
            },
        }
        let then_branch = match self.parse_statement() {
            Ok(statement) => statement,
            Err(error) => {
                return Err(error);
            },
        };
        let location = keyword.join(condition.location()).join(then_branch.location());
        if self.check(TokenType::Else) {
            let _ = self.advance();
            let else_branch = match self.parse_statement() {
                Ok(statement) => statement,
                Err(error) => {
                    return Err(error);
                },
            };
            return Ok(
                Stmt::If {
                    location: location.join(else_branch.location()),
                    condition,
                    then_branch: Box::new(then_branch),
                    else_branch: Some(Box::new(else_branch)),
                },
            );
        }
        Ok(Stmt::If { location, condition, then_branch: Box::new(then_branch), else_branch: None })
    }

    fn parse_expression_statement(&mut self) -> (r: LoxResult<Stmt>)
        requires
            old(self).well_formed(),
        ensures
            parsed_statement(r, final(self).position()) == expression_statement(
                old(self).input(),
                old(self).position(),
            ),
            final(self).tokens == old(self).tokens,
            final(self).well_formed(),
            r is Ok ==> old(self).current < final(self).current,
        decreases old(self).tokens.len() - old(self).current, 21int,
    {
        let expression = match self.parse_expression() {
            Ok(expression) => expression,
            Err(error) => {
                return Err(error);
            },
        };
        let semicolon = match self.expect(
            TokenType::Semicolon,
            LoxError::ExpectedSemicolon { location: self.peek_location() },
        ) {
            Ok(semicolon) => semicolon,
            Err(error) => {
                return Err(error);
            },
        };
        Ok(
            Stmt::Expression {
                location: expression.location().join(semicolon.location),
                expression,
            },
        )
    }

    /// Parses a `print` statement whose keyword was read.
    fn parse_print_statement(&mut self) -> (r: LoxResult<Stmt>)
        requires
            old(self).well_formed(),
            old(self).current > 0,
        ensures
            parsed_statement(r, final(self).position()) == print_statement(
                old(self).input(),
                old(self).position() - 1,
            ),
            final(self).tokens == old(self).tokens,
            final(self).well_formed(),
            r is Ok ==> old(self).current < final(self).current,
        decreases old(self).tokens.len() - old(self).current + 1, 22int,
    {
        let keyword = self.tokens[self.current - 1].location;
        let expression = match self.parse_expression() {
            Ok(expression) => expression,
            Err(error) => {
                return Err(error);
            },
        };
        let semicolon = match self.expect(
            TokenType::Semicolon,
            LoxError::ExpectedSemicolon { location: self.peek_location() },
        ) {
            Ok(semicolon) => semicolon,
            Err(error) => {
                return Err(error);
            },
        };
        Ok(
            Stmt::Print {
                location: keyword.join(expression.location()).join(semicolon.location),
                expression,
            },
        )
    }

    /// Parses a `return` statement whose keyword was read.
    fn parse_return_statement(&mut self) -> (r: LoxResult<Stmt>)
        requires
            old(self).well_formed(),
            old(self).current > 0,
        ensures
            parsed_statement(r, final(self).position()) == return_statement(
                old(self).input(),
                old(self).position() - 1,
            ),
            final(self).tokens == old(self).tokens,
            final(self).well_formed(),
            r is Ok ==> old(self).current < final(self).current,
        decreases old(self).tokens.len() - old(self).current + 1, 22int,
    {
        let keyword = self.tokens[self.current - 1].location;
        if self.check(TokenType::Semicolon) {
            let semicolon = self.advance();
            return Ok(Stmt::Return { location: keyword.join(semicolon.location), value: None });
        }
        let value = match self.parse_expression() {
            Ok(value) => value,
            Err(error) => {
                return Err(error);
            },
        };
        let semicolon = match self.expect(
            TokenType::Semicolon,
            LoxError::ExpectedSemicolon { location: self.peek_location() },
        ) {
            Ok(semicolon) => semicolon,
            Err(error) => {
                return Err(error);
            },
        };
        Ok(
            Stmt::Return {
                location: keyword.join(value.location()).join(semicolon.location),
                value: Some(value),
            },
        )
    }

    /// Parses a block whose opening brace was read.
    fn parse_block_statement(&mut self) -> (r: LoxResult<Stmt>)
        requires
            old(self).well_formed(),
            old(self).current > 0,
        ensures
            parsed_statement(r, final(self).position()) == block(
                old(self).input(),
                old(self).position() - 1,
            ),
            final(self).tokens == old(self).tokens,
            final(self).well_formed(),
            r is Ok ==> old(self).current < final(self).current,
        decreases old(self).tokens.len() - old(self).current + 1, 25int,
    {
        let mut statements: Vec<Stmt> = Vec::new();
        let mut locations = self.tokens[self.current - 1].location;
        assert(statements_model(statements@) =~= Seq::empty());
        while !self.check(TokenType::RightBrace) && !self.is_at_end()
            invariant
                self.tokens == old(self).tokens,
                0 < old(self).current <= self.current <= self.tokens.len(),
                block_items(
                    self.input(),
                    self.current as int,
                    statements_model(statements@),
                    locations,
                ) == block(old(self).input(), old(self).position() - 1),
            decreases self.tokens.len() - self.current,
        {
            let ghost sofar = statements_model(statements@);
            let statement = match self.parse_declaration() {
                Ok(statement) => statement,
                Err(error) => {
                    return Err(error);
                },
            };
            locations = locations.join(statement.location());
            statements.push(statement);
            assert(statements_model(statements@) =~= sofar.push(statement@));
        }
        let right_brace = match self.expect(
            TokenType::RightBrace,
            LoxError::ExpectedToken {
                location: self.peek_location(),
                message: String::from_str("Expected } after block statement."),
            },
        ) {
            Ok(brace) => brace,
            Err(error) => {
                return Err(error);
            },
        };
        // add location of the right brace
        locations = locations.join(right_brace.location);
        Ok(Stmt::Block { location: locations, statements })
    }

    fn parse_declaration(&mut self) -> (r: LoxResult<Stmt>)
        requires
            old(self).well_formed(),
        ensures
            parsed_statement(r, final(self).position()) == declaration(
                old(self).input(),
                old(self).position(),
            ),
            final(self).tokens == old(self).tokens,
            final(self).well_formed(),
            r is Ok ==> old(self).current < final(self).current,
        decreases old(self).tokens.len() - old(self).current, 31int,
    {
        if self.check(TokenType::Function) {
            let _ = self.advance();
            return self.parse_function();
        }
        if self.check(TokenType::Var) {
            let _ = self.advance();
            return self.parse_variable_declaration();
        }
        self.parse_statement()
    }

    /// Parses the names of a function's parameters, the first of which
    /// stands where the parser is. `name` is the span of the function's
    /// name, `location` that of the declaration so far.
    fn parse_parameters(&mut self, name: SourceLocation, location: SourceLocation) -> (r: LoxResult<
        (Vec<Token>, SourceLocation),
    >)
        requires
            old(self).well_formed(),
        ensures
            parsed_names(r, final(self).position()) == parameters(
                old(self).input(),
                old(self).position(),
                Seq::empty(),
                name,
                location,
            ),
            final(self).tokens == old(self).tokens,
            final(self).well_formed(),
            r is Ok ==> old(self).current < final(self).current,
    {
        let mut names: Vec<Token> = Vec::new();
        let mut covered = location;
        let ghost overall = parameters(self.input(), self.position(), Seq::empty(), name, location);
        assert(tokens_model(names@) =~= Seq::empty());
        loop
            invariant_except_break
                parameters(self.input(), self.current as int, tokens_model(names@), name, covered)
                    == overall,
            invariant
                self.tokens == old(self).tokens,
                old(self).current <= self.current <= self.tokens.len(),
                overall == parameters(
                    old(self).input(),
                    old(self).position(),
                    Seq::empty(),
                    name,
                    location,
                ),
            ensures
                old(self).current < self.current,
                overall == Ok::<(Seq<TokenView>, SourceLocation, int), ErrorView>(
                    (tokens_model(names@), covered, self.current as int),
                ),
            decreases self.tokens.len() - self.current,
        {
            let ghost sofar = tokens_model(names@);
            if names.len() >= MAXIMUM_ARITY {
                return Err(LoxError::ExceededMaximumArity { location: name });
            }
            let parameter = match self.expect(
                TokenType::Identifier,
                LoxError::InvalidFunctionName {
                    location: self.peek_location(),
                    variable: self.peek_lexeme(),
                },
            ) {
                Ok(parameter) => parameter,
                Err(error) => {
                    return Err(error);
                },
            };
            covered = covered.join(parameter.location);
            names.push(parameter.duplicate());
            assert(tokens_model(names@) =~= sofar.push(parameter@));
            if self.check(TokenType::Comma) {
                let _ = self.advance();
            } else {
                break;
            }
        }
        Ok((names, covered))
    }

    /// Parses a function declaration whose keyword was read.
    #[verifier::rlimit(50)]
    fn parse_function(&mut self) -> (r: LoxResult<Stmt>)
        requires
            old(self).well_formed(),
            old(self).current > 0,
        ensures
            parsed_statement(r, final(self).position()) == function(
                old(self).input(),
                old(self).position() - 1,
            ),
            final(self).tokens == old(self).tokens,
            final(self).well_formed(),
            r is Ok ==> old(self).current < final(self).current,
        decreases old(self).tokens.len() - old(self).current + 1, 26int,
    {
        let keyword = self.tokens[self.current - 1].location;
        let name = match self.expect(
            TokenType::Identifier,
            LoxError::InvalidFunctionName {
                location: self.peek_location(),
                variable: self.peek_lexeme(),
            },
        ) {
            Ok(name) => name,
            Err(error) => {
                return Err(error);
            },
        };
        match self.expect(
            TokenType::LeftParen,
            LoxError::ExpectedToken {
                location: self.peek_location(),
                message: String::from_str("("),
            },
        ) {
            Ok(_) => {},
            Err(error) => {
                return Err(error);
            },
        }
        let mut parameters: Vec<Token> = Vec::new();
        let mut covered = keyword.join(name.location);
        assert(tokens_model(parameters@) =~= Seq::empty());
        if !self.check(TokenType::RightParen) {
            match self.parse_parameters(name.location, covered) {
                Ok(read) => {
                    parameters = read.0;
                    covered = read.1;
                },
                Err(error) => {
                    return Err(error);
                },
            }
        }
        match self.expect(
            TokenType::RightParen,
            LoxError::ExpectedToken {
                location: self.peek_location(),
                message: String::from_str(")"),
            },
        ) {
            Ok(_) => {},
            Err(error) => {
                return Err(error);
            },
        }
        match self.expect(
            TokenType::LeftBrace,
            LoxError::ExpectedToken {
                location: self.peek_location(),
                message: String::from_str("{"),
            },
        ) {
            Ok(_) => {},
            Err(error) => {
                return Err(error);
            },
        }
        let body = match self.parse_block_statement() {
            Ok(body) => body,
            Err(error) => {
                return Err(error);
            },
        };
        Ok(
            Stmt::Function {
                location: covered.join(body.location()),
                name: name.duplicate(),
                parameters,
                body: Box::new(body),
            },
        )
    }

    /// Parses a variable declaration whose keyword was read.
    fn parse_variable_declaration(&mut self) -> (r: LoxResult<Stmt>)
        requires
            old(self).well_formed(),
            old(self).current > 0,
        ensures
            parsed_statement(r, final(self).position()) == variable_declaration(
                old(self).input(),
                old(self).position() - 1,
            ),
            final(self).tokens == old(self).tokens,
            final(self).well_formed(),
            r is Ok ==> old(self).current < final(self).current,
        decreases old(self).tokens.len() - old(self).current + 1, 22int,
    {
        let keyword = self.tokens[self.current - 1].location;
        let identifier = match self.expect(
            TokenType::Identifier,
            LoxError::InvalidVariableName {
                location: self.peek_location(),
                variable: self.peek_lexeme(),
            },
        ) {
            Ok(identifier) => identifier,
            Err(error) => {
                return Err(error);
            },
        };
        let named = keyword.join(identifier.location);
        if self.check(TokenType::Equal) {
            let _ = self.advance();
            let value = match self.parse_expression() {
                Ok(value) => value,
                Err(error) => {
                    return Err(error);
                },
            };
            let semicolon = match self.expect(
                TokenType::Semicolon,
                LoxError::ExpectedSemicolon { location: self.peek_location() },
            ) {
                Ok(semicolon) => semicolon,
                Err(error) => {
                    return Err(error);
                },
            };
            return Ok(
                Stmt::VariableDeclaration {
                    location: named.join(value.location()).join(semicolon.location),
                    identifier: identifier.duplicate(),
                    expression: Some(value),
                },
            );
        }
        let semicolon = match self.expect(
            TokenType::Semicolon,
            LoxError::ExpectedSemicolon { location: self.peek_location() },
        ) {
            Ok(semicolon) => semicolon,
            Err(error) => {
                return Err(error);
            },
        };
        Ok(
            Stmt::VariableDeclaration {
                location: named.join(semicolon.location),
                identifier: identifier.duplicate(),
                expression: None,
            },
        )
    }

    /// Parses a `while` statement whose keyword was read.
    #[verifier::rlimit(50)]
    fn parse_while_loop_statement(&mut self) -> (r: LoxResult<Stmt>)
        requires
            old(self).well_formed(),
            old(self).current > 0,
        ensures
            parsed_statement(r, final(self).position()) == while_statement(
                old(self).input(),
                old(self).position() - 1,
            ),
            final(self).tokens == old(self).tokens,
            final(self).well_formed(),
            r is Ok ==> old(self).current < final(self).current,
        decreases old(self).tokens.len() - old(self).current + 1, 26int,
    {
        let keyword = self.tokens[self.current - 1].location;
        match self.expect(
            TokenType::LeftParen,
            LoxError::ExpectedToken {
                location: self.peek_location(),
                message: String::from_str("Expected ( after while keyword."),
            },
        ) {
            Ok(_) => {},
            Err(error) => {
                return Err(error);
            },
        }
        let condition = match self.parse_expression() {
            Ok(condition) => condition,
            Err(error) => {
                return Err(error);
            },
        };
        match self.expect(
            TokenType::RightParen,
            LoxError::ExpectedToken {
                location: self.peek_location(),
                message: String::from_str("Expected ) after the condition."),
            },
        ) {
            Ok(_) => {},
            Err(error) => {
                return Err(error);
            },
        }
        let body = match self.parse_statement() {
            Ok(body) => body,
            Err(error) => {
                return Err(error);
            },
        };
        Ok(
            Stmt::While {
                location: keyword.join(condition.location()).join(body.location()),
                condition,
                body: Box::new(body),
            },
        )
    }

    /// Parses the first clause of a `for`.
    fn parse_for_initializer(&mut self) -> (r: LoxResult<Option<Stmt>>)
        requires
            old(self).well_formed(),
        ensures
            parsed_initializer(r, final(self).position()) == for_initializer(
                old(self).input(),
                old(self).position(),
            ),
            final(self).tokens == old(self).tokens,
            final(self).well_formed(),
            r is Ok ==> old(self).current < final(self).current,
        decreases old(self).tokens.len() - old(self).current, 23int,
    {
        if self.check(TokenType::Semicolon) {
            let _ = self.advance();
            return Ok(None);
        }
        if self.check(TokenType::Var) {
            let _ = self.advance();
            return match self.parse_variable_declaration() {
                Ok(declared) => Ok(Some(declared)),
                Err(error) => Err(error),
            };
        }
        match self.parse_expression_statement() {
            Ok(evaluated) => Ok(Some(evaluated)),
            Err(error) => Err(error),
        }
    }

    /// Parses a clause of a `for` that is empty if a token of kind `end`
    /// stands where the parser is.
    fn parse_for_clause(&mut self, end: TokenType) -> (r: LoxResult<Option<Expr>>)
        requires
            old(self).well_formed(),
        ensures
            parsed_clause(r, final(self).position()) == for_clause(
                old(self).input(),
                old(self).position(),
                end,
            ),
            final(self).tokens == old(self).tokens,
            final(self).well_formed(),
            r is Ok ==> old(self).current <= final(self).current,
        decreases old(self).tokens.len() - old(self).current, 23int,
    {
        if self.check(end) {
            return Ok(None);
        }
        match self.parse_expression() {
            Ok(clause) => Ok(Some(clause)),
            Err(error) => Err(error),
        }
    }

    /// The statement that evaluates `expression` and drops its value.
    fn evaluation(expression: Expr) -> (r: Stmt)
        ensures
            r@ == (StmtView::Expression {
                location: expression_location(expression@),
                expression: expression@,
            }),
    {
        Stmt::Expression { location: expression.location(), expression }
    }

    /// The block of `first` and `second`.
    fn pair(location: SourceLocation, first: Stmt, second: Stmt) -> (r: Stmt)
        ensures
            r@ == (StmtView::Block { location, statements: seq![first@, second@] }),
    {
        let mut statements: Vec<Stmt> = Vec::new();
        statements.push(first);
        statements.push(second);
        assert(statements_model(statements@) =~= seq![first@, second@]);
        Stmt::Block { location, statements }
    }

    /// The loop that a `for` statement with these parts stands for.
    fn desugar(
        keyword: SourceLocation,
        initializer: Option<Stmt>,
        condition: Option<Expr>,
        semicolon: SourceLocation,
        increment: Option<Expr>,
        body: Stmt,
    ) -> (r: Stmt)
        ensures
            r@ == for_loop(
                keyword,
                match initializer {
                    Some(first) => Some(first@),
                    None => None,
                },
                match condition {
                    Some(test) => Some(test@),
                    None => None,
                },
                semicolon,
                match increment {
                    Some(step) => Some(step@),
                    None => None,
                },
                body@,
            ),
    {
        let first = match &initializer {
            Some(first) => keyword.join(first.location()),
            None => keyword,
        };
        let second = match &condition {
            Some(test) => first.join(test.location()),
            None => first.join(semicolon),
        };
        let third = match &increment {
            Some(step) => second.join(step.location()),
            None => second,
        };
        let whole = third.join(body.location());
        let repeated = match increment {
            Some(step) => Self::pair(whole, body, Self::evaluation(step)),
            None => body,
        };
        let test = match condition {
            Some(test) => test,
            None => Self::literal(
                semicolon,
                LoxObject::Boolean { location: semicolon, value: true },
            ),
        };
        let looping = Stmt::While { location: whole, condition: test, body: Box::new(repeated) };
        match initializer {
            Some(first) => Self::pair(whole, first, looping),
            None => looping,
        }
    }

    /// Parses a `for` statement whose keyword was read.
    #[verifier::rlimit(50)]
    fn parse_for_loop_statement(&mut self) -> (r: LoxResult<Stmt>)
        requires
            old(self).well_formed(),
            old(self).current > 0,
        ensures
            parsed_statement(r, final(self).position()) == for_statement(
                old(self).input(),
                old(self).position() - 1,
            ),
            final(self).tokens == old(self).tokens,
            final(self).well_formed(),
            r is Ok ==> old(self).current < final(self).current,
        decreases old(self).tokens.len() - old(self).current + 1, 26int,
    {
        let keyword = self.tokens[self.current - 1].location;
        match self.expect(
            TokenType::LeftParen,
            LoxError::ExpectedToken {
                location: self.peek_location(),
                message: String::from_str("Expected ( after `for` keyword"),
            },
        ) {
            Ok(_) => {},
            Err(error) => {
                return Err(error);
            },
        }
        let initializer = match self.parse_for_initializer() {
            Ok(initializer) => initializer,
            Err(error) => {
                return Err(error);
            },
        };
        let condition = match self.parse_for_clause(TokenType::Semicolon) {
            Ok(condition) => condition,
            Err(error) => {
                return Err(error);
            },
        };
        let semicolon = match self.expect(
            TokenType::Semicolon,
            LoxError::ExpectedSemicolon { location: self.peek_location() },
        ) {
            Ok(semicolon) => semicolon.location,
            Err(error) => {
                return Err(error);
            },
        };
        let increment = match self.parse_for_clause(TokenType::RightParen) {
            Ok(increment) => increment,
            Err(error) => {
                return Err(error);
            },
        };
        match self.expect(
            TokenType::RightParen,
            LoxError::ExpectedToken {
                location: self.peek_location(),
                message: String::from_str("Expected )"),
            },
        ) {
            Ok(_) => {},
            Err(error) => {
                return Err(error);
            },
        }
        let body = match self.parse_statement() {
            Ok(body) => body,
            Err(error) => {
                return Err(error);
            },
        };
        Ok(Self::desugar(keyword, initializer, condition, semicolon, increment, body))
    }
}

// parsing expressions
impl<'a> Parser<'a> {
    fn parse_expression(&mut self) -> (r: LoxResult<Expr>)
        requires
            old(self).well_formed(),
        ensures
            parsed_expression(r, final(self).position()) == expression(
                old(self).input(),
                old(self).position(),
            ),
            final(self).tokens == old(self).tokens,
            final(self).well_formed(),
            r is Ok ==> old(self).current < final(self).current,
        decreases old(self).tokens.len() - old(self).current, 16int,
    {
        self.parse_assignment()
    }

    fn parse_assignment(&mut self) -> (r: LoxResult<Expr>)
        requires
            old(self).well_formed(),
        ensures
            parsed_expression(r, final(self).position()) == assignment(
                old(self).input(),
                old(self).position(),
            ),
            final(self).tokens == old(self).tokens,
            final(self).well_formed(),
            r is Ok ==> old(self).current < final(self).current,
        decreases old(self).tokens.len() - old(self).current, 15int,
    {
        let begin = self.current;
        let expr = match self.parse_level(Level::Or) {
            Ok(expr) => expr,
            Err(error) => {
                return Err(error);
            },
        };
        if self.check(TokenType::Equal) {
            let end = self.current;
            let equals = self.advance();
            let value = match self.parse_assignment() {
                Ok(value) => value,
                Err(error) => {
                    return Err(error);
                },
            };
            let location = expr.location().join(equals.location).join(value.location());
            return match expr {
                Expr::Variable { identifier, .. } => Ok(
                    Expr::Assignment { location, identifier, value: Box::new(value) },
                ),
                _ => Err(
                    LoxError::InvalidAssignmentTarget {
                        location,
                        lexeme: self.text_between(begin, end),
                    },
                ),
            };
        }
        Ok(expr)
    }

    /// The texts of the tokens from `from` up to `to`, a space between
    /// neighbours.
    fn text_between(&self, from: usize, to: usize) -> (r: String)
        requires
            from <= to <= self.tokens.len(),
        ensures
            r@ == source_text(self.input(), from as int, to as int),
    {
        let mut text = String::new();
        let mut i: usize = from;
        while i < to
            invariant
                from <= i <= to <= self.tokens.len(),
                text@ == source_text(self.input(), from as int, i as int),
            decreases to - i,
        {
            if i > from {
                text.push(' ');
            }
            text.append(self.tokens[i].lexeme.as_str());
            i += 1;
        }
        text
    }

    /// Parses an expression of `level`: operands of the next tighter level
    /// with the operators of `level` between them.
    fn parse_level(&mut self, level: Level) -> (r: LoxResult<Expr>)
        requires
            old(self).well_formed(),
        ensures
            parsed_expression(r, final(self).position()) == binary(
                old(self).input(),
                level,
                old(self).position(),
            ),
            final(self).tokens == old(self).tokens,
            final(self).well_formed(),
            r is Ok ==> old(self).current < final(self).current,
        decreases old(self).tokens.len() - old(self).current, 4 + 2 * rank(level),
    {
        let mut expr = match self.parse_operand(level) {
            Ok(expr) => expr,
            Err(error) => {
                return Err(error);
            },
        };
        while self.at_operator(level)
            invariant
                self.tokens == old(self).tokens,
                old(self).current < self.current <= self.tokens.len(),
                operations(self.input(), level, expr@, self.current as int) == binary(
                    old(self).input(),
                    level,
                    old(self).position(),
                ),
            decreases self.tokens.len() - self.current,
        {
            let operator = self.advance();
            let right = match self.parse_operand(level) {
                Ok(right) => right,
                Err(error) => {
                    return Err(error);
                },
            };
            expr = Self::combine(level, expr, operator.duplicate(), right);
        }
        Ok(expr)
    }

    /// Parses an operand of `level`.
    fn parse_operand(&mut self, level: Level) -> (r: LoxResult<Expr>)
        requires
            old(self).well_formed(),
        ensures
            parsed_expression(r, final(self).position()) == operand(
                old(self).input(),
                level,
                old(self).position(),
            ),
            final(self).tokens == old(self).tokens,
            final(self).well_formed(),
            r is Ok ==> old(self).current < final(self).current,
        decreases old(self).tokens.len() - old(self).current, 3 + 2 * rank(level),
    {
        match level {
            Level::Or => self.parse_level(Level::And),
            Level::And => self.parse_level(Level::Equality),
            Level::Equality => self.parse_level(Level::Comparison),
            Level::Comparison => self.parse_level(Level::Term),
            Level::Term => self.parse_level(Level::Factor),
            Level::Factor => self.parse_unary(),
        }
    }

    /// Whether the parser is at an operator of `level`.
    fn at_operator(&self, level: Level) -> (r: bool)
        requires
            self.well_formed(),
        ensures
            r == (is_operator(level, kind_at(self.input(), self.position())) && self.current
                < self.tokens.len()),
    {
        if self.current >= self.tokens.len() {
            return false;
        }
        let kind = self.tokens[self.current].kind;
        match level {
            Level::Or => kind == TokenType::Or,
            Level::And => kind == TokenType::And,
            Level::Equality => kind == TokenType::BangEqual || kind == TokenType::EqualEqual,
            Level::Comparison => kind == TokenType::Greater || kind == TokenType::GreaterEqual
                || kind == TokenType::Less || kind == TokenType::LessEqual,
            Level::Term => kind == TokenType::Minus || kind == TokenType::Plus,
            Level::Factor => kind == TokenType::Slash || kind == TokenType::Star,
        }
    }

    /// The node of `left operator right` at `level`.
    fn combine(level: Level, left: Expr, operator: Token, right: Expr) -> (r: Expr)
        ensures
            r@ == combined(level, left@, operator@, right@),
    {
        let location = left.location().join(operator.location).join(right.location());
        match level {
            Level::Or | Level::And => Expr::Logical {
                location,
                left: Box::new(left),
                operator,
                right: Box::new(right),
            },
            _ => Expr::Binary { location, left: Box::new(left), operator, right: Box::new(right) },
        }
    }

    fn parse_unary(&mut self) -> (r: LoxResult<Expr>)
        requires
            old(self).well_formed(),
        ensures
            parsed_expression(r, final(self).position()) == unary(
                old(self).input(),
                old(self).position(),
            ),
            final(self).tokens == old(self).tokens,
            final(self).well_formed(),
            r is Ok ==> old(self).current < final(self).current,
        decreases old(self).tokens.len() - old(self).current, 2int,
    {
        if self.check(TokenType::Bang) || self.check(TokenType::Minus) {
            let operator = self.advance();
            let right = match self.parse_unary() {
                Ok(right) => right,
                Err(error) => {
                    return Err(error);
                },
            };
            return Ok(
                Expr::Unary {
                    location: operator.location.join(right.location()),
                    operator: operator.duplicate(),
                    right: Box::new(right),
                },
            );
        }
        self.parse_call()
    }

    /// Parses the arguments of a call, the first of which begins where the
    /// parser is. `location` is the span of the call so far.
    fn parse_arguments(&mut self, location: SourceLocation) -> (r: LoxResult<
        (Vec<Expr>, SourceLocation),
    >)
        requires
            old(self).well_formed(),
        ensures
            parsed_arguments(r, final(self).position()) == arguments(
                old(self).input(),
                old(self).position(),
                Seq::empty(),
                location,
            ),
            final(self).tokens == old(self).tokens,
            final(self).well_formed(),
            r is Ok ==> old(self).current < final(self).current,
        decreases old(self).tokens.len() - old(self).current, 17int,
    {
        let mut list: Vec<Expr> = Vec::new();
        let mut covered = location;
        let ghost overall = arguments(
            self.input(),
            self.position(),
            Seq::empty(),
            location,
        );
        assert(expressions_model(list@) =~= Seq::empty());
        loop
            invariant_except_break
                arguments(self.input(), self.current as int, expressions_model(list@), covered)
                    == overall,
            invariant
                self.tokens == old(self).tokens,
                old(self).current <= self.current <= self.tokens.len(),
                list.len() <= MAXIMUM_ARITY,
                overall == arguments(
                    old(self).input(),
                    old(self).position(),
                    Seq::empty(),
                    location,
                ),
            ensures
                old(self).current < self.current,
                overall == Ok::<(Seq<ExprView>, SourceLocation, int), ErrorView>(
                    (expressions_model(list@), covered, self.current as int),
                ),
            decreases self.tokens.len() - self.current,
        {
            let ghost sofar = expressions_model(list@);
            let argument = match self.parse_expression() {
                Ok(argument) => argument,
                Err(error) => {
                    return Err(error);
                },
            };
            covered = covered.join(argument.location());
            if list.len() >= MAXIMUM_ARITY {
                return Err(LoxError::ExceededMaximumArity { location: covered });
            }
            list.push(argument);
            assert(expressions_model(list@) =~= sofar.push(argument@));
            if self.check(TokenType::Comma) {
                let _ = self.advance();
            } else {
                break;
            }
        }
        Ok((list, covered))
    }

    /// Parses the rest of a call whose opening parenthesis was read: the
    /// arguments and the closing parenthesis.
    fn finish_call(&mut self, callee: Expr) -> (r: LoxResult<Expr>)
        requires
            old(self).well_formed(),
            old(self).current > 0,
        ensures
            parsed_expression(r, final(self).position()) == finish_call(
                old(self).input(),
                callee@,
                old(self).position() - 1,
            ),
            final(self).tokens == old(self).tokens,
            final(self).well_formed(),
            r is Ok ==> old(self).current < final(self).current,
        decreases old(self).tokens.len() - old(self).current + 1, 18int,
    {
        let location = callee.location().join(self.tokens[self.current - 1].location);
        let mut list: Vec<Expr> = Vec::new();
        let mut covered = location;
        assert(expressions_model(list@) =~= Seq::empty());
        if !self.check(TokenType::RightParen) {
            match self.parse_arguments(location) {
                Ok(read) => {
                    list = read.0;
                    covered = read.1;
                },
                Err(error) => {
                    return Err(error);
                },
            }
        }
        let ghost read = if holds(old(self).input(), old(self).position(), TokenType::RightParen) {
            Ok::<(Seq<ExprView>, SourceLocation, int), ErrorView>(
                (Seq::empty(), location, old(self).position()),
            )
        } else {
            arguments(old(self).input(), old(self).position(), Seq::empty(), location)
        };
        assert(read == Ok::<(Seq<ExprView>, SourceLocation, int), ErrorView>(
            (expressions_model(list@), covered, self.position()),
        ));
        let paren = match self.expect(
            TokenType::RightParen,
            LoxError::ExpectedToken {
                location: self.peek_location(),
                message: String::from_str("Expected after call )"),
            },
        ) {
            Ok(paren) => paren.duplicate(),
            Err(error) => {
                return Err(error);
            },
        };
        Ok(
            Expr::Call {
                location: covered.join(paren.location),
                callee: Box::new(callee),
                paren,
                arguments: list,
            },
        )
    }

    /// The expression that stands for the value `literal`.
    fn literal(location: SourceLocation, literal: LoxObject) -> (r: Expr)
        ensures
            r@ == (ExprView::Literal { location, literal: literal@ }),
    {
        Expr::Literal { location, literal }
    }

    fn parse_call(&mut self) -> (r: LoxResult<Expr>)
        requires
            old(self).well_formed(),
        ensures
            parsed_expression(r, final(self).position()) == call(
                old(self).input(),
                old(self).position(),
            ),
            final(self).tokens == old(self).tokens,
            final(self).well_formed(),
            r is Ok ==> old(self).current < final(self).current,
        decreases old(self).tokens.len() - old(self).current, 1int,
    {
        let mut expr = match self.parse_primary() {
            Ok(expr) => expr,
            Err(error) => {
                return Err(error);
            },
        };
        while self.check(TokenType::LeftParen)
            invariant
                self.tokens == old(self).tokens,
                old(self).current < self.current <= self.tokens.len(),
                calls(self.input(), expr@, self.current as int) == call(
                    old(self).input(),
                    old(self).position(),
                ),
            decreases self.tokens.len() - self.current,
        {
            let _ = self.advance();
            expr = match self.finish_call(expr) {
                Ok(expr) => expr,
                Err(error) => {
                    return Err(error);
                },
            };
        }
        Ok(expr)
    }

    fn parse_primary(&mut self) -> (r: LoxResult<Expr>)
        requires
            old(self).well_formed(),
        ensures
            parsed_expression(r, final(self).position()) == primary(
                old(self).input(),
                old(self).position(),
            ),
            final(self).tokens == old(self).tokens,
            final(self).well_formed(),
            r is Ok ==> old(self).current < final(self).current,
        decreases old(self).tokens.len() - old(self).current, 0int,
    {
        let location = self.peek_location();
        if self.check(TokenType::False) {
            let _ = self.advance();
            return Ok(Self::literal(location, LoxObject::Boolean { location, value: false }));
        }
        if self.check(TokenType::True) {
            let _ = self.advance();
            return Ok(Self::literal(location, LoxObject::Boolean { location, value: true }));
        }
        if self.check(TokenType::Nil) {
            let _ = self.advance();
            return Ok(Self::literal(location, LoxObject::Nil { location }));
        }
        if self.check(TokenType::String) || self.check(TokenType::Number) {
            let token = self.advance();
            return match &token.literal {
                Some(literal) => Ok(Expr::Literal { location, literal: literal.duplicate() }),
                None => Err(LoxError::ExpectedExpression { location }),
            };
        }
        if self.check(TokenType::LeftParen) {
            let _ = self.advance();
            if self.check(TokenType::RightParen) {
                let close = self.advance();
                let both = location.join(close.location);
                return Ok(Self::literal(both, LoxObject::Nil { location: both }));
            }
            let expr = match self.parse_expression() {
                Ok(expr) => expr,
                Err(error) => {
                    return Err(error);
                },
            };
            let close = match self.expect(
                TokenType::RightParen,
                LoxError::ExpectedToken {
                    location: self.peek_location(),
                    message: String::from_str("Expected enclosing ) after grouping expression."),
                },
            ) {
                Ok(close) => close,
                Err(error) => {
                    return Err(error);
                },
            };
            return Ok(
                Expr::Grouping {
                    location: location.join(expr.location()).join(close.location),
                    expression: Box::new(expr),
                },
            );
        }
        if self.check(TokenType::Identifier) {
            let token = self.advance();
            return Ok(Expr::Variable { location, identifier: token.duplicate() });
        }
        Err(LoxError::ExpectedExpression { location })
    }
}

// utility functions
impl<'a> Parser<'a> {
    /// Moves past the token the parser is at if its kind is one of `types`.
    pub fn match_token(&mut self, types: &[TokenType]) -> (r: bool)
        requires
            old(self).well_formed(),
        ensures
            r == one_of(types@, kind_at(old(self).input(), old(self).position())),
            final(self).position() == old(self).position() + if r {
                1int
            } else {
                0int
            },
            final(self).input() == old(self).input(),
            final(self).well_formed(),
    {
        let mut i: usize = 0;
        while i < types.len()
            invariant
                i <= types.len(),
                self.well_formed(),
                *self == *old(self),
                forall|j: int| 0 <= j < i ==> !holds(self.input(), self.position(), types[j]),
            decreases types.len() - i,
        {
            if self.check(types[i]) {
                let _ = self.advance();
                return true;
            }
            i += 1;
        }
        false
    }

    /// Moves past the token the parser is at if it is of kind `expected`,
    /// and hands it out; gives back `error` if it is not.
    fn expect(&mut self, expected: TokenType, error: LoxError) -> (r: LoxResult<&'a Token>)
        requires
            old(self).well_formed(),
        ensures
            final(self).tokens == old(self).tokens,
            final(self).well_formed(),
            holds(old(self).input(), old(self).position(), expected) ==> r is Ok && r->Ok_0@
                == old(self).input()[old(self).position()] && final(self).current == old(
                self,
            ).current + 1,
            !holds(old(self).input(), old(self).position(), expected) ==> r == Err::<
                &'a Token,
                LoxError,
            >(error) && final(self).current == old(self).current,
    {
        if self.check(expected) {
            return Ok(self.advance());
        }
        Err(error)
    }

    /// Whether the parser is at a token of kind `expected`, the end of
    /// input excepted.
    fn check(&self, expected: TokenType) -> (r: bool)
        requires
            self.well_formed(),
        ensures
            r == holds(self.input(), self.position(), expected),
            r ==> self.current < self.tokens.len(),
    {
        if self.is_at_end() {
            return false;
        }
        self.tokens[self.current].kind == expected
    }

    /// Moves past the token the parser is at, and hands it out.
    fn advance(&mut self) -> (r: &'a Token)
        requires
            old(self).current < old(self).tokens.len(),
        ensures
            final(self).tokens == old(self).tokens,
            final(self).current == old(self).current + 1,
            r@ == old(self).input()[old(self).position()],
            *r == old(self).tokens[old(self).position()],
    {
        self.current += 1;
        let tokens: &'a Vec<Token> = self.tokens;
        &tokens[self.current - 1]
    }

    /// The span of the token the parser is at.
    fn peek_location(&self) -> (r: SourceLocation)
        requires
            self.well_formed(),
        ensures
            r == location_at(self.input(), self.position()),
    {
        if self.current < self.tokens.len() {
            self.tokens[self.current].location
        } else {
            SourceLocation::dummy()
        }
    }

    /// The text of the token the parser is at.
    fn peek_lexeme(&self) -> (r: String)
        requires
            self.well_formed(),
        ensures
            r@ == lexeme_at(self.input(), self.position()),
    {
        if self.current < self.tokens.len() {
            self.tokens[self.current].lexeme.clone()
        } else {
            String::new()
        }
    }

    /// Whether the parser is at the end of input.
    fn is_at_end(&self) -> (r: bool)
        requires
            self.well_formed(),
        ensures
            r == (kind_at(self.input(), self.position()) == TokenType::EOF),
    {
        self.current >= self.tokens.len() || self.tokens[self.current].kind == TokenType::EOF
    }
}

/// Parsing keeps no state from one parse to the next: whatever two fresh
/// parsers give for the same tokens is the same, statement for statement,
/// or the same error.
pub proof fn parsing_twice_gives_the_same(
    tokens: Seq<TokenView>,
    first: Result<Vec<Stmt>, LoxError>,
    second: Result<Vec<Stmt>, LoxError>,
)
    requires
        parsed_program(first) == parse_tokens(tokens),
        parsed_program(second) == parse_tokens(tokens),
    ensures
        parsed_program(first) == parsed_program(second),
        first is Ok <==> second is Ok,
        first matches Ok(a) ==> second matches Ok(b) && a.len() == b.len() && forall|i: int|
            0 <= i < a.len() ==> a[i]@ == b[i]@,
{
    if let Ok(a) = first {
        if let Ok(b) = second {
            assert(statements_model(a@) == statements_model(b@));
            assert(statements_model(a@).len() == a.len());
            assert(statements_model(b@).len() == b.len());
            assert forall|i: int| 0 <= i < a.len() implies a[i]@ == b[i]@ by {
                assert(statements_model(a@)[i] == a[i]@);
                assert(statements_model(b@)[i] == b[i]@);
            }
        }
    }
}

} // verus!
