//! The syntax tree: expressions and statements, each with its span.

use crate::object::{LoxObject, ObjectView};
use crate::source_location::SourceLocation;
use crate::token::{duplicate_tokens, tokens_model, Token, TokenView};
use vstd::prelude::*;

verus! {

/// An expression. Every node carries the span of the source text it was
/// parsed from.
#[derive(Debug, PartialEq)]
pub enum Expr {
    Binary { location: SourceLocation, left: Box<Expr>, operator: Token, right: Box<Expr> },
    Unary { location: SourceLocation, operator: Token, right: Box<Expr> },
    Literal { location: SourceLocation, literal: LoxObject },
    Logical { location: SourceLocation, left: Box<Expr>, operator: Token, right: Box<Expr> },
    Grouping { location: SourceLocation, expression: Box<Expr> },
    Call { location: SourceLocation, callee: Box<Expr>, paren: Token, arguments: Vec<Expr> },
    Variable { location: SourceLocation, identifier: Token },
    Assignment { location: SourceLocation, identifier: Token, value: Box<Expr> },
}

/// What an expression is, with texts and lists as sequences.
pub enum ExprView {
    Binary {
        location: SourceLocation,
        left: Box<ExprView>,
        operator: TokenView,
        right: Box<ExprView>,
    },
    Unary { location: SourceLocation, operator: TokenView, right: Box<ExprView> },
    Literal { location: SourceLocation, literal: ObjectView },
    Logical {
        location: SourceLocation,
        left: Box<ExprView>,
        operator: TokenView,
        right: Box<ExprView>,
    },
    Grouping { location: SourceLocation, expression: Box<ExprView> },
    Call {
        location: SourceLocation,
        callee: Box<ExprView>,
        paren: TokenView,
        arguments: Seq<ExprView>,
    },
    Variable { location: SourceLocation, identifier: TokenView },
    Assignment { location: SourceLocation, identifier: TokenView, value: Box<ExprView> },
}

/// A statement. Every node carries the span of the source text it was
/// parsed from.
#[derive(Debug, PartialEq)]
pub enum Stmt {
    Block { location: SourceLocation, statements: Vec<Stmt> },
    Expression { location: SourceLocation, expression: Expr },
    Print { location: SourceLocation, expression: Expr },
    VariableDeclaration { location: SourceLocation, identifier: Token, expression: Option<Expr> },
    If {
        location: SourceLocation,
        condition: Expr,
        then_branch: Box<Stmt>,
        else_branch: Option<Box<Stmt>>,
    },
    While { location: SourceLocation, condition: Expr, body: Box<Stmt> },
    Function { location: SourceLocation, name: Token, parameters: Vec<Token>, body: Box<Stmt> },
    Return { location: SourceLocation, value: Option<Expr> },
}

/// What a statement is, with texts and lists as sequences.
pub enum StmtView {
    Block { location: SourceLocation, statements: Seq<StmtView> },
    Expression { location: SourceLocation, expression: ExprView },
    Print { location: SourceLocation, expression: ExprView },
    VariableDeclaration {
        location: SourceLocation,
        identifier: TokenView,
        expression: Option<ExprView>,
    },
    If {
        location: SourceLocation,
        condition: ExprView,
        then_branch: Box<StmtView>,
        else_branch: Option<Box<StmtView>>,
    },
    While { location: SourceLocation, condition: ExprView, body: Box<StmtView> },
    Function {
        location: SourceLocation,
        name: TokenView,
        parameters: Seq<TokenView>,
        body: Box<StmtView>,
    },
    Return { location: SourceLocation, value: Option<ExprView> },
}

/// The span of an expression.
pub open spec fn expression_location(expression: ExprView) -> SourceLocation {
    match expression {
        ExprView::Binary { location, .. } => location,
        ExprView::Unary { location, .. } => location,
        ExprView::Literal { location, .. } => location,
        ExprView::Logical { location, .. } => location,
        ExprView::Grouping { location, .. } => location,
        ExprView::Call { location, .. } => location,
        ExprView::Variable { location, .. } => location,
        ExprView::Assignment { location, .. } => location,
    }
}

/// The span of a statement.
pub open spec fn statement_location(statement: StmtView) -> SourceLocation {
    match statement {
        StmtView::Block { location, .. } => location,
        StmtView::Expression { location, .. } => location,
        StmtView::Print { location, .. } => location,
        StmtView::VariableDeclaration { location, .. } => location,
        StmtView::If { location, .. } => location,
        StmtView::While { location, .. } => location,
        StmtView::Function { location, .. } => location,
        StmtView::Return { location, .. } => location,
    }
}

/// The expressions of `expressions`, each as its view.
pub open spec fn expressions_model(expressions: Seq<Expr>) -> Seq<ExprView>
    decreases expressions,
{
    Seq::new(
        expressions.len(),
        |i: int|
            if 0 <= i < expressions.len() {
                expressions[i].model()
            } else {
                arbitrary()
            },
    )
}

/// The statements of `statements`, each as its view.
pub open spec fn statements_model(statements: Seq<Stmt>) -> Seq<StmtView>
    decreases statements,
{
    Seq::new(
        statements.len(),
        |i: int|
            if 0 <= i < statements.len() {
                statements[i].model()
            } else {
                arbitrary()
            },
    )
}

impl Expr {
    /// What the expression is.
    pub open spec fn model(&self) -> ExprView
        decreases self,
    {
        match self {
            Expr::Binary { location, left, operator, right } => ExprView::Binary {
                location: *location,
                left: Box::new(left.model()),
                operator: operator.model(),
                right: Box::new(right.model()),
            },
            Expr::Unary { location, operator, right } => ExprView::Unary {
                location: *location,
                operator: operator.model(),
                right: Box::new(right.model()),
            },
            Expr::Literal { location, literal } => ExprView::Literal {
                location: *location,
                literal: literal.model(),
            },
            Expr::Logical { location, left, operator, right } => ExprView::Logical {
                location: *location,
                left: Box::new(left.model()),
                operator: operator.model(),
                right: Box::new(right.model()),
            },
            Expr::Grouping { location, expression } => ExprView::Grouping {
                location: *location,
                expression: Box::new(expression.model()),
            },
            Expr::Call { location, callee, paren, arguments } => ExprView::Call {
                location: *location,
                callee: Box::new(callee.model()),
                paren: paren.model(),
                arguments: expressions_model(arguments@),
            },
            Expr::Variable { location, identifier } => ExprView::Variable {
                location: *location,
                identifier: identifier.model(),
            },
            Expr::Assignment { location, identifier, value } => ExprView::Assignment {
                location: *location,
                identifier: identifier.model(),
                value: Box::new(value.model()),
            },
        }
    }

    /// The span of the expression.
    pub fn location(&self) -> (r: SourceLocation)
        ensures
            r == expression_location(self@),
    {
        match self {
            Expr::Binary { location, .. } => *location,
            Expr::Unary { location, .. } => *location,
            Expr::Literal { location, .. } => *location,
            Expr::Grouping { location, .. } => *location,
            Expr::Variable { location, .. } => *location,
            Expr::Assignment { location, .. } => *location,
            Expr::Logical { location, .. } => *location,
            Expr::Call { location, .. } => *location,
        }
    }

    /// A copy of this expression.
    pub fn duplicate(&self) -> (r: Expr)
        ensures
            r@ == self@,
        decreases self,
    {
        match self {
            Expr::Binary { location, left, operator, right } => Expr::Binary {
                location: *location,
                left: Box::new(left.duplicate()),
                operator: operator.duplicate(),
                right: Box::new(right.duplicate()),
            },
            Expr::Unary { location, operator, right } => Expr::Unary {
                location: *location,
                operator: operator.duplicate(),
                right: Box::new(right.duplicate()),
            },
            Expr::Literal { location, literal } => Expr::Literal {
                location: *location,
                literal: literal.duplicate(),
            },
            Expr::Logical { location, left, operator, right } => Expr::Logical {
                location: *location,
                left: Box::new(left.duplicate()),
                operator: operator.duplicate(),
                right: Box::new(right.duplicate()),
            },
            Expr::Grouping { location, expression } => Expr::Grouping {
                location: *location,
                expression: Box::new(expression.duplicate()),
            },
            Expr::Call { location, callee, paren, arguments } => Expr::Call {
                location: *location,
                callee: Box::new(callee.duplicate()),
                paren: paren.duplicate(),
                arguments: duplicate_expressions(arguments),
            },
            Expr::Variable { location, identifier } => Expr::Variable {
                location: *location,
                identifier: identifier.duplicate(),
            },
            Expr::Assignment { location, identifier, value } => Expr::Assignment {
                location: *location,
                identifier: identifier.duplicate(),
                value: Box::new(value.duplicate()),
            },
        }
    }
}

impl Clone for Expr {
    fn clone(&self) -> (r: Self)
        ensures
            r@ == self@,
    {
        self.duplicate()
    }
}

impl View for Expr {
    type V = ExprView;

    open spec fn view(&self) -> ExprView {
        self.model()
    }
}

impl Stmt {
    /// What the statement is.
    pub open spec fn model(&self) -> StmtView
        decreases self,
    {
        match self {
            Stmt::Block { location, statements } => StmtView::Block {
                location: *location,
                statements: statements_model(statements@),
            },
            Stmt::Expression { location, expression } => StmtView::Expression {
                location: *location,
                expression: expression.model(),
            },
            Stmt::Print { location, expression } => StmtView::Print {
                location: *location,
                expression: expression.model(),
            },
            Stmt::VariableDeclaration {
                location,
                identifier,
                expression,
            } => StmtView::VariableDeclaration {
                location: *location,
                identifier: identifier.model(),
                expression: match expression {
                    Some(initializer) => Some(initializer.model()),
                    None => None,
                },
            },
            Stmt::If { location, condition, then_branch, else_branch } => StmtView::If {
                location: *location,
                condition: condition.model(),
                then_branch: Box::new(then_branch.model()),
                else_branch: match else_branch {
                    Some(branch) => Some(Box::new(branch.model())),
                    None => None,
                },
            },
            Stmt::While { location, condition, body } => StmtView::While {
                location: *location,
                condition: condition.model(),
                body: Box::new(body.model()),
            },
            Stmt::Function { location, name, parameters, body } => StmtView::Function {
                location: *location,
                name: name.model(),
                parameters: tokens_model(parameters@),
                body: Box::new(body.model()),
            },
            Stmt::Return { location, value } => StmtView::Return {
                location: *location,
                value: match value {
                    Some(result) => Some(result.model()),
                    None => None,
                },
            },
        }
    }

    /// The span of the statement.
    pub fn location(&self) -> (r: SourceLocation)
        ensures
            r == statement_location(self@),
    {
        match self {
            Stmt::Block { location, .. } => *location,
            Stmt::Expression { location, .. } => *location,
            Stmt::Print { location, .. } => *location,
            Stmt::VariableDeclaration { location, .. } => *location,
            Stmt::If { location, .. } => *location,
            Stmt::While { location, .. } => *location,
            Stmt::Return { location, .. } => *location,
            Stmt::Function { location, .. } => *location,
        }
    }

    /// A copy of this statement.
    pub fn duplicate(&self) -> (r: Stmt)
        ensures
            r@ == self@,
        decreases self,
    {
        match self {
            Stmt::Block { location, statements } => Stmt::Block {
                location: *location,
                statements: duplicate_statements(statements),
            },
            Stmt::Expression { location, expression } => Stmt::Expression {
                location: *location,
                expression: expression.duplicate(),
            },
            Stmt::Print { location, expression } => Stmt::Print {
                location: *location,
                expression: expression.duplicate(),
            },
            Stmt::VariableDeclaration {
                location,
                identifier,
                expression,
            } => Stmt::VariableDeclaration {
                location: *location,
                identifier: identifier.duplicate(),
                expression: match expression {
                    Some(initializer) => Some(initializer.duplicate()),
                    None => None,
                },
            },
            Stmt::If { location, condition, then_branch, else_branch } => Stmt::If {
                location: *location,
                condition: condition.duplicate(),
                then_branch: Box::new(then_branch.duplicate()),
                else_branch: match else_branch {
                    Some(branch) => Some(Box::new(branch.duplicate())),
                    None => None,
                },
            },
            Stmt::While { location, condition, body } => Stmt::While {
                location: *location,
                condition: condition.duplicate(),
                body: Box::new(body.duplicate()),
            },
            Stmt::Function { location, name, parameters, body } => Stmt::Function {
                location: *location,
                name: name.duplicate(),
                parameters: duplicate_tokens(parameters),
                body: Box::new(body.duplicate()),
            },
            Stmt::Return { location, value } => Stmt::Return {
                location: *location,
                value: match value {
                    Some(result) => Some(result.duplicate()),
                    None => None,
                },
            },
        }
    }
}

impl Clone for Stmt {
    fn clone(&self) -> (r: Self)
        ensures
            r@ == self@,
    {
        self.duplicate()
    }
}

impl View for Stmt {
    type V = StmtView;

    open spec fn view(&self) -> StmtView {
        self.model()
    }
}

/// A copy of a list of expressions.
pub fn duplicate_expressions(expressions: &Vec<Expr>) -> (r: Vec<Expr>)
    ensures
        expressions_model(r@) == expressions_model(expressions@),
    decreases expressions,
{
    let mut out: Vec<Expr> = Vec::new();
    let mut i: usize = 0;
    while i < expressions.len()
        invariant
            i <= expressions.len(),
            out.len() == i,
            forall|j: int| 0 <= j < i ==> out[j]@ == expressions[j]@,
        decreases expressions.len() - i,
    {
        out.push(expressions[i].duplicate());
        i += 1;
    }
    assert(expressions_model(out@) =~= expressions_model(expressions@));
    out
}

/// A copy of a list of statements.
pub fn duplicate_statements(statements: &Vec<Stmt>) -> (r: Vec<Stmt>)
    ensures
        statements_model(r@) == statements_model(statements@),
    decreases statements,
{
    let mut out: Vec<Stmt> = Vec::new();
    let mut i: usize = 0;
    while i < statements.len()
        invariant
            i <= statements.len(),
            out.len() == i,
            forall|j: int| 0 <= j < i ==> out[j]@ == statements[j]@,
        decreases statements.len() - i,
    {
        out.push(statements[i].duplicate());
        i += 1;
    }
    assert(statements_model(out@) =~= statements_model(statements@));
    out
}

/// The statements that a function with body `body` runs, copied.
pub fn function_body(body: &Stmt) -> (r: Vec<Stmt>)
    ensures
        statements_model(r@) == crate::object::body_statements(body@),
{
    match body {
        Stmt::Block { statements, .. } => duplicate_statements(statements),
        other => {
            let mut out: Vec<Stmt> = Vec::new();
            out.push(other.duplicate());
            assert(statements_model(out@) =~= seq![body@]);
            out
        },
    }
}

} // verus!
