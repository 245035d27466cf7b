//! Callable values: functions of the host and functions declared in a program.

use crate::ast::{duplicate_statements, statements_model, Stmt, StmtView};
use crate::error::LoxResult;
use crate::interpreter::Interpreter;
use crate::object::{objects_model, LoxObject};
use crate::operators::value_model;
use crate::semantics::calls;
use crate::token::{duplicate_tokens, tokens_model, Token, TokenView};
use vstd::prelude::*;

verus! {

/// The functions that the host provides.
#[derive(PartialEq, Eq, Structural, Debug, Clone, Copy)]
pub enum Native {
    /// The time now, in milliseconds since the Unix epoch.
    Clock,
}

/// A callable: a function of the host with its arity, or a declared
/// function with its name, parameter names and body.
#[derive(Debug, PartialEq)]
pub enum Function {
    Native { arity: usize, body: Native },
    User { name: Box<Token>, params: Vec<Token>, body: Vec<Stmt> },
}

/// What a callable is, with its parameters and body as sequences.
pub enum FunctionView {
    Native { arity: usize, body: Native },
    User { name: Box<TokenView>, params: Seq<TokenView>, body: Seq<StmtView> },
}

impl Function {
    /// What the callable is.
    pub open spec fn model(&self) -> FunctionView
        decreases self,
    {
        match self {
            Function::Native { arity, body } => FunctionView::Native { arity: *arity, body: *body },
            Function::User { name, params, body } => FunctionView::User {
                name: Box::new(name.model()),
                params: tokens_model(params@),
                body: statements_model(body@),
            },
        }
    }

    /// Calls the function with `arguments`, in the state of `interpreter`.
    ///
    /// A function of the host computes its value from the arguments alone.
    /// A declared function runs its body in a new frame inside the global
    /// frame, its parameters bound to the arguments in order; what the body
    /// returns is the value, or `nil` where it returns nothing.
    pub fn call(&self, interpreter: &mut Interpreter, arguments: &Vec<LoxObject>) -> (r: LoxResult<
        LoxObject,
    >)
        requires
            old(interpreter).well_formed(),
        ensures
            final(interpreter).well_formed(),
            final(interpreter).budget() == old(interpreter).budget(),
            old(interpreter).readings().is_prefix_of(final(interpreter).readings()),
            calls(
                self@,
                objects_model(arguments@),
                old(interpreter)@,
                old(interpreter).budget(),
                final(interpreter).readings(),
                value_model(r),
                final(interpreter)@,
            ),
    {
        interpreter.call(self, arguments)
    }

    /// How many arguments the callable expects.
    pub fn arity(&self) -> (r: usize)
        ensures
            r == function_arity(self@),
    {
        match self {
            Function::Native { arity, .. } => *arity,
            Function::User { params, .. } => params.len(),
        }
    }

    /// A copy of this callable.
    pub fn duplicate(&self) -> (r: Function)
        ensures
            r@ == self@,
        decreases self,
    {
        match self {
            Function::Native { arity, body } => Function::Native { arity: *arity, body: *body },
            Function::User { name, params, body } => Function::User {
                name: Box::new(name.duplicate()),
                params: duplicate_tokens(params),
                body: duplicate_statements(body),
            },
        }
    }
}

impl Clone for Function {
    fn clone(&self) -> (r: Self)
        ensures
            r@ == self@,
    {
        self.duplicate()
    }
}

impl View for Function {
    type V = FunctionView;

    open spec fn view(&self) -> FunctionView {
        self.model()
    }
}

/// The number of arguments that `function` expects: the stated arity of a
/// host function, the number of parameters of a declared one.
pub open spec fn function_arity(function: FunctionView) -> usize {
    match function {
        FunctionView::Native { arity, .. } => arity,
        FunctionView::User { params, .. } => params.len() as usize,
    }
}

} // verus!
