//! Runtime values.

use crate::ast::{Stmt, StmtView};
use crate::function::{Function, FunctionView};
use crate::number::{number_eq, Number};
use crate::source_location::{dummy_span, SourceLocation};
use vstd::prelude::*;
use vstd::string::StringExecFns;

verus! {

/// A value of the language. Every value but a callable carries the span of
/// the source text that produced it.
#[derive(Debug, PartialEq)]
pub enum LoxObject {
    String { location: SourceLocation, value: String },
    Number { location: SourceLocation, value: Number },
    Boolean { location: SourceLocation, value: bool },
    Nil { location: SourceLocation },
    Callable { function: Function },
}

/// What a value is, with a string as a sequence of characters.
pub enum ObjectView {
    String { location: SourceLocation, value: Seq<char> },
    Number { location: SourceLocation, value: Number },
    Boolean { location: SourceLocation, value: bool },
    Nil { location: SourceLocation },
    Callable { function: FunctionView },
}

/// What printing a value shows: text, or a number whose decimal form is
/// left to whoever writes it out.
#[derive(Debug, Clone, PartialEq)]
pub enum Printed {
    Text(String),
    Number(Number),
}

/// What was printed, with text as a sequence of characters.
pub enum PrintedView {
    Text(Seq<char>),
    Number(Number),
}

impl View for Printed {
    type V = PrintedView;

    open spec fn view(&self) -> PrintedView {
        match self {
            Printed::Text(text) => PrintedView::Text(text@),
            Printed::Number(number) => PrintedView::Number(*number),
        }
    }
}

/// The span that a value carries; a declared function carries that of its
/// name, a host function the dummy span.
pub open spec fn object_location(object: ObjectView) -> SourceLocation {
    match object {
        ObjectView::String { location, .. } => location,
        ObjectView::Number { location, .. } => location,
        ObjectView::Boolean { location, .. } => location,
        ObjectView::Nil { location } => location,
        ObjectView::Callable { function } => match function {
            FunctionView::User { name, .. } => name.location,
            FunctionView::Native { .. } => dummy_span(),
        },
    }
}

/// The name of a value's kind.
pub open spec fn kind_name(object: ObjectView) -> Seq<char> {
    match object {
        ObjectView::String { .. } => "string"@,
        ObjectView::Number { .. } => "number"@,
        ObjectView::Boolean { .. } => "boolean"@,
        ObjectView::Nil { .. } => "nil"@,
        ObjectView::Callable { .. } => "callable"@,
    }
}

/// Truthiness: `nil`, `false` and a number equal to zero are false, every
/// other value is true.
pub open spec fn truthy(object: ObjectView) -> bool {
    match object {
        ObjectView::Number { value, .. } => !number_eq(value.bits, 0),
        ObjectView::Boolean { value, .. } => value,
        ObjectView::String { .. } => true,
        ObjectView::Callable { .. } => true,
        ObjectView::Nil { .. } => false,
    }
}

/// Equality of values: two strings, two numbers or two booleans are equal
/// when what they hold is; `nil` equals `nil`; values of different kinds,
/// and callables, are never equal. Spans play no part.
pub open spec fn objects_equal(left: ObjectView, right: ObjectView) -> bool {
    match (left, right) {
        (ObjectView::String { value: a, .. }, ObjectView::String { value: b, .. }) => a == b,
        (ObjectView::Number { value: a, .. }, ObjectView::Number { value: b, .. }) => number_eq(
            a.bits,
            b.bits,
        ),
        (ObjectView::Boolean { value: a, .. }, ObjectView::Boolean { value: b, .. }) => a == b,
        (ObjectView::Nil { .. }, ObjectView::Nil { .. }) => true,
        _ => false,
    }
}

/// What printing `object` shows.
pub open spec fn rendering(object: ObjectView) -> PrintedView {
    match object {
        ObjectView::String { value, .. } => PrintedView::Text(value),
        ObjectView::Number { value, .. } => PrintedView::Number(value),
        ObjectView::Boolean { value, .. } => PrintedView::Text(
            if value {
                "true"@
            } else {
                "false"@
            },
        ),
        ObjectView::Nil { .. } => PrintedView::Text("nil"@),
        ObjectView::Callable { function } => match function {
            FunctionView::User { name, .. } => PrintedView::Text("<user fn "@ + name.lexeme + ">"@),
            FunctionView::Native { .. } => PrintedView::Text("<builtin fn>"@),
        },
    }
}

/// The statements that a function with body `body` runs: those of a block,
/// or the statement itself where the body is no block.
pub open spec fn body_statements(body: StmtView) -> Seq<StmtView> {
    match body {
        StmtView::Block { statements, .. } => statements,
        other => seq![other],
    }
}

/// The callable that the function declaration `declaration` defines.
pub open spec fn declared_function(declaration: StmtView) -> ObjectView
    recommends
        declaration is Function,
{
    ObjectView::Callable {
        function: FunctionView::User {
            name: Box::new(declaration->Function_name),
            params: declaration->parameters,
            body: body_statements(*declaration->Function_body),
        },
    }
}

impl LoxObject {
    /// What the value is.
    pub open spec fn model(&self) -> ObjectView
        decreases self,
    {
        match self {
            LoxObject::String { location, value } => ObjectView::String {
                location: *location,
                value: value@,
            },
            LoxObject::Number { location, value } => ObjectView::Number {
                location: *location,
                value: *value,
            },
            LoxObject::Boolean { location, value } => ObjectView::Boolean {
                location: *location,
                value: *value,
            },
            LoxObject::Nil { location } => ObjectView::Nil { location: *location },
            LoxObject::Callable { function } => ObjectView::Callable { function: function.model() },
        }
    }

    /// The span that the value carries.
    pub fn location(&self) -> (r: SourceLocation)
        ensures
            r == object_location(self@),
    {
        match self {
            LoxObject::String { location, .. } => *location,
            LoxObject::Number { location, .. } => *location,
            LoxObject::Boolean { location, .. } => *location,
            LoxObject::Nil { location } => *location,
            LoxObject::Callable { function } => match function {
                Function::User { name, .. } => name.location,
                Function::Native { .. } => SourceLocation::dummy(),
            },
        }
    }

    /// The name of the value's kind.
    pub fn type_to_string(&self) -> (r: String)
        ensures
            r@ == kind_name(self@),
    {
        match self {
            LoxObject::String { .. } => String::from_str("string"),
            LoxObject::Number { .. } => String::from_str("number"),
            LoxObject::Boolean { .. } => String::from_str("boolean"),
            LoxObject::Nil { .. } => String::from_str("nil"),
            LoxObject::Callable { .. } => String::from_str("callable"),
        }
    }

    /// Whether the value counts as true in a condition.
    pub fn is_truthy(&self) -> (r: bool)
        ensures
            r == truthy(self@),
    {
        match self {
            LoxObject::Number { value, .. } => !value.is_zero(),
            LoxObject::Boolean { value, .. } => *value,
            LoxObject::String { .. } => true,
            LoxObject::Callable { .. } => true,
            LoxObject::Nil { .. } => false,
        }
    }

    /// Whether two values are equal.
    pub fn is_equal(left: LoxObject, right: LoxObject) -> (r: bool)
        ensures
            r == objects_equal(left@, right@),
    {
        match (left, right) {
            (LoxObject::String { value: a, .. }, LoxObject::String { value: b, .. }) => a == b,
            (LoxObject::Number { value: a, .. }, LoxObject::Number { value: b, .. }) => a.equals(b),
            (LoxObject::Boolean { value: a, .. }, LoxObject::Boolean { value: b, .. }) => a == b,
            (LoxObject::Nil { .. }, LoxObject::Nil { .. }) => true,
            _ => false,
        }
    }

    /// The callable that a function declaration defines.
    pub fn define_user_function(function: &Stmt) -> (r: Self)
        requires
            function@ is Function,
        ensures
            r@ == declared_function(function@),
    {
        match function {
            Stmt::Function { name, parameters, body, .. } => {
                let r = LoxObject::Callable {
                    function: Function::User {
                        name: Box::new(name.duplicate()),
                        params: crate::token::duplicate_tokens(parameters),
                        body: crate::ast::function_body(body),
                    },
                };
                r
            },
            _ => LoxObject::Nil { location: SourceLocation::dummy() },
        }
    }

    /// What printing the value shows.
    pub fn render(&self) -> (r: Printed)
        ensures
            r@ == rendering(self@),
    {
        match self {
            LoxObject::String { value, .. } => Printed::Text(value.clone()),
            LoxObject::Number { value, .. } => Printed::Number(*value),
            LoxObject::Boolean { value, .. } => Printed::Text(
                if *value {
                    String::from_str("true")
                } else {
                    String::from_str("false")
                },
            ),
            LoxObject::Nil { .. } => Printed::Text(String::from_str("nil")),
            LoxObject::Callable { function } => match function {
                Function::User { name, .. } => {
                    let mut text = String::from_str("<user fn ");
                    text.append(name.lexeme.as_str());
                    text.append(">");
                    Printed::Text(text)
                },
                Function::Native { .. } => Printed::Text(String::from_str("<builtin fn>")),
            },
        }
    }

    /// A copy of this value.
    pub fn duplicate(&self) -> (r: LoxObject)
        ensures
            r@ == self@,
        decreases self,
    {
        match self {
            LoxObject::String { location, value } => LoxObject::String {
                location: *location,
                value: value.clone(),
            },
            LoxObject::Number { location, value } => LoxObject::Number {
                location: *location,
                value: *value,
            },
            LoxObject::Boolean { location, value } => LoxObject::Boolean {
                location: *location,
                value: *value,
            },
            LoxObject::Nil { location } => LoxObject::Nil { location: *location },
            LoxObject::Callable { function } => LoxObject::Callable {
                function: function.duplicate(),
            },
        }
    }
}

impl Clone for LoxObject {
    fn clone(&self) -> (r: Self)
        ensures
            r@ == self@,
    {
        self.duplicate()
    }
}

impl View for LoxObject {
    type V = ObjectView;

    open spec fn view(&self) -> ObjectView {
        self.model()
    }
}

/// The values of `objects`, each as its view.
pub open spec fn objects_model(objects: Seq<LoxObject>) -> Seq<ObjectView> {
    Seq::new(objects.len(), |i: int| objects[i]@)
}

} // verus!
