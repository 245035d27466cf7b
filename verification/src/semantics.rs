//! What a program means: the value of an expression and the effect of a
//! statement, on the scopes, on what has been printed and on the clock.
//!
//! Evaluation is strict and goes from left to right. It is bounded by a
//! budget: each level of nesting, each call and each turn of a loop takes
//! one from it, and evaluation that runs out ends with `LimitExceeded`.

use crate::ast::{expression_location, statement_location, ExprView, StmtView};
use crate::environment::{
    assigned, assignment_is_retrieved, defined, frame_with, lemma_assignment_keeps_the_scopes,
    lookup, names_of, FrameView,
};
use crate::error::ErrorView;
use crate::function::{FunctionView, Native};
use crate::number::{integer_bits, Number};
use crate::object::{body_statements, object_location, rendering, truthy, ObjectView, PrintedView};
use crate::operators::{binary_result, unary_result};
use crate::source_location::{dummy_span, SourceLocation};
use crate::token::{TokenType, TokenView};
use vstd::prelude::*;

verus! {

/// The state that a program runs in.
pub struct StateView {
    /// The scope chain: the global frame first, the current frame last.
    pub scopes: Seq<FrameView>,
    /// What has been printed, the earliest first.
    pub printed: Seq<PrintedView>,
    /// How often the clock has been read.
    pub ticks: nat,
}

/// How a statement ends when it ends without an error.
pub enum FlowView {
    /// The next statement is to run.
    Next,
    /// A `return` was run; the enclosing call ends with this value.
    Return(ObjectView),
}

/// A clock: what its readings are, in milliseconds, the first reading at 0.
pub type Clock = spec_fn(nat) -> u128;

/// The value of an expression, or the error in its place, and the state
/// that evaluating it leaves.
pub type Evaluated = (Result<ObjectView, ErrorView>, StateView);

/// How a statement ends, and the state that running it leaves.
pub type Executed = (Result<FlowView, ErrorView>, StateView);

/// The error of evaluation that has used up its budget.
pub open spec fn beyond_limit(location: SourceLocation) -> ErrorView {
    ErrorView::LimitExceeded { location }
}

/// The value of the variable `identifier`, or the error of reading a name
/// that no scope binds.
pub open spec fn read_variable(scopes: Seq<FrameView>, identifier: TokenView) -> Result<
    ObjectView,
    ErrorView,
> {
    match lookup(scopes, identifier.lexeme) {
        Some(value) => Ok(value),
        None => Err(
            ErrorView::UndefinedVariable {
                location: identifier.location,
                variable: identifier.lexeme,
            },
        ),
    }
}

/// Assigns `value` to the variable `identifier` in the innermost scope that
/// binds it; assigning to a name that no scope binds is an error and
/// defines nothing.
pub open spec fn write_variable(
    s: StateView,
    identifier: TokenView,
    value: ObjectView,
) -> Evaluated {
    match assigned(s.scopes, identifier.lexeme, value) {
        Some(scopes) => (Ok(value), StateView { scopes, ..s }),
        None => (
            Err(
                ErrorView::InvalidAssignment {
                    location: identifier.location,
                    identifier: identifier.lexeme,
                },
            ),
            s,
        ),
    }
}

/// The state with `name` defined as `value` in the current scope.
pub open spec fn with_definition(s: StateView, name: Seq<char>, value: ObjectView) -> StateView {
    StateView { scopes: defined(s.scopes, name, value), ..s }
}

/// Whether `left` decides a logical operation of kind `kind` by itself: a
/// truthy left operand decides `or`, a falsy one decides `and`.
pub open spec fn decides(kind: TokenType, left: ObjectView) -> bool {
    if kind == TokenType::Or {
        truthy(left)
    } else {
        !truthy(left)
    }
}

/// The frame of a call: the parameters bound to the arguments, in order,
/// from index `from` on, in addition to `frame`. Parameters without an
/// argument stay unbound, arguments without a parameter are dropped.
pub open spec fn bound(
    params: Seq<TokenView>,
    arguments: Seq<ObjectView>,
    from: int,
    frame: FrameView,
) -> FrameView
    decreases params.len() - from,
{
    if 0 <= from < params.len() && from < arguments.len() {
        bound(params, arguments, from + 1, frame_with(frame, params[from].lexeme, arguments[from]))
    } else {
        frame
    }
}

/// The scopes of a call: the global frame and the frame of the call.
pub open spec fn call_scopes(scopes: Seq<FrameView>, frame: FrameView) -> Seq<FrameView> {
    scopes.subrange(0, 1).push(frame)
}

/// The scopes after a call: the global frame as the call left it, and the
/// caller's scopes inside it as they were.
pub open spec fn scopes_after_call(
    before: Seq<FrameView>,
    after: Seq<FrameView>,
) -> Seq<FrameView> {
    after.subrange(0, 1) + before.subrange(1, before.len() as int)
}

/// The scopes after a block: without the frame of the block.
pub open spec fn without_current(scopes: Seq<FrameView>) -> Seq<FrameView> {
    if scopes.len() > 1 {
        scopes.drop_last()
    } else {
        scopes
    }
}

/// The value of a call whose body ended with `flow`: what was returned, or
/// `nil` where the body ran to its end.
pub open spec fn call_value(flow: Result<FlowView, ErrorView>, name: TokenView) -> Result<
    ObjectView,
    ErrorView,
> {
    match flow {
        Ok(FlowView::Next) => Ok(ObjectView::Nil { location: name.location }),
        Ok(FlowView::Return(value)) => Ok(value),
        Err(error) => Err(error),
    }
}

/// The value that the clock gives at its reading number `tick`.
pub open spec fn clock_value(clock: Clock, tick: nat) -> ObjectView {
    ObjectView::Number {
        location: dummy_span(),
        value: Number { bits: integer_bits(clock(tick)) },
    }
}

/// The value of the expression `e` in state `s`.
pub open spec fn evaluate(e: ExprView, s: StateView, clock: Clock, fuel: nat) -> Evaluated
    decreases fuel, 0int,
{
    if fuel == 0 {
        (Err(beyond_limit(expression_location(e))), s)
    } else {
        match e {
            ExprView::Literal { literal, .. } => (Ok(literal), s),
            ExprView::Grouping { expression, .. } => evaluate(
                *expression,
                s,
                clock,
                (fuel - 1) as nat,
            ),
            ExprView::Variable { identifier, .. } => (read_variable(s.scopes, identifier), s),
            ExprView::Assignment { identifier, value, .. } => {
                let (result, s1) = evaluate(*value, s, clock, (fuel - 1) as nat);
                match result {
                    Ok(assigned) => write_variable(s1, identifier, assigned),
                    Err(error) => (Err(error), s1),
                }
            },
            ExprView::Unary { operator, right, .. } => {
                let (result, s1) = evaluate(*right, s, clock, (fuel - 1) as nat);
                match result {
                    Ok(operand) => (unary_result(operator, operand), s1),
                    Err(error) => (Err(error), s1),
                }
            },
            ExprView::Binary { left, operator, right, .. } => {
                let (first, s1) = evaluate(*left, s, clock, (fuel - 1) as nat);
                match first {
                    Ok(a) => {
                        let (second, s2) = evaluate(*right, s1, clock, (fuel - 1) as nat);
                        match second {
                            Ok(b) => (binary_result(a, operator, b), s2),
                            Err(error) => (Err(error), s2),
                        }
                    },
                    Err(error) => (Err(error), s1),
                }
            },
            ExprView::Logical { left, operator, right, .. } => {
                let (first, s1) = evaluate(*left, s, clock, (fuel - 1) as nat);
                match first {
                    Ok(a) => if decides(operator.kind, a) {
                        (Ok(a), s1)
                    } else {
                        evaluate(*right, s1, clock, (fuel - 1) as nat)
                    },
                    Err(error) => (Err(error), s1),
                }
            },
            ExprView::Call { callee, arguments, .. } => {
                let (first, s1) = evaluate(*callee, s, clock, (fuel - 1) as nat);
                match first {
                    Ok(target) => {
                        let (rest, s2) = evaluate_all(
                            arguments,
                            0,
                            Seq::empty(),
                            s1,
                            clock,
                            (fuel - 1) as nat,
                        );
                        match rest {
                            Ok(values) => match target {
                                ObjectView::Callable { function } => call(
                                    function,
                                    values,
                                    s2,
                                    clock,
                                    (fuel - 1) as nat,
                                ),
                                _ => (
                                    Err(
                                        ErrorView::InvalidCall {
                                            location: object_location(target),
                                        },
                                    ),
                                    s2,
                                ),
                            },
                            Err(error) => (Err(error), s2),
                        }
                    },
                    Err(error) => (Err(error), s1),
                }
            },
        }
    }
}

/// The values of the expressions of `list` from index `from` on, after
/// those in `sofar`, each evaluated in the state that the one before left.
pub open spec fn evaluate_all(
    list: Seq<ExprView>,
    from: int,
    sofar: Seq<ObjectView>,
    s: StateView,
    clock: Clock,
    fuel: nat,
) -> (Result<Seq<ObjectView>, ErrorView>, StateView)
    decreases fuel, list.len() - from + 1,
{
    if from < 0 || from >= list.len() {
        (Ok(sofar), s)
    } else {
        let (result, s1) = evaluate(list[from], s, clock, fuel);
        match result {
            Ok(value) => evaluate_all(list, from + 1, sofar.push(value), s1, clock, fuel),
            Err(error) => (Err(error), s1),
        }
    }
}

/// The value of calling `function` with `arguments`.
///
/// The clock gives its next reading. A declared function runs its body in
/// a new frame inside the global frame, with its parameters bound to the
/// arguments; the value is what the body returns, or `nil`. Whatever the
/// outcome, the caller's scopes are current again afterwards.
pub open spec fn call(
    function: FunctionView,
    arguments: Seq<ObjectView>,
    s: StateView,
    clock: Clock,
    fuel: nat,
) -> Evaluated
    decreases fuel, 0int,
{
    match function {
        FunctionView::Native { body, .. } => match body {
            Native::Clock => (
                Ok(clock_value(clock, s.ticks)),
                StateView { ticks: s.ticks + 1, ..s },
            ),
        },
        FunctionView::User { name, params, body } => if fuel == 0 {
            (Err(beyond_limit(name.location)), s)
        } else {
            let entered = StateView {
                scopes: call_scopes(s.scopes, bound(params, arguments, 0, Seq::empty())),
                ..s
            };
            let (flow, s1) = execute_all(body, 0, entered, clock, (fuel - 1) as nat);
            (
                call_value(flow, *name),
                StateView { scopes: scopes_after_call(s.scopes, s1.scopes), ..s1 },
            )
        },
    }
}

/// The effect of the statement `statement` in state `s`.
pub open spec fn execute(statement: StmtView, s: StateView, clock: Clock, fuel: nat) -> Executed
    decreases fuel, 0int,
{
    if fuel == 0 {
        (Err(beyond_limit(statement_location(statement))), s)
    } else {
        match statement {
            StmtView::Expression { expression, .. } => {
                let (result, s1) = evaluate(expression, s, clock, (fuel - 1) as nat);
                match result {
                    Ok(_) => (Ok(FlowView::Next), s1),
                    Err(error) => (Err(error), s1),
                }
            },
            StmtView::Print { expression, .. } => {
                let (result, s1) = evaluate(expression, s, clock, (fuel - 1) as nat);
                match result {
                    Ok(value) => (
                        Ok(FlowView::Next),
                        StateView { printed: s1.printed.push(rendering(value)), ..s1 },
                    ),
                    Err(error) => (Err(error), s1),
                }
            },
            StmtView::VariableDeclaration { identifier, expression, .. } => match expression {
                Some(initializer) => {
                    let (result, s1) = evaluate(initializer, s, clock, (fuel - 1) as nat);
                    match result {
                        Ok(value) => (
                            Ok(FlowView::Next),
                            with_definition(s1, identifier.lexeme, value),
                        ),
                        Err(error) => (Err(error), s1),
                    }
                },
                None => (
                    Ok(FlowView::Next),
                    with_definition(
                        s,
                        identifier.lexeme,
                        ObjectView::Nil { location: identifier.location },
                    ),
                ),
            },
            StmtView::Block { statements, .. } => execute_block(
                statements,
                s,
                clock,
                (fuel - 1) as nat,
            ),
            StmtView::If { condition, then_branch, else_branch, .. } => {
                let (result, s1) = evaluate(condition, s, clock, (fuel - 1) as nat);
                match result {
                    Ok(value) => if truthy(value) {
                        execute(*then_branch, s1, clock, (fuel - 1) as nat)
                    } else {
                        match else_branch {
                            Some(branch) => execute(*branch, s1, clock, (fuel - 1) as nat),
                            None => (Ok(FlowView::Next), s1),
                        }
                    },
                    Err(error) => (Err(error), s1),
                }
            },
            StmtView::While { condition, body, .. } => execute_while(
                condition,
                *body,
                s,
                clock,
                (fuel - 1) as nat,
            ),
            StmtView::Function { name, parameters, body, .. } => (
                Ok(FlowView::Next),
                with_definition(
                    s,
                    name.lexeme,
                    ObjectView::Callable {
                        function: FunctionView::User {
                            name: Box::new(name),
                            params: parameters,
                            body: body_statements(*body),
                        },
                    },
                ),
            ),
            StmtView::Return { value, .. } => match value {
                Some(returned) => {
                    let (result, s1) = evaluate(returned, s, clock, (fuel - 1) as nat);
                    match result {
                        Ok(value) => (Ok(FlowView::Return(value)), s1),
                        Err(error) => (Err(error), s1),
                    }
                },
                None => (Ok(FlowView::Return(ObjectView::Nil { location: dummy_span() })), s),
            },
        }
    }
}

/// The effect of a block: its statements run in a new frame inside the
/// current one, and whatever the outcome, the frame is dropped afterwards.
pub open spec fn execute_block(
    list: Seq<StmtView>,
    s: StateView,
    clock: Clock,
    fuel: nat,
) -> Executed
    decreases fuel, list.len() + 2,
{
    let entered = StateView { scopes: s.scopes.push(Seq::empty()), ..s };
    let (flow, s1) = execute_all(list, 0, entered, clock, fuel);
    (flow, StateView { scopes: without_current(s1.scopes), ..s1 })
}

/// The effect of the statements of `list` from index `from` on, one after
/// the other. An error or a `return` ends the run.
pub open spec fn execute_all(
    list: Seq<StmtView>,
    from: int,
    s: StateView,
    clock: Clock,
    fuel: nat,
) -> Executed
    decreases fuel, list.len() - from + 1,
{
    if from < 0 || from >= list.len() {
        (Ok(FlowView::Next), s)
    } else {
        let (flow, s1) = execute(list[from], s, clock, fuel);
        match flow {
            Ok(FlowView::Next) => execute_all(list, from + 1, s1, clock, fuel),
            _ => (flow, s1),
        }
    }
}

/// The effect of a loop: as long as the condition, evaluated anew each
/// time, is truthy, the body runs. An error or a `return` ends the loop.
pub open spec fn execute_while(
    condition: ExprView,
    body: StmtView,
    s: StateView,
    clock: Clock,
    fuel: nat,
) -> Executed
    decreases fuel, 0int,
{
    if fuel == 0 {
        (Err(beyond_limit(expression_location(condition))), s)
    } else {
        let (result, s1) = evaluate(condition, s, clock, (fuel - 1) as nat);
        match result {
            Ok(value) => if truthy(value) {
                let (flow, s2) = execute(body, s1, clock, (fuel - 1) as nat);
                match flow {
                    Ok(FlowView::Next) => execute_while(
                        condition,
                        body,
                        s2,
                        clock,
                        (fuel - 1) as nat,
                    ),
                    _ => (flow, s2),
                }
            } else {
                (Ok(FlowView::Next), s1)
            },
            Err(error) => (Err(error), s1),
        }
    }
}

/// The effect of a program: its statements one after the other, up to the
/// first error, which is the result. A `return` outside any function ends
/// the program without an error.
pub open spec fn run(list: Seq<StmtView>, s: StateView, clock: Clock, fuel: nat) -> (
    Result<(), ErrorView>,
    StateView,
) {
    let (flow, s1) = execute_all(list, 0, s, clock, fuel);
    (
        match flow {
            Ok(_) => Ok(()),
            Err(error) => Err(error),
        },
        s1,
    )
}

/// Whether `clock` gave the readings `readings`, in that order, from its
/// first reading on.
pub open spec fn agrees(clock: Clock, readings: Seq<u128>) -> bool {
    forall|i: int| 0 <= i < readings.len() ==> clock(i as nat) == #[trigger] readings[i]
}

/// Whether evaluating `e` in state `before` gives `result` and leaves
/// `after`, for every clock that gave the readings `readings`.
pub open spec fn evaluates(
    e: ExprView,
    before: StateView,
    fuel: nat,
    readings: Seq<u128>,
    result: Result<ObjectView, ErrorView>,
    after: StateView,
) -> bool {
    forall|clock: Clock|
        agrees(clock, readings) ==> #[trigger] evaluate(e, before, clock, fuel) == (result, after)
}

/// Whether running `statement` in state `before` ends with `flow` and
/// leaves `after`, for every clock that gave the readings `readings`.
pub open spec fn executes(
    statement: StmtView,
    before: StateView,
    fuel: nat,
    readings: Seq<u128>,
    flow: Result<FlowView, ErrorView>,
    after: StateView,
) -> bool {
    forall|clock: Clock|
        agrees(clock, readings) ==> #[trigger] execute(statement, before, clock, fuel) == (
            flow,
            after,
        )
}

/// Whether running the block of `list` in state `before` ends with `flow`
/// and leaves `after`, for every clock that gave the readings `readings`.
pub open spec fn executes_block(
    list: Seq<StmtView>,
    before: StateView,
    fuel: nat,
    readings: Seq<u128>,
    flow: Result<FlowView, ErrorView>,
    after: StateView,
) -> bool {
    forall|clock: Clock|
        agrees(clock, readings) ==> #[trigger] execute_block(list, before, clock, fuel) == (
            flow,
            after,
        )
}

/// Whether calling `function` with `arguments` in state `before` gives
/// `result` and leaves `after`, for every clock that gave the readings
/// `readings`.
pub open spec fn calls(
    function: FunctionView,
    arguments: Seq<ObjectView>,
    before: StateView,
    fuel: nat,
    readings: Seq<u128>,
    result: Result<ObjectView, ErrorView>,
    after: StateView,
) -> bool {
    forall|clock: Clock|
        agrees(clock, readings) ==> #[trigger] call(function, arguments, before, clock, fuel) == (
            result,
            after,
        )
}

/// Whether running the program `list` in state `before` gives `result` and
/// leaves `after`, for every clock that gave the readings `readings`.
pub open spec fn runs(
    list: Seq<StmtView>,
    before: StateView,
    fuel: nat,
    readings: Seq<u128>,
    result: Result<(), ErrorView>,
    after: StateView,
) -> bool {
    forall|clock: Clock|
        agrees(clock, readings) ==> #[trigger] run(list, before, clock, fuel) == (result, after)
}

/// A clock that gave readings gave every first part of them.
pub proof fn lemma_agrees_with_earlier(clock: Clock, later: Seq<u128>, earlier: Seq<u128>)
    requires
        agrees(clock, later),
        earlier.is_prefix_of(later),
    ensures
        agrees(clock, earlier),
{
    assert forall|i: int| 0 <= i < earlier.len() implies clock(i as nat)
        == #[trigger] earlier[i] by {
        assert(earlier[i] == later[i]);
    }
}

/// Assigning to a name that no scope binds is an error and changes
/// nothing: in particular it defines no global.
pub proof fn assignment_defines_nothing(s: StateView, identifier: TokenView, value: ObjectView)
    requires
        lookup(s.scopes, identifier.lexeme) is None,
    ensures
        write_variable(s, identifier, value) == (
            Err::<ObjectView, ErrorView>(
                ErrorView::InvalidAssignment {
                    location: identifier.location,
                    identifier: identifier.lexeme,
                },
            ),
            s,
        ),
{
}

/// `or` and `and` short-circuit: where the left operand decides, the value
/// and the state are those of the left operand, whatever stands on the
/// right. The right operand is not evaluated.
pub proof fn logical_operators_short_circuit(
    location: SourceLocation,
    left: ExprView,
    operator: TokenView,
    right: ExprView,
    s: StateView,
    clock: Clock,
    fuel: nat,
)
    requires
        fuel > 0,
        evaluate(left, s, clock, (fuel - 1) as nat).0 matches Ok(value) && decides(
            operator.kind,
            value,
        ),
    ensures
        evaluate(
            ExprView::Logical { location, left: Box::new(left), operator, right: Box::new(right) },
            s,
            clock,
            fuel,
        ) == evaluate(left, s, clock, (fuel - 1) as nat),
{
}

/// What a run leaves of the state it found: as many scopes, what was
/// printed before with what it printed after that, and a clock that was
/// read no fewer times.
pub open spec fn follows(after: StateView, before: StateView) -> bool {
    &&& after.scopes.len() == before.scopes.len()
    &&& before.printed.is_prefix_of(after.printed)
    &&& before.ticks <= after.ticks
}

/// What follows a state that follows another follows that other.
pub proof fn lemma_follows_in_turn(last: StateView, middle: StateView, first: StateView)
    requires
        follows(last, middle),
        follows(middle, first),
    ensures
        follows(last, first),
{
    assert(first.printed =~= last.printed.subrange(0, first.printed.len() as int));
}

/// Evaluating an expression leaves as many scopes as it found, and takes
/// nothing back of what was printed: every frame that a call made is
/// dropped again, with or without an error.
pub proof fn evaluation_restores_the_scopes(e: ExprView, s: StateView, clock: Clock, fuel: nat)
    requires
        s.scopes.len() >= 1,
    ensures
        follows(evaluate(e, s, clock, fuel).1, s),
    decreases fuel, 0int,
{
    if fuel > 0 {
        let less = (fuel - 1) as nat;
        match e {
            ExprView::Literal { .. } => {
            },
            ExprView::Variable { .. } => {
            },
            ExprView::Grouping { expression, .. } => {
                evaluation_restores_the_scopes(*expression, s, clock, less);
            },
            ExprView::Assignment { value, .. } => {
                evaluation_restores_the_scopes(*value, s, clock, less);
                let s1 = evaluate(*value, s, clock, less).1;
                let s2 = evaluate(e, s, clock, fuel).1;
                if let Ok(written) = evaluate(*value, s, clock, less).0 {
                    if let ExprView::Assignment { identifier, .. } = e {
                        lemma_assignment_keeps_the_scopes(s1.scopes, identifier.lexeme, written);
                    }
                }
                assert(s2.printed == s1.printed);
                assert(s1.printed.is_prefix_of(s2.printed)) by {
                    assert(s1.printed =~= s2.printed.subrange(0, s1.printed.len() as int));
                }
                lemma_follows_in_turn(s2, s1, s);
            },
            ExprView::Unary { right, .. } => {
                evaluation_restores_the_scopes(*right, s, clock, less);
            },
            ExprView::Binary { left, right, .. } => {
                evaluation_restores_the_scopes(*left, s, clock, less);
                let s1 = evaluate(*left, s, clock, less).1;
                evaluation_restores_the_scopes(*right, s1, clock, less);
                lemma_follows_in_turn(evaluate(*right, s1, clock, less).1, s1, s);
            },
            ExprView::Logical { left, right, .. } => {
                evaluation_restores_the_scopes(*left, s, clock, less);
                let s1 = evaluate(*left, s, clock, less).1;
                evaluation_restores_the_scopes(*right, s1, clock, less);
                lemma_follows_in_turn(evaluate(*right, s1, clock, less).1, s1, s);
            },
            ExprView::Call { callee, arguments, .. } => {
                evaluation_restores_the_scopes(*callee, s, clock, less);
                let (first, s1) = evaluate(*callee, s, clock, less);
                arguments_restore_the_scopes(arguments, 0, Seq::empty(), s1, clock, less);
                let (rest, s2) = evaluate_all(arguments, 0, Seq::empty(), s1, clock, less);
                lemma_follows_in_turn(s2, s1, s);
                if let Ok(ObjectView::Callable { function }) = first {
                    if let Ok(values) = rest {
                        calls_restore_the_scopes(function, values, s2, clock, less);
                        lemma_follows_in_turn(call(function, values, s2, clock, less).1, s2, s);
                    }
                }
            },
        }
    }
}

/// Evaluating the arguments of a call leaves as many scopes as it found.
pub proof fn arguments_restore_the_scopes(
    list: Seq<ExprView>,
    from: int,
    sofar: Seq<ObjectView>,
    s: StateView,
    clock: Clock,
    fuel: nat,
)
    requires
        s.scopes.len() >= 1,
    ensures
        follows(evaluate_all(list, from, sofar, s, clock, fuel).1, s),
    decreases fuel, list.len() - from + 1,
{
    if 0 <= from < list.len() {
        evaluation_restores_the_scopes(list[from], s, clock, fuel);
        let (result, s1) = evaluate(list[from], s, clock, fuel);
        if let Ok(value) = result {
            arguments_restore_the_scopes(list, from + 1, sofar.push(value), s1, clock, fuel);
            lemma_follows_in_turn(
                evaluate_all(list, from + 1, sofar.push(value), s1, clock, fuel).1,
                s1,
                s,
            );
        }
    }
}

/// A call leaves the caller's scopes current, as many as there were: the
/// frame of the call is dropped on every way out of the body.
pub proof fn calls_restore_the_scopes(
    function: FunctionView,
    arguments: Seq<ObjectView>,
    s: StateView,
    clock: Clock,
    fuel: nat,
)
    requires
        s.scopes.len() >= 1,
    ensures
        follows(call(function, arguments, s, clock, fuel).1, s),
        call(function, arguments, s, clock, fuel).1.scopes.subrange(1, s.scopes.len() as int)
            == s.scopes.subrange(1, s.scopes.len() as int),
    decreases fuel, 0int,
{
    match function {
        FunctionView::Native { .. } => {},
        FunctionView::User { name, params, body } => {
            if fuel > 0 {
                let entered = StateView {
                    scopes: call_scopes(s.scopes, bound(params, arguments, 0, Seq::empty())),
                    ..s
                };
                statements_restore_the_scopes(body, 0, entered, clock, (fuel - 1) as nat);
                let s1 = execute_all(body, 0, entered, clock, (fuel - 1) as nat).1;
                let after = scopes_after_call(s.scopes, s1.scopes);
                assert(after.subrange(1, s.scopes.len() as int) =~= s.scopes.subrange(
                    1,
                    s.scopes.len() as int,
                ));
            }
        },
    }
}

/// Running a statement leaves as many scopes as it found, and takes
/// nothing back of what was printed: a block drops its frame on every way
/// out, be it the end of the block, an error or a `return`.
pub proof fn execution_restores_the_scopes(
    statement: StmtView,
    s: StateView,
    clock: Clock,
    fuel: nat,
)
    requires
        s.scopes.len() >= 1,
    ensures
        follows(execute(statement, s, clock, fuel).1, s),
    decreases fuel, 0int,
{
    if fuel > 0 {
        let less = (fuel - 1) as nat;
        match statement {
            StmtView::Expression { expression, .. } => {
                evaluation_restores_the_scopes(expression, s, clock, less);
            },
            StmtView::Print { expression, .. } => {
                evaluation_restores_the_scopes(expression, s, clock, less);
            },
            StmtView::VariableDeclaration { expression, .. } => {
                if let Some(initializer) = expression {
                    evaluation_restores_the_scopes(initializer, s, clock, less);
                }
            },
            StmtView::Block { statements, .. } => {
                blocks_restore_the_scopes(statements, s, clock, less);
            },
            StmtView::If { condition, then_branch, else_branch, .. } => {
                evaluation_restores_the_scopes(condition, s, clock, less);
                let s1 = evaluate(condition, s, clock, less).1;
                execution_restores_the_scopes(*then_branch, s1, clock, less);
                lemma_follows_in_turn(execute(*then_branch, s1, clock, less).1, s1, s);
                if let Some(branch) = else_branch {
                    execution_restores_the_scopes(*branch, s1, clock, less);
                    lemma_follows_in_turn(execute(*branch, s1, clock, less).1, s1, s);
                }
            },
            StmtView::While { condition, body, .. } => {
                loops_restore_the_scopes(condition, *body, s, clock, less);
            },
            StmtView::Function { .. } => {},
            StmtView::Return { value, .. } => {
                if let Some(returned) = value {
                    evaluation_restores_the_scopes(returned, s, clock, less);
                }
            },
        }
    }
}

/// A block leaves the scopes that it found: its own frame is dropped at
/// the end of the block, on an error and on a `return` alike.
pub proof fn blocks_restore_the_scopes(list: Seq<StmtView>, s: StateView, clock: Clock, fuel: nat)
    requires
        s.scopes.len() >= 1,
    ensures
        follows(execute_block(list, s, clock, fuel).1, s),
    decreases fuel, list.len() + 2,
{
    let entered = StateView { scopes: s.scopes.push(Seq::empty()), ..s };
    statements_restore_the_scopes(list, 0, entered, clock, fuel);
}

/// Running statements one after the other leaves as many scopes as there
/// were.
pub proof fn statements_restore_the_scopes(
    list: Seq<StmtView>,
    from: int,
    s: StateView,
    clock: Clock,
    fuel: nat,
)
    requires
        s.scopes.len() >= 1,
    ensures
        follows(execute_all(list, from, s, clock, fuel).1, s),
    decreases fuel, list.len() - from + 1,
{
    if 0 <= from < list.len() {
        execution_restores_the_scopes(list[from], s, clock, fuel);
        let (flow, s1) = execute(list[from], s, clock, fuel);
        if flow == Ok::<FlowView, ErrorView>(FlowView::Next) {
            statements_restore_the_scopes(list, from + 1, s1, clock, fuel);
            lemma_follows_in_turn(execute_all(list, from + 1, s1, clock, fuel).1, s1, s);
        }
    }
}

/// A loop leaves as many scopes as it found, however it ends.
pub proof fn loops_restore_the_scopes(
    condition: ExprView,
    body: StmtView,
    s: StateView,
    clock: Clock,
    fuel: nat,
)
    requires
        s.scopes.len() >= 1,
    ensures
        follows(execute_while(condition, body, s, clock, fuel).1, s),
    decreases fuel, 0int,
{
    if fuel > 0 {
        let less = (fuel - 1) as nat;
        evaluation_restores_the_scopes(condition, s, clock, less);
        let (result, s1) = evaluate(condition, s, clock, less);
        if let Ok(value) = result {
            if truthy(value) {
                execution_restores_the_scopes(body, s1, clock, less);
                let (flow, s2) = execute(body, s1, clock, less);
                lemma_follows_in_turn(s2, s1, s);
                if flow == Ok::<FlowView, ErrorView>(FlowView::Next) {
                    loops_restore_the_scopes(condition, body, s2, clock, less);
                    lemma_follows_in_turn(
                        execute_while(condition, body, s2, clock, less).1,
                        s2,
                        s,
                    );
                }
            }
        }
    }
}

/// A variable that a block declares does not outlive the block: after the
/// block the scopes are as many as before, so that a name which the block
/// shadowed means again what it meant outside.
pub proof fn programs_restore_the_scopes(list: Seq<StmtView>, s: StateView, clock: Clock, fuel: nat)
    requires
        s.scopes.len() >= 1,
    ensures
        follows(run(list, s, clock, fuel).1, s),
{
    statements_restore_the_scopes(list, 0, s, clock, fuel);
}

/// Whether the first `upto` frames of `after` bind the names that the
/// frames of `before` bind at the same places, in the same order.
pub open spec fn keeps_names(after: Seq<FrameView>, before: Seq<FrameView>, upto: int) -> bool {
    forall|k: int| 0 <= k < upto ==> names_of(#[trigger] after[k]) == names_of(before[k])
}

/// Evaluating an expression declares nothing: every scope binds the names
/// afterwards that it bound before. What a call declares, it declares in
/// its own frame, which is gone when the call has ended.
pub proof fn evaluation_declares_nothing(e: ExprView, s: StateView, clock: Clock, fuel: nat)
    requires
        s.scopes.len() >= 1,
    ensures
        keeps_names(evaluate(e, s, clock, fuel).1.scopes, s.scopes, s.scopes.len() as int),
    decreases fuel, 0int,
{
    if fuel > 0 {
        let less = (fuel - 1) as nat;
        match e {
            ExprView::Literal { .. } => {},
            ExprView::Variable { .. } => {},
            ExprView::Grouping { expression, .. } => {
                evaluation_declares_nothing(*expression, s, clock, less);
            },
            ExprView::Assignment { identifier, value, .. } => {
                evaluation_declares_nothing(*value, s, clock, less);
                evaluation_restores_the_scopes(*value, s, clock, less);
                let (result, s1) = evaluate(*value, s, clock, less);
                if let Ok(written) = result {
                    assignment_is_retrieved(s1.scopes, identifier.lexeme, written);
                }
            },
            ExprView::Unary { right, .. } => {
                evaluation_declares_nothing(*right, s, clock, less);
            },
            ExprView::Binary { left, right, .. } => {
                evaluation_declares_nothing(*left, s, clock, less);
                evaluation_restores_the_scopes(*left, s, clock, less);
                let s1 = evaluate(*left, s, clock, less).1;
                evaluation_declares_nothing(*right, s1, clock, less);
            },
            ExprView::Logical { left, right, .. } => {
                evaluation_declares_nothing(*left, s, clock, less);
                evaluation_restores_the_scopes(*left, s, clock, less);
                let s1 = evaluate(*left, s, clock, less).1;
                evaluation_declares_nothing(*right, s1, clock, less);
            },
            ExprView::Call { callee, arguments, .. } => {
                evaluation_declares_nothing(*callee, s, clock, less);
                evaluation_restores_the_scopes(*callee, s, clock, less);
                let (first, s1) = evaluate(*callee, s, clock, less);
                arguments_declare_nothing(arguments, 0, Seq::empty(), s1, clock, less);
                arguments_restore_the_scopes(arguments, 0, Seq::empty(), s1, clock, less);
                let (rest, s2) = evaluate_all(arguments, 0, Seq::empty(), s1, clock, less);
                if let Ok(ObjectView::Callable { function }) = first {
                    if let Ok(values) = rest {
                        calls_declare_nothing(function, values, s2, clock, less);
                    }
                }
            },
        }
    }
}

/// Evaluating the arguments of a call declares nothing.
pub proof fn arguments_declare_nothing(
    list: Seq<ExprView>,
    from: int,
    sofar: Seq<ObjectView>,
    s: StateView,
    clock: Clock,
    fuel: nat,
)
    requires
        s.scopes.len() >= 1,
    ensures
        keeps_names(
            evaluate_all(list, from, sofar, s, clock, fuel).1.scopes,
            s.scopes,
            s.scopes.len() as int,
        ),
    decreases fuel, list.len() - from + 1,
{
    if 0 <= from < list.len() {
        evaluation_declares_nothing(list[from], s, clock, fuel);
        evaluation_restores_the_scopes(list[from], s, clock, fuel);
        let (result, s1) = evaluate(list[from], s, clock, fuel);
        if let Ok(value) = result {
            arguments_declare_nothing(list, from + 1, sofar.push(value), s1, clock, fuel);
        }
    }
}

/// A call declares nothing in the scopes of its caller, nor in the global
/// frame: its parameters and the variables of its body live in the frame
/// of the call.
pub proof fn calls_declare_nothing(
    function: FunctionView,
    arguments: Seq<ObjectView>,
    s: StateView,
    clock: Clock,
    fuel: nat,
)
    requires
        s.scopes.len() >= 1,
    ensures
        keeps_names(
            call(function, arguments, s, clock, fuel).1.scopes,
            s.scopes,
            s.scopes.len() as int,
        ),
    decreases fuel, 0int,
{
    match function {
        FunctionView::Native { .. } => {},
        FunctionView::User { name, params, body } => {
            if fuel > 0 {
                let entered = StateView {
                    scopes: call_scopes(s.scopes, bound(params, arguments, 0, Seq::empty())),
                    ..s
                };
                statements_declare_in_the_current_scope(
                    body,
                    0,
                    entered,
                    clock,
                    (fuel - 1) as nat,
                );
                statements_restore_the_scopes(body, 0, entered, clock, (fuel - 1) as nat);
                let s1 = execute_all(body, 0, entered, clock, (fuel - 1) as nat).1;
                let after = scopes_after_call(s.scopes, s1.scopes);
                assert(entered.scopes[0] == s.scopes[0]);
                assert forall|k: int| 0 <= k < s.scopes.len() implies names_of(#[trigger] after[k])
                    == names_of(s.scopes[k]) by {
                    if k == 0 {
                        assert(after[0] == s1.scopes[0]);
                    } else {
                        assert(after[k] == s.scopes[k]);
                    }
                }
            }
        },
    }
}

/// A statement declares names in the current scope only: every scope
/// outside it binds the names afterwards that it bound before.
pub proof fn statements_declare_in_the_current_scope_only(
    statement: StmtView,
    s: StateView,
    clock: Clock,
    fuel: nat,
)
    requires
        s.scopes.len() >= 1,
    ensures
        keeps_names(execute(statement, s, clock, fuel).1.scopes, s.scopes, s.scopes.len() - 1),
    decreases fuel, 0int,
{
    if fuel > 0 {
        let less = (fuel - 1) as nat;
        match statement {
            StmtView::Expression { expression, .. } => {
                evaluation_declares_nothing(expression, s, clock, less);
            },
            StmtView::Print { expression, .. } => {
                evaluation_declares_nothing(expression, s, clock, less);
            },
            StmtView::VariableDeclaration { expression, .. } => {
                if let Some(initializer) = expression {
                    evaluation_declares_nothing(initializer, s, clock, less);
                    evaluation_restores_the_scopes(initializer, s, clock, less);
                }
            },
            StmtView::Block { statements, .. } => {
                blocks_declare_nothing(statements, s, clock, less);
            },
            StmtView::If { condition, then_branch, else_branch, .. } => {
                evaluation_declares_nothing(condition, s, clock, less);
                evaluation_restores_the_scopes(condition, s, clock, less);
                let s1 = evaluate(condition, s, clock, less).1;
                statements_declare_in_the_current_scope_only(*then_branch, s1, clock, less);
                if let Some(branch) = else_branch {
                    statements_declare_in_the_current_scope_only(*branch, s1, clock, less);
                }
            },
            StmtView::While { condition, body, .. } => {
                loops_declare_in_the_current_scope(condition, *body, s, clock, less);
            },
            StmtView::Function { .. } => {},
            StmtView::Return { value, .. } => {
                if let Some(returned) = value {
                    evaluation_declares_nothing(returned, s, clock, less);
                }
            },
        }
    }
}

/// Shadowing in a block does not leak: what a block declares, it declares
/// in its own frame, and that frame is dropped with the block. Every scope
/// binds the names after the block that it bound before it.
pub proof fn blocks_declare_nothing(list: Seq<StmtView>, s: StateView, clock: Clock, fuel: nat)
    requires
        s.scopes.len() >= 1,
    ensures
        keeps_names(
            execute_block(list, s, clock, fuel).1.scopes,
            s.scopes,
            s.scopes.len() as int,
        ),
        execute_block(list, s, clock, fuel).1.scopes.len() == s.scopes.len(),
    decreases fuel, list.len() + 2,
{
    let entered = StateView { scopes: s.scopes.push(Seq::empty()), ..s };
    statements_declare_in_the_current_scope(list, 0, entered, clock, fuel);
    statements_restore_the_scopes(list, 0, entered, clock, fuel);
    let s1 = execute_all(list, 0, entered, clock, fuel).1;
    let after = without_current(s1.scopes);
    assert forall|k: int| 0 <= k < s.scopes.len() implies names_of(#[trigger] after[k])
        == names_of(s.scopes[k]) by {
        assert(after[k] == s1.scopes[k]);
        assert(entered.scopes[k] == s.scopes[k]);
    }
}

/// Statements that run one after the other declare names in the current
/// scope only.
pub proof fn statements_declare_in_the_current_scope(
    list: Seq<StmtView>,
    from: int,
    s: StateView,
    clock: Clock,
    fuel: nat,
)
    requires
        s.scopes.len() >= 1,
    ensures
        keeps_names(
            execute_all(list, from, s, clock, fuel).1.scopes,
            s.scopes,
            s.scopes.len() - 1,
        ),
    decreases fuel, list.len() - from + 1,
{
    if 0 <= from < list.len() {
        statements_declare_in_the_current_scope_only(list[from], s, clock, fuel);
        execution_restores_the_scopes(list[from], s, clock, fuel);
        let (flow, s1) = execute(list[from], s, clock, fuel);
        if flow == Ok::<FlowView, ErrorView>(FlowView::Next) {
            statements_declare_in_the_current_scope(list, from + 1, s1, clock, fuel);
        }
    }
}

/// A loop declares names in the current scope only.
pub proof fn loops_declare_in_the_current_scope(
    condition: ExprView,
    body: StmtView,
    s: StateView,
    clock: Clock,
    fuel: nat,
)
    requires
        s.scopes.len() >= 1,
    ensures
        keeps_names(
            execute_while(condition, body, s, clock, fuel).1.scopes,
            s.scopes,
            s.scopes.len() - 1,
        ),
    decreases fuel, 0int,
{
    if fuel > 0 {
        let less = (fuel - 1) as nat;
        evaluation_declares_nothing(condition, s, clock, less);
        evaluation_restores_the_scopes(condition, s, clock, less);
        let (result, s1) = evaluate(condition, s, clock, less);
        if let Ok(value) = result {
            if truthy(value) {
                statements_declare_in_the_current_scope_only(body, s1, clock, less);
                execution_restores_the_scopes(body, s1, clock, less);
                let (flow, s2) = execute(body, s1, clock, less);
                if flow == Ok::<FlowView, ErrorView>(FlowView::Next) {
                    loops_declare_in_the_current_scope(condition, body, s2, clock, less);
                }
            }
        }
    }
}

} // verus!
