//! The evaluator: walks the syntax tree and keeps the state of the run.

use crate::ast::{expressions_model, statements_model, Expr, ExprView, Stmt, StmtView};
use crate::environment::Environment;
use crate::error::{ErrorView, LoxError, LoxResult};
use crate::function::{Function, FunctionView, Native};
use crate::number::Number;
use crate::object::{objects_model, LoxObject, ObjectView, Printed, PrintedView};
use crate::operators::{binary_operation, unary_operation, value_model};
use crate::semantics::{
    lemma_agrees_with_earlier, agrees, bound, call, call_scopes, calls, evaluate, evaluate_all,
    evaluates, execute, execute_all, execute_block, execute_while, executes, executes_block, run,
    runs, scopes_after_call, Clock, FlowView, StateView,
};
use crate::source_location::SourceLocation;
use crate::token::{tokens_model, Token, TokenType};
use std::time::{SystemTime, UNIX_EPOCH};
use vstd::prelude::*;
use vstd::string::StringExecFns;

verus! {

/// The greatest budget: what a new interpreter allows.
pub const UNLIMITED: u64 = 0xFFFF_FFFF_FFFF_FFFF;

/// How a statement that ran without an error ended.
#[derive(Debug, PartialEq)]
pub enum Flow {
    /// The next statement is to run.
    Next,
    /// A `return` was run; the enclosing call ends with this value.
    Return(LoxObject),
}

impl View for Flow {
    type V = FlowView;

    open spec fn view(&self) -> FlowView {
        match self {
            Flow::Next => FlowView::Next,
            Flow::Return(value) => FlowView::Return(value@),
        }
    }
}

/// How a statement ended, or the error in its place.
pub open spec fn flow_model(result: Result<Flow, LoxError>) -> Result<FlowView, ErrorView> {
    match result {
        Ok(flow) => Ok(flow@),
        Err(error) => Err(error@),
    }
}

/// The values of a list of expressions, or the error in their place.
pub open spec fn values_model(result: Result<Vec<LoxObject>, LoxError>) -> Result<
    Seq<ObjectView>,
    ErrorView,
> {
    match result {
        Ok(values) => Ok(objects_model(values@)),
        Err(error) => Err(error@),
    }
}

/// How a program ended.
pub open spec fn run_model(result: Result<(), LoxError>) -> Result<(), ErrorView> {
    match result {
        Ok(_) => Ok(()),
        Err(error) => Err(error@),
    }
}

/// What was printed, each piece as its view.
pub open spec fn printed_model(printed: Seq<Printed>) -> Seq<PrintedView> {
    Seq::new(printed.len(), |i: int| printed[i]@)
}

/// `SystemTime::now` and `SystemTime::duration_since`: the time since the
/// Unix epoch, in milliseconds; zero for a clock set before the epoch.
/// Nothing is known of a reading beforehand.
#[verifier::external_body]
fn milliseconds_since_epoch() -> u128 {
    match SystemTime::now().duration_since(UNIX_EPOCH) {
        Ok(elapsed) => elapsed.as_millis(),
        Err(_) => 0,
    }
}

/// An interpreter: the scopes of the running program, what it has printed
/// and not yet handed out, its budget, and the readings its clock gave.
pub struct Interpreter {
    environment: Environment,
    printed: Vec<Printed>,
    limit: u64,
    readings: Ghost<Seq<u128>>,
}

impl View for Interpreter {
    type V = StateView;

    closed spec fn view(&self) -> StateView {
        StateView {
            scopes: self.environment@,
            printed: printed_model(self.printed@),
            ticks: self.readings@.len(),
        }
    }
}

/// The global frame of a new interpreter: `clock`, the one function of the
/// host, and nothing else.
pub open spec fn initial_state() -> StateView {
    StateView {
        scopes: seq![
            seq![
                crate::environment::BindingView {
                    name: "clock"@,
                    value: ObjectView::Callable {
                        function: FunctionView::Native { arity: 0, body: Native::Clock },
                    },
                },
            ],
        ],
        printed: Seq::empty(),
        ticks: 0,
    }
}

impl Interpreter {
    /// The scope chain is well formed.
    pub closed spec fn well_formed(&self) -> bool {
        self.environment.well_formed()
    }

    /// What the clock gave each time the program read it, the first
    /// reading first.
    pub closed spec fn readings(&self) -> Seq<u128> {
        self.readings@
    }

    /// How deep evaluation may nest, and how often a loop may repeat.
    pub closed spec fn budget(&self) -> nat {
        self.limit as nat
    }

    /// An interpreter whose global frame holds the functions of the host,
    /// with the greatest budget.
    pub fn new() -> (r: Self)
        ensures
            r.well_formed(),
            r@ == initial_state(),
            r.readings() == Seq::<u128>::empty(),
            r.budget() == UNLIMITED,
    {
        Self::with_limit(UNLIMITED)
    }

    /// An interpreter as `new` makes it, with the budget `limit`.
    pub fn with_limit(limit: u64) -> (r: Self)
        ensures
            r.well_formed(),
            r@ == initial_state(),
            r.readings() == Seq::<u128>::empty(),
            r.budget() == limit,
    {
        let mut globals = Environment::new(None);
        let clock = LoxObject::Callable {
            function: Function::Native { arity: 0, body: Native::Clock },
        };
        globals.define(String::from_str("clock"), clock);
        let r = Interpreter {
            environment: globals,
            printed: Vec::new(),
            limit,
            readings: Ghost(Seq::empty()),
        };
        assert(r@.scopes =~= initial_state().scopes) by {
            assert(r@.scopes[0] =~= initial_state().scopes[0]);
        }
        assert(r@.printed =~= Seq::empty());
        r
    }

    /// The scopes of the running program.
    pub fn environment(&self) -> (r: &Environment)
        requires
            self.well_formed(),
        ensures
            r@ == self@.scopes,
            r.well_formed(),
    {
        &self.environment
    }

    /// Hands out what the program has printed since this was last asked.
    pub fn take_printed(&mut self) -> (r: Vec<Printed>)
        requires
            old(self).well_formed(),
        ensures
            final(self).well_formed(),
            printed_model(r@) == old(self)@.printed,
            final(self)@ == (StateView { printed: Seq::empty(), ..old(self)@ }),
            final(self).readings() == old(self).readings(),
            final(self).budget() == old(self).budget(),
    {
        let mut printed: Vec<Printed> = Vec::new();
        std::mem::swap(&mut printed, &mut self.printed);
        assert(self@.printed =~= Seq::empty());
        printed
    }

    /// Runs a program: its statements one after the other, up to the first
    /// error.
    pub fn interpret(&mut self, statements: &[Stmt]) -> (r: LoxResult<()>)
        requires
            old(self).well_formed(),
        ensures
            final(self).well_formed(),
            final(self).budget() == old(self).budget(),
            old(self).readings().is_prefix_of(final(self).readings()),
            runs(
                statements_model(statements@),
                old(self)@,
                old(self).budget(),
                final(self).readings(),
                run_model(r),
                final(self)@,
            ),
    {
        let fuel = self.limit;
        let flow = self.execute_all(statements, fuel);
        let ghost ended = flow_model(flow);
        let r = match flow {
            Ok(_) => Ok(()),
            Err(error) => Err(error),
        };
        proof {
            assert forall|clock: Clock| agrees(clock, self.readings@) implies #[trigger] run(
                statements_model(statements@),
                old(self)@,
                clock,
                fuel as nat,
            ) == (run_model(r), self@) by {
                assert(execute_all(statements_model(statements@), 0, old(self)@, clock, fuel as nat)
                    == (ended, self@));
            }
        }
        r
    }

    /// Evaluates an expression.
    pub fn evaluate(&mut self, expression: &Expr) -> (r: LoxResult<LoxObject>)
        requires
            old(self).well_formed(),
        ensures
            final(self).well_formed(),
            final(self).budget() == old(self).budget(),
            old(self).readings().is_prefix_of(final(self).readings()),
            evaluates(
                expression@,
                old(self)@,
                old(self).budget(),
                final(self).readings(),
                value_model(r),
                final(self)@,
            ),
    {
        let fuel = self.limit;
        self.evaluate_within(expression, fuel)
    }

    /// Runs a statement.
    pub fn execute(&mut self, statement: &Stmt) -> (r: LoxResult<Flow>)
        requires
            old(self).well_formed(),
        ensures
            final(self).well_formed(),
            final(self).budget() == old(self).budget(),
            old(self).readings().is_prefix_of(final(self).readings()),
            executes(
                statement@,
                old(self)@,
                old(self).budget(),
                final(self).readings(),
                flow_model(r),
                final(self)@,
            ),
    {
        let fuel = self.limit;
        self.execute_within(statement, fuel)
    }

    /// Runs statements in a new frame inside the current one, and drops
    /// the frame afterwards, whatever the outcome.
    pub fn execute_block(&mut self, statements: &[Stmt]) -> (r: LoxResult<Flow>)
        requires
            old(self).well_formed(),
        ensures
            final(self).well_formed(),
            final(self).budget() == old(self).budget(),
            old(self).readings().is_prefix_of(final(self).readings()),
            executes_block(
                statements_model(statements@),
                old(self)@,
                old(self).budget(),
                final(self).readings(),
                flow_model(r),
                final(self)@,
            ),
    {
        let fuel = self.limit;
        self.block_within(statements, fuel)
    }

    /// Calls `function` with `arguments`.
    pub fn call(&mut self, function: &Function, arguments: &Vec<LoxObject>) -> (r: LoxResult<
        LoxObject,
    >)
        requires
            old(self).well_formed(),
        ensures
            final(self).well_formed(),
            final(self).budget() == old(self).budget(),
            old(self).readings().is_prefix_of(final(self).readings()),
            calls(
                function@,
                objects_model(arguments@),
                old(self)@,
                old(self).budget(),
                final(self).readings(),
                value_model(r),
                final(self)@,
            ),
    {
        let fuel = self.limit;
        self.call_within(function, arguments, fuel)
    }
}

// expressions
impl Interpreter {
    fn evaluate_within(&mut self, e: &Expr, fuel: u64) -> (r: LoxResult<LoxObject>)
        requires
            old(self).well_formed(),
        ensures
            final(self).well_formed(),
            final(self).limit == old(self).limit,
            old(self).readings@.is_prefix_of(final(self).readings@),
            evaluates(
                e@,
                old(self)@,
                fuel as nat,
                final(self).readings@,
                value_model(r),
                final(self)@,
            ),
        decreases fuel, 1int,
    {
        if fuel == 0 {
            let r = Err(LoxError::LimitExceeded { location: e.location() });
            proof {
                assert forall|clock: Clock|
                    agrees(clock, self.readings@) implies #[trigger] evaluate(
                    e@,
                    old(self)@,
                    clock,
                    fuel as nat,
                ) == (value_model(r), self@) by {
                }
            }
            return r;
        }
        match e {
            Expr::Literal { literal, .. } => {
                let r = self.visit_literal_expression(literal.duplicate());
                proof {
                    assert forall|clock: Clock|
                        agrees(clock, self.readings@) implies #[trigger] evaluate(
                        e@,
                        old(self)@,
                        clock,
                        fuel as nat,
                    ) == (value_model(r), self@) by {
                    }
                }
                r
            },
            Expr::Grouping { expression, .. } => self.visit_grouping_expression(
                expression,
                fuel,
                Ghost(e@),
            ),
            Expr::Variable { identifier, .. } => {
                let r = self.visit_variable_expression(identifier);
                proof {
                    assert forall|clock: Clock|
                        agrees(clock, self.readings@) implies #[trigger] evaluate(
                        e@,
                        old(self)@,
                        clock,
                        fuel as nat,
                    ) == (value_model(r), self@) by {
                    }
                }
                r
            },
            Expr::Assignment { identifier, value, .. } => self.visit_assignment_expression(
                identifier,
                value,
                fuel,
                Ghost(e@),
            ),
            Expr::Unary { operator, right, .. } => self.visit_unary_expression(
                operator,
                right,
                fuel,
                Ghost(e@),
            ),
            Expr::Binary { left, operator, right, .. } => self.visit_binary_expression(
                left,
                operator,
                right,
                fuel,
                Ghost(e@),
            ),
            Expr::Logical { left, operator, right, .. } => self.visit_logical_expression(
                left,
                operator,
                right,
                fuel,
                Ghost(e@),
            ),
            Expr::Call { callee, arguments, .. } => self.visit_call_expression(
                callee,
                arguments,
                fuel,
                Ghost(e@),
            ),
        }
    }

    fn visit_grouping_expression(
        &mut self,
        expression: &Expr,
        fuel: u64,
        Ghost(whole): Ghost<ExprView>,
    ) -> (r: LoxResult<LoxObject>)
        requires
            old(self).well_formed(),
            fuel > 0,
            whole matches ExprView::Grouping { expression: inner, .. } && *inner == expression@,
        ensures
            final(self).well_formed(),
            final(self).limit == old(self).limit,
            old(self).readings@.is_prefix_of(final(self).readings@),
            evaluates(
                whole,
                old(self)@,
                fuel as nat,
                final(self).readings@,
                value_model(r),
                final(self)@,
            ),
        decreases fuel, 0int,
    {
        let r = self.evaluate_within(expression, fuel - 1);
        proof {
            assert forall|clock: Clock| agrees(clock, self.readings@) implies #[trigger] evaluate(
                whole,
                old(self)@,
                clock,
                fuel as nat,
            ) == (value_model(r), self@) by {
                assert(evaluate(
                    expression@,
                    old(self)@,
                    clock,
                    (fuel - 1) as nat,
                ) == (value_model(r), self@));
            }
        }
        r
    }

    fn visit_binary_expression(
        &mut self,
        left: &Expr,
        token: &Token,
        right: &Expr,
        fuel: u64,
        Ghost(whole): Ghost<ExprView>,
    ) -> (r: LoxResult<LoxObject>)
        requires
            old(self).well_formed(),
            fuel > 0,
            whole matches ExprView::Binary { left: l, operator: o, right: r, .. } && *l == left@
                && o == token@ && *r == right@,
        ensures
            final(self).well_formed(),
            final(self).limit == old(self).limit,
            old(self).readings@.is_prefix_of(final(self).readings@),
            evaluates(
                whole,
                old(self)@,
                fuel as nat,
                final(self).readings@,
                value_model(r),
                final(self)@,
            ),
        decreases fuel, 0int,
    {
        let first = self.evaluate_within(left, fuel - 1);
        let ghost r1 = value_model(first);
        let ghost s1 = self@;
        let ghost l1 = self.readings@;
        let a = match first {
            Ok(a) => a,
            Err(error) => {
                proof {
                    assert forall|clock: Clock|
                        agrees(clock, self.readings@) implies #[trigger] evaluate(
                        whole,
                        old(self)@,
                        clock,
                        fuel as nat,
                    ) == (Err::<ObjectView, ErrorView>(error@), self@) by {
                        assert(evaluate(left@, old(self)@, clock, (fuel - 1) as nat) == (r1, s1));
                    }
                }
                return Err(error);
            },
        };
        let second = self.evaluate_within(right, fuel - 1);
        let ghost r2 = value_model(second);
        let r = match second {
            Ok(b) => binary_operation(a, token, b),
            Err(error) => Err(error),
        };
        proof {
            assert forall|clock: Clock| agrees(clock, self.readings@) implies #[trigger] evaluate(
                whole,
                old(self)@,
                clock,
                fuel as nat,
            ) == (value_model(r), self@) by {
                lemma_agrees_with_earlier(clock, self.readings@, l1);
                assert(evaluate(left@, old(self)@, clock, (fuel - 1) as nat) == (r1, s1));
                assert(evaluate(right@, s1, clock, (fuel - 1) as nat) == (r2, self@));
            }
        }
        r
    }

    fn visit_unary_expression(
        &mut self,
        operator: &Token,
        right: &Expr,
        fuel: u64,
        Ghost(whole): Ghost<ExprView>,
    ) -> (r: LoxResult<LoxObject>)
        requires
            old(self).well_formed(),
            fuel > 0,
            whole matches ExprView::Unary { operator: o, right: r, .. } && o == operator@ && *r
                == right@,
        ensures
            final(self).well_formed(),
            final(self).limit == old(self).limit,
            old(self).readings@.is_prefix_of(final(self).readings@),
            evaluates(
                whole,
                old(self)@,
                fuel as nat,
                final(self).readings@,
                value_model(r),
                final(self)@,
            ),
        decreases fuel, 0int,
    {
        let first = self.evaluate_within(right, fuel - 1);
        let ghost r1 = value_model(first);
        let r = match first {
            Ok(operand) => unary_operation(operator, operand),
            Err(error) => Err(error),
        };
        proof {
            assert forall|clock: Clock| agrees(clock, self.readings@) implies #[trigger] evaluate(
                whole,
                old(self)@,
                clock,
                fuel as nat,
            ) == (value_model(r), self@) by {
                assert(evaluate(right@, old(self)@, clock, (fuel - 1) as nat) == (r1, self@));
            }
        }
        r
    }

    fn visit_literal_expression(&self, literal: LoxObject) -> (r: LoxResult<LoxObject>)
        ensures
            r == Ok::<LoxObject, LoxError>(literal),
    {
        Ok(literal)
    }

    fn visit_variable_expression(&self, identifier: &Token) -> (r: LoxResult<LoxObject>)
        requires
            self.well_formed(),
        ensures
            value_model(r) == crate::semantics::read_variable(self@.scopes, identifier@),
    {
        match self.environment.retrieve(identifier.lexeme.as_str()) {
            Some(value) => Ok(value),
            None => Err(
                LoxError::UndefinedVariable {
                    location: identifier.location,
                    variable: identifier.lexeme.clone(),
                },
            ),
        }
    }

    fn visit_assignment_expression(
        &mut self,
        identifier: &Token,
        value: &Expr,
        fuel: u64,
        Ghost(whole): Ghost<ExprView>,
    ) -> (r: LoxResult<LoxObject>)
        requires
            old(self).well_formed(),
            fuel > 0,
            whole matches ExprView::Assignment { identifier: i, value: v, .. } && i == identifier@
                && *v == value@,
        ensures
            final(self).well_formed(),
            final(self).limit == old(self).limit,
            old(self).readings@.is_prefix_of(final(self).readings@),
            evaluates(
                whole,
                old(self)@,
                fuel as nat,
                final(self).readings@,
                value_model(r),
                final(self)@,
            ),
        decreases fuel, 0int,
    {
        let first = self.evaluate_within(value, fuel - 1);
        let ghost r1 = value_model(first);
        let ghost s1 = self@;
        let r = match first {
            Ok(assigned) => {
                let assignment_status = self.environment.assign(
                    identifier.lexeme.clone(),
                    assigned.duplicate(),
                );
                if assignment_status.is_err() {
                    Err(
                        LoxError::InvalidAssignment {
                            location: identifier.location,
                            identifier: identifier.lexeme.clone(),
                        },
                    )
                } else {
                    Ok(assigned)
                }
            },
            Err(error) => Err(error),
        };
        proof {
            assert forall|clock: Clock| agrees(clock, self.readings@) implies #[trigger] evaluate(
                whole,
                old(self)@,
                clock,
                fuel as nat,
            ) == (value_model(r), self@) by {
                assert(evaluate(value@, old(self)@, clock, (fuel - 1) as nat) == (r1, s1));
            }
        }
        r
    }

    fn visit_logical_expression(
        &mut self,
        left: &Expr,
        token: &Token,
        right: &Expr,
        fuel: u64,
        Ghost(whole): Ghost<ExprView>,
    ) -> (r: LoxResult<LoxObject>)
        requires
            old(self).well_formed(),
            fuel > 0,
            whole matches ExprView::Logical { left: l, operator: o, right: r, .. } && *l == left@
                && o == token@ && *r == right@,
        ensures
            final(self).well_formed(),
            final(self).limit == old(self).limit,
            old(self).readings@.is_prefix_of(final(self).readings@),
            evaluates(
                whole,
                old(self)@,
                fuel as nat,
                final(self).readings@,
                value_model(r),
                final(self)@,
            ),
        decreases fuel, 0int,
    {
        let first = self.evaluate_within(left, fuel - 1);
        let ghost r1 = value_model(first);
        let ghost s1 = self@;
        let ghost l1 = self.readings@;
        let a = match first {
            Ok(a) => a,
            Err(error) => {
                proof {
                    assert forall|clock: Clock|
                        agrees(clock, self.readings@) implies #[trigger] evaluate(
                        whole,
                        old(self)@,
                        clock,
                        fuel as nat,
                    ) == (Err::<ObjectView, ErrorView>(error@), self@) by {
                        assert(evaluate(left@, old(self)@, clock, (fuel - 1) as nat) == (r1, s1));
                    }
                }
                return Err(error);
            },
        };
        let decided = if token.kind == TokenType::Or {
            a.is_truthy()
        } else {
            !a.is_truthy()
        };
        if decided {
            proof {
                assert forall|clock: Clock|
                    agrees(clock, self.readings@) implies #[trigger] evaluate(
                    whole,
                    old(self)@,
                    clock,
                    fuel as nat,
                ) == (Ok::<ObjectView, ErrorView>(a@), self@) by {
                    assert(evaluate(left@, old(self)@, clock, (fuel - 1) as nat) == (r1, s1));
                }
            }
            return Ok(a);
        }
        let r = self.evaluate_within(right, fuel - 1);
        proof {
            assert forall|clock: Clock| agrees(clock, self.readings@) implies #[trigger] evaluate(
                whole,
                old(self)@,
                clock,
                fuel as nat,
            ) == (value_model(r), self@) by {
                lemma_agrees_with_earlier(clock, self.readings@, l1);
                assert(evaluate(left@, old(self)@, clock, (fuel - 1) as nat) == (r1, s1));
                assert(evaluate(right@, s1, clock, (fuel - 1) as nat) == (value_model(r), self@));
            }
        }
        r
    }

    /// Evaluates the arguments of a call, from left to right.
    fn evaluate_list(&mut self, list: &Vec<Expr>, fuel: u64) -> (r: LoxResult<Vec<LoxObject>>)
        requires
            old(self).well_formed(),
        ensures
            final(self).well_formed(),
            final(self).limit == old(self).limit,
            old(self).readings@.is_prefix_of(final(self).readings@),
            forall|clock: Clock|
                agrees(clock, final(self).readings@) ==> #[trigger] evaluate_all(
                    expressions_model(list@),
                    0,
                    Seq::empty(),
                    old(self)@,
                    clock,
                    fuel as nat,
                ) == (values_model(r), final(self)@),
        decreases fuel, 2int,
    {
        let mut values: Vec<LoxObject> = Vec::new();
        let mut i: usize = 0;
        assert(objects_model(values@) =~= Seq::empty());
        while i < list.len()
            invariant
                i <= list.len(),
                self.well_formed(),
                self.limit == old(self).limit,
                old(self).readings@.is_prefix_of(self.readings@),
                forall|clock: Clock|
                    agrees(clock, self.readings@) ==> #[trigger] evaluate_all(
                        expressions_model(list@),
                        0,
                        Seq::empty(),
                        old(self)@,
                        clock,
                        fuel as nat,
                    ) == evaluate_all(
                        expressions_model(list@),
                        i as int,
                        objects_model(values@),
                        self@,
                        clock,
                        fuel as nat,
                    ),
            decreases list.len() - i,
        {
            let ghost sofar = objects_model(values@);
            let ghost head = self@;
            let ghost lhead = self.readings@;
            let result = self.evaluate_within(&list[i], fuel);
            let ghost r1 = value_model(result);
            match result {
                Ok(value) => {
                    values.push(value);
                    assert(objects_model(values@) =~= sofar.push(value@));
                },
                Err(error) => {
                    proof {
                        assert forall|clock: Clock|
                            agrees(clock, self.readings@) implies #[trigger] evaluate_all(
                            expressions_model(list@),
                            0,
                            Seq::empty(),
                            old(self)@,
                            clock,
                            fuel as nat,
                        ) == (Err::<Seq<ObjectView>, ErrorView>(error@), self@) by {
                            lemma_agrees_with_earlier(clock, self.readings@, lhead);
                            assert(evaluate(list[i as int]@, head, clock, fuel as nat) == (
                                r1,
                                self@,
                            ));
                            assert(evaluate_all(
                                expressions_model(list@),
                                i as int,
                                sofar,
                                head,
                                clock,
                                fuel as nat,
                            ) == (Err::<Seq<ObjectView>, ErrorView>(error@), self@));
                        }
                    }
                    return Err(error);
                },
            }
            proof {
                assert forall|clock: Clock|
                    agrees(clock, self.readings@) implies #[trigger] evaluate_all(
                    expressions_model(list@),
                    0,
                    Seq::empty(),
                    old(self)@,
                    clock,
                    fuel as nat,
                ) == evaluate_all(
                    expressions_model(list@),
                    i + 1,
                    objects_model(values@),
                    self@,
                    clock,
                    fuel as nat,
                ) by {
                    lemma_agrees_with_earlier(clock, self.readings@, lhead);
                    assert(evaluate(list[i as int]@, head, clock, fuel as nat) == (r1, self@));
                    assert(evaluate_all(
                        expressions_model(list@),
                        i as int,
                        sofar,
                        head,
                        clock,
                        fuel as nat,
                    ) == evaluate_all(
                        expressions_model(list@),
                        i + 1,
                        objects_model(values@),
                        self@,
                        clock,
                        fuel as nat,
                    ));
                }
            }
            i += 1;
        }
        let r = Ok(values);
        proof {
            assert forall|clock: Clock|
                agrees(clock, self.readings@) implies #[trigger] evaluate_all(
                expressions_model(list@),
                0,
                Seq::empty(),
                old(self)@,
                clock,
                fuel as nat,
            ) == (Ok::<Seq<ObjectView>, ErrorView>(objects_model(values@)), self@) by {
                assert(evaluate_all(
                    expressions_model(list@),
                    i as int,
                    objects_model(values@),
                    self@,
                    clock,
                    fuel as nat,
                ) == (Ok::<Seq<ObjectView>, ErrorView>(objects_model(values@)), self@));
            }
        }
        r
    }

    fn visit_call_expression(
        &mut self,
        callee: &Expr,
        arguments: &Vec<Expr>,
        fuel: u64,
        Ghost(whole): Ghost<ExprView>,
    ) -> (r: LoxResult<LoxObject>)
        requires
            old(self).well_formed(),
            fuel > 0,
            whole matches ExprView::Call { callee: c, arguments: a, .. } && *c == callee@ && a
                == expressions_model(arguments@),
        ensures
            final(self).well_formed(),
            final(self).limit == old(self).limit,
            old(self).readings@.is_prefix_of(final(self).readings@),
            evaluates(
                whole,
                old(self)@,
                fuel as nat,
                final(self).readings@,
                value_model(r),
                final(self)@,
            ),
        decreases fuel, 0int,
    {
        let first = self.evaluate_within(callee, fuel - 1);
        let ghost r1 = value_model(first);
        let ghost s1 = self@;
        let ghost l1 = self.readings@;
        let target = match first {
            Ok(target) => target,
            Err(error) => {
                proof {
                    assert forall|clock: Clock|
                        agrees(clock, self.readings@) implies #[trigger] evaluate(
                        whole,
                        old(self)@,
                        clock,
                        fuel as nat,
                    ) == (Err::<ObjectView, ErrorView>(error@), self@) by {
                        assert(evaluate(callee@, old(self)@, clock, (fuel - 1) as nat) == (r1, s1));
                    }
                }
                return Err(error);
            },
        };
        let second = self.evaluate_list(arguments, fuel - 1);
        let ghost r2 = values_model(second);
        let ghost s2 = self@;
        let ghost l2 = self.readings@;
        let values = match second {
            Ok(values) => values,
            Err(error) => {
                proof {
                    assert forall|clock: Clock|
                        agrees(clock, self.readings@) implies #[trigger] evaluate(
                        whole,
                        old(self)@,
                        clock,
                        fuel as nat,
                    ) == (Err::<ObjectView, ErrorView>(error@), self@) by {
                        lemma_agrees_with_earlier(clock, self.readings@, l1);
                        assert(evaluate(callee@, old(self)@, clock, (fuel - 1) as nat) == (r1, s1));
                        assert(evaluate_all(
                            expressions_model(arguments@),
                            0,
                            Seq::empty(),
                            s1,
                            clock,
                            (fuel - 1) as nat,
                        ) == (r2, s2));
                    }
                }
                return Err(error);
            },
        };
        let r = match &target {
            LoxObject::Callable { function } => self.call_within(function, &values, fuel - 1),
            _ => Err(LoxError::InvalidCall { location: target.location() }),
        };
        proof {
            assert forall|clock: Clock| agrees(clock, self.readings@) implies #[trigger] evaluate(
                whole,
                old(self)@,
                clock,
                fuel as nat,
            ) == (value_model(r), self@) by {
                lemma_agrees_with_earlier(clock, self.readings@, l1);
                lemma_agrees_with_earlier(clock, self.readings@, l2);
                assert(evaluate(callee@, old(self)@, clock, (fuel - 1) as nat) == (r1, s1));
                assert(evaluate_all(
                    expressions_model(arguments@),
                    0,
                    Seq::empty(),
                    s1,
                    clock,
                    (fuel - 1) as nat,
                ) == (r2, s2));
                if let ObjectView::Callable { function } = target@ {
                    assert(call(function, objects_model(values@), s2, clock, (fuel - 1) as nat) == (
                        value_model(r),
                        self@,
                    ));
                }
            }
        }
        r
    }

    /// Binds the parameters of a call to its arguments in the current frame.
    fn bind(&mut self, params: &Vec<Token>, arguments: &Vec<LoxObject>)
        requires
            old(self).well_formed(),
            old(self)@.scopes.len() == 2,
            old(self)@.scopes[1] == Seq::<crate::environment::BindingView>::empty(),
        ensures
            final(self).well_formed(),
            final(self)@ == (StateView {
                scopes: old(self)@.scopes.update(
                    1,
                    bound(tokens_model(params@), objects_model(arguments@), 0, Seq::empty()),
                ),
                ..old(self)@
            }),
            final(self).limit == old(self).limit,
            final(self).readings == old(self).readings,
    {
        let mut i: usize = 0;
        while i < params.len() && i < arguments.len()
            invariant
                i <= params.len(),
                i <= arguments.len(),
                self.well_formed(),
                self.limit == old(self).limit,
                self.readings == old(self).readings,
                self@.scopes.len() == 2,
                self@ == (StateView { scopes: self@.scopes, ..old(self)@ }),
                self@.scopes[0] == old(self)@.scopes[0],
                bound(
                    tokens_model(params@),
                    objects_model(arguments@),
                    i as int,
                    self@.scopes[1],
                ) == bound(tokens_model(params@), objects_model(arguments@), 0, Seq::empty()),
            decreases params.len() - i,
        {
            self.environment.define(params[i].lexeme.clone(), arguments[i].duplicate());
            i += 1;
        }
        assert(self@.scopes =~= old(self)@.scopes.update(
            1,
            bound(tokens_model(params@), objects_model(arguments@), 0, Seq::empty()),
        ));
    }

    fn call_within(&mut self, function: &Function, arguments: &Vec<LoxObject>, fuel: u64) -> (r:
        LoxResult<LoxObject>)
        requires
            old(self).well_formed(),
        ensures
            final(self).well_formed(),
            final(self).limit == old(self).limit,
            old(self).readings@.is_prefix_of(final(self).readings@),
            calls(
                function@,
                objects_model(arguments@),
                old(self)@,
                fuel as nat,
                final(self).readings@,
                value_model(r),
                final(self)@,
            ),
        decreases fuel, 0int,
    {
        match function {
            Function::Native { body, .. } => match body {
                Native::Clock => {
                    let now = milliseconds_since_epoch();
                    self.readings = Ghost(self.readings@.push(now));
                    let r = Ok(
                        LoxObject::Number {
                            location: SourceLocation::dummy(),
                            value: Number::from_integer(now),
                        },
                    );
                    proof {
                        assert forall|clock: Clock|
                            agrees(clock, self.readings@) implies #[trigger] call(
                            function@,
                            objects_model(arguments@),
                            old(self)@,
                            clock,
                            fuel as nat,
                        ) == (value_model(r), self@) by {
                            assert(self.readings@[old(self).readings@.len() as int] == now);
                            assert(clock(old(self)@.ticks) == now);
                        }
                    }
                    r
                },
            },
            Function::User { name, params, body } => {
                if fuel == 0 {
                    let r = Err(LoxError::LimitExceeded { location: name.location });
                    proof {
                        assert forall|clock: Clock|
                            agrees(clock, self.readings@) implies #[trigger] call(
                            function@,
                            objects_model(arguments@),
                            old(self)@,
                            clock,
                            fuel as nat,
                        ) == (value_model(r), self@) by {}
                    }
                    return r;
                }
                proof {
                    self.environment.lemma_has_a_frame();
                }
                let suspended = self.environment.suspend();
                self.environment.enter();
                self.bind(params, arguments);
                let ghost entered = self@;
                assert(entered.scopes =~= call_scopes(
                    old(self)@.scopes,
                    bound(tokens_model(params@), objects_model(arguments@), 0, Seq::empty()),
                ));
                let flow = self.execute_all(body.as_slice(), fuel - 1);
                let ghost ended = flow_model(flow);
                let ghost left = self@;
                self.environment.resume(suspended);
                assert(self@.scopes =~= scopes_after_call(old(self)@.scopes, left.scopes));
                let r = match flow {
                    Ok(Flow::Next) => Ok(LoxObject::Nil { location: name.location }),
                    Ok(Flow::Return(value)) => Ok(value),
                    Err(error) => Err(error),
                };
                proof {
                    assert forall|clock: Clock|
                        agrees(clock, self.readings@) implies #[trigger] call(
                        function@,
                        objects_model(arguments@),
                        old(self)@,
                        clock,
                        fuel as nat,
                    ) == (value_model(r), self@) by {
                        assert(execute_all(
                            statements_model(body@),
                            0,
                            entered,
                            clock,
                            (fuel - 1) as nat,
                        ) == (ended, left));
                    }
                }
                r
            },
        }
    }
}

// statements
impl Interpreter {
    fn execute_within(&mut self, statement: &Stmt, fuel: u64) -> (r: LoxResult<Flow>)
        requires
            old(self).well_formed(),
        ensures
            final(self).well_formed(),
            final(self).limit == old(self).limit,
            old(self).readings@.is_prefix_of(final(self).readings@),
            executes(
                statement@,
                old(self)@,
                fuel as nat,
                final(self).readings@,
                flow_model(r),
                final(self)@,
            ),
        decreases fuel, 1int,
    {
        if fuel == 0 {
            let r = Err(LoxError::LimitExceeded { location: statement.location() });
            proof {
                assert forall|clock: Clock|
                    agrees(clock, self.readings@) implies #[trigger] execute(
                    statement@,
                    old(self)@,
                    clock,
                    fuel as nat,
                ) == (flow_model(r), self@) by {
                }
            }
            return r;
        }
        match statement {
            Stmt::Block { statements, .. } => self.visit_block_statement(
                statements,
                fuel,
                Ghost(statement@),
            ),
            Stmt::Expression { expression, .. } => self.visit_expression_statement(
                expression,
                fuel,
                Ghost(statement@),
            ),
            Stmt::Print { expression, .. } => self.visit_print_statement(
                expression,
                fuel,
                Ghost(statement@),
            ),
            Stmt::VariableDeclaration {
                identifier,
                expression,
                ..
            } => self.visit_variable_declaration_statement(
                identifier,
                expression,
                fuel,
                Ghost(statement@),
            ),
            Stmt::If { condition, then_branch, else_branch, .. } => self.visit_if_statement(
                condition,
                then_branch,
                else_branch,
                fuel,
                Ghost(statement@),
            ),
            Stmt::While { condition, body, .. } => self.visit_while_loop_statement(
                condition,
                body,
                fuel,
                Ghost(statement@),
            ),
            Stmt::Function { name, parameters, body, .. } => self.visit_function_statement(
                name,
                parameters,
                body,
                fuel,
                Ghost(statement@),
            ),
            Stmt::Return { value, .. } => self.visit_return_statement(
                value,
                fuel,
                Ghost(statement@),
            ),
        }
    }

    /// Runs statements one after the other, up to the first that ends with
    /// an error or a `return`.
    fn execute_all(&mut self, list: &[Stmt], fuel: u64) -> (r: LoxResult<Flow>)
        requires
            old(self).well_formed(),
        ensures
            final(self).well_formed(),
            final(self).limit == old(self).limit,
            old(self).readings@.is_prefix_of(final(self).readings@),
            forall|clock: Clock|
                agrees(clock, final(self).readings@) ==> #[trigger] execute_all(
                    statements_model(list@),
                    0,
                    old(self)@,
                    clock,
                    fuel as nat,
                ) == (flow_model(r), final(self)@),
        decreases fuel, 2int,
    {
        let mut i: usize = 0;
        while i < list.len()
            invariant
                i <= list.len(),
                self.well_formed(),
                self.limit == old(self).limit,
                old(self).readings@.is_prefix_of(self.readings@),
                forall|clock: Clock|
                    agrees(clock, self.readings@) ==> #[trigger] execute_all(
                        statements_model(list@),
                        0,
                        old(self)@,
                        clock,
                        fuel as nat,
                    ) == execute_all(statements_model(list@), i as int, self@, clock, fuel as nat),
            decreases list.len() - i,
        {
            let ghost head = self@;
            let ghost lhead = self.readings@;
            let result = self.execute_within(&list[i], fuel);
            let ghost r1 = flow_model(result);
            match result {
                Ok(Flow::Next) => {},
                other => {
                    proof {
                        assert forall|clock: Clock|
                            agrees(clock, self.readings@) implies #[trigger] execute_all(
                            statements_model(list@),
                            0,
                            old(self)@,
                            clock,
                            fuel as nat,
                        ) == (flow_model(other), self@) by {
                            lemma_agrees_with_earlier(clock, self.readings@, lhead);
                            assert(execute(
                                list[i as int]@,
                                head,
                                clock,
                                fuel as nat,
                            ) == (r1, self@));
                            assert(execute_all(
                                statements_model(list@),
                                i as int,
                                head,
                                clock,
                                fuel as nat,
                            ) == (r1, self@));
                        }
                    }
                    return other;
                },
            }
            proof {
                assert forall|clock: Clock|
                    agrees(clock, self.readings@) implies #[trigger] execute_all(
                    statements_model(list@),
                    0,
                    old(self)@,
                    clock,
                    fuel as nat,
                ) == execute_all(statements_model(list@), i + 1, self@, clock, fuel as nat) by {
                    lemma_agrees_with_earlier(clock, self.readings@, lhead);
                    assert(execute(list[i as int]@, head, clock, fuel as nat) == (r1, self@));
                    assert(execute_all(
                        statements_model(list@),
                        i as int,
                        head,
                        clock,
                        fuel as nat,
                    ) == execute_all(statements_model(list@), i + 1, self@, clock, fuel as nat));
                }
            }
            i += 1;
        }
        let r = Ok(Flow::Next);
        proof {
            assert forall|clock: Clock|
                agrees(clock, self.readings@) implies #[trigger] execute_all(
                statements_model(list@),
                0,
                old(self)@,
                clock,
                fuel as nat,
            ) == (flow_model(r), self@) by {
                assert(execute_all(
                    statements_model(list@),
                    i as int,
                    self@,
                    clock,
                    fuel as nat,
                ) == (flow_model(r), self@));
            }
        }
        r
    }

    fn block_within(&mut self, statements: &[Stmt], fuel: u64) -> (r: LoxResult<Flow>)
        requires
            old(self).well_formed(),
        ensures
            final(self).well_formed(),
            final(self).limit == old(self).limit,
            old(self).readings@.is_prefix_of(final(self).readings@),
            executes_block(
                statements_model(statements@),
                old(self)@,
                fuel as nat,
                final(self).readings@,
                flow_model(r),
                final(self)@,
            ),
        decreases fuel, 3int,
    {
        self.environment.enter();
        let ghost entered = self@;
        let flow = self.execute_all(statements, fuel);
        let ghost left = self@;
        self.environment.leave();
        proof {
            assert forall|clock: Clock|
                agrees(clock, self.readings@) implies #[trigger] execute_block(
                statements_model(statements@),
                old(self)@,
                clock,
                fuel as nat,
            ) == (flow_model(flow), self@) by {
                assert(execute_all(statements_model(statements@), 0, entered, clock, fuel as nat)
                    == (flow_model(flow), left));
            }
        }
        flow
    }

    fn visit_block_statement(
        &mut self,
        statements: &Vec<Stmt>,
        fuel: u64,
        Ghost(whole): Ghost<StmtView>,
    ) -> (r: LoxResult<Flow>)
        requires
            old(self).well_formed(),
            fuel > 0,
            whole matches StmtView::Block { statements: s, .. } && s == statements_model(
                statements@,
            ),
        ensures
            final(self).well_formed(),
            final(self).limit == old(self).limit,
            old(self).readings@.is_prefix_of(final(self).readings@),
            executes(
                whole,
                old(self)@,
                fuel as nat,
                final(self).readings@,
                flow_model(r),
                final(self)@,
            ),
        decreases fuel, 0int,
    {
        let r = self.block_within(statements.as_slice(), fuel - 1);
        proof {
            assert forall|clock: Clock| agrees(clock, self.readings@) implies #[trigger] execute(
                whole,
                old(self)@,
                clock,
                fuel as nat,
            ) == (flow_model(r), self@) by {
                assert(execute_block(
                    statements_model(statements@),
                    old(self)@,
                    clock,
                    (fuel - 1) as nat,
                ) == (flow_model(r), self@));
            }
        }
        r
    }

    fn visit_expression_statement(
        &mut self,
        expression: &Expr,
        fuel: u64,
        Ghost(whole): Ghost<StmtView>,
    ) -> (r: LoxResult<Flow>)
        requires
            old(self).well_formed(),
            fuel > 0,
            whole matches StmtView::Expression { expression: e, .. } && e == expression@,
        ensures
            final(self).well_formed(),
            final(self).limit == old(self).limit,
            old(self).readings@.is_prefix_of(final(self).readings@),
            executes(
                whole,
                old(self)@,
                fuel as nat,
                final(self).readings@,
                flow_model(r),
                final(self)@,
            ),
        decreases fuel, 0int,
    {
        let result = self.evaluate_within(expression, fuel - 1);
        let ghost value = value_model(result);
        let r = match result {
            Ok(_) => Ok(Flow::Next),
            Err(error) => Err(error),
        };
        proof {
            assert forall|clock: Clock| agrees(clock, self.readings@) implies #[trigger] execute(
                whole,
                old(self)@,
                clock,
                fuel as nat,
            ) == (flow_model(r), self@) by {
                assert(evaluate(expression@, old(self)@, clock, (fuel - 1) as nat) == (
                    value,
                    self@,
                ));
            }
        }
        r
    }

    fn visit_function_statement(
        &mut self,
        name: &Token,
        parameters: &Vec<Token>,
        body: &Stmt,
        fuel: u64,
        Ghost(whole): Ghost<StmtView>,
    ) -> (r: LoxResult<Flow>)
        requires
            old(self).well_formed(),
            fuel > 0,
            whole matches StmtView::Function { name: n, parameters: p, body: b, .. } && n == name@
                && p == tokens_model(parameters@) && *b == body@,
        ensures
            final(self).well_formed(),
            final(self).limit == old(self).limit,
            final(self).readings@ == old(self).readings@,
            executes(
                whole,
                old(self)@,
                fuel as nat,
                final(self).readings@,
                flow_model(r),
                final(self)@,
            ),
    {
        let function = LoxObject::Callable {
            function: Function::User {
                name: Box::new(name.duplicate()),
                params: crate::token::duplicate_tokens(parameters),
                body: crate::ast::function_body(body),
            },
        };
        self.environment.define(name.lexeme.clone(), function);
        let r = Ok(Flow::Next);
        proof {
            assert forall|clock: Clock| agrees(clock, self.readings@) implies #[trigger] execute(
                whole,
                old(self)@,
                clock,
                fuel as nat,
            ) == (flow_model(r), self@) by {
            }
        }
        r
    }

    fn visit_print_statement(
        &mut self,
        expression: &Expr,
        fuel: u64,
        Ghost(whole): Ghost<StmtView>,
    ) -> (r: LoxResult<Flow>)
        requires
            old(self).well_formed(),
            fuel > 0,
            whole matches StmtView::Print { expression: e, .. } && e == expression@,
        ensures
            final(self).well_formed(),
            final(self).limit == old(self).limit,
            old(self).readings@.is_prefix_of(final(self).readings@),
            executes(
                whole,
                old(self)@,
                fuel as nat,
                final(self).readings@,
                flow_model(r),
                final(self)@,
            ),
        decreases fuel, 0int,
    {
        let first = self.evaluate_within(expression, fuel - 1);
        let ghost r1 = value_model(first);
        let ghost s1 = self@;
        let r = match first {
            Ok(value) => {
                let ghost before = printed_model(self.printed@);
                let shown = value.render();
                self.printed.push(shown);
                assert(printed_model(self.printed@) =~= before.push(shown@));
                Ok(Flow::Next)
            },
            Err(error) => Err(error),
        };
        proof {
            assert forall|clock: Clock| agrees(clock, self.readings@) implies #[trigger] execute(
                whole,
                old(self)@,
                clock,
                fuel as nat,
            ) == (flow_model(r), self@) by {
                assert(evaluate(expression@, old(self)@, clock, (fuel - 1) as nat) == (r1, s1));
            }
        }
        r
    }

    fn visit_variable_declaration_statement(
        &mut self,
        identifier: &Token,
        expression: &Option<Expr>,
        fuel: u64,
        Ghost(whole): Ghost<StmtView>,
    ) -> (r: LoxResult<Flow>)
        requires
            old(self).well_formed(),
            fuel > 0,
            whole matches StmtView::VariableDeclaration { identifier: i, expression: e, .. } && i
                == identifier@ && e == match expression {
                Some(initializer) => Some(initializer@),
                None => None,
            },
        ensures
            final(self).well_formed(),
            final(self).limit == old(self).limit,
            old(self).readings@.is_prefix_of(final(self).readings@),
            executes(
                whole,
                old(self)@,
                fuel as nat,
                final(self).readings@,
                flow_model(r),
                final(self)@,
            ),
        decreases fuel, 0int,
    {
        match expression {
            Some(initializer) => {
                let first = self.evaluate_within(initializer, fuel - 1);
                let ghost r1 = value_model(first);
                let ghost s1 = self@;
                let r = match first {
                    Ok(value) => {
                        self.environment.define(identifier.lexeme.clone(), value);
                        Ok(Flow::Next)
                    },
                    Err(error) => Err(error),
                };
                proof {
                    assert forall|clock: Clock|
                        agrees(clock, self.readings@) implies #[trigger] execute(
                        whole,
                        old(self)@,
                        clock,
                        fuel as nat,
                    ) == (flow_model(r), self@) by {
                        assert(evaluate(
                            initializer@,
                            old(self)@,
                            clock,
                            (fuel - 1) as nat,
                        ) == (r1, s1));
                    }
                }
                r
            },
            None => {
                self.environment.define(
                    identifier.lexeme.clone(),
                    LoxObject::Nil { location: identifier.location },
                );
                let r = Ok(Flow::Next);
                proof {
                    assert forall|clock: Clock|
                        agrees(clock, self.readings@) implies #[trigger] execute(
                        whole,
                        old(self)@,
                        clock,
                        fuel as nat,
                    ) == (flow_model(r), self@) by {
                    }
                }
                r
            },
        }
    }

    fn visit_if_statement(
        &mut self,
        condition: &Expr,
        then_branch: &Stmt,
        else_branch: &Option<Box<Stmt>>,
        fuel: u64,
        Ghost(whole): Ghost<StmtView>,
    ) -> (r: LoxResult<Flow>)
        requires
            old(self).well_formed(),
            fuel > 0,
            whole matches StmtView::If { condition: c, then_branch: t, else_branch: e, .. } && c
                == condition@ && *t == then_branch@ && e == match else_branch {
                Some(branch) => Some(Box::new(branch@)),
                None => None,
            },
        ensures
            final(self).well_formed(),
            final(self).limit == old(self).limit,
            old(self).readings@.is_prefix_of(final(self).readings@),
            executes(
                whole,
                old(self)@,
                fuel as nat,
                final(self).readings@,
                flow_model(r),
                final(self)@,
            ),
        decreases fuel, 0int,
    {
        let first = self.evaluate_within(condition, fuel - 1);
        let ghost r1 = value_model(first);
        let ghost s1 = self@;
        let ghost l1 = self.readings@;
        let decided = match first {
            Ok(decided) => decided,
            Err(error) => {
                proof {
                    assert forall|clock: Clock|
                        agrees(clock, self.readings@) implies #[trigger] execute(
                        whole,
                        old(self)@,
                        clock,
                        fuel as nat,
                    ) == (Err::<FlowView, ErrorView>(error@), self@) by {
                        assert(evaluate(
                            condition@,
                            old(self)@,
                            clock,
                            (fuel - 1) as nat,
                        ) == (r1, s1));
                    }
                }
                return Err(error);
            },
        };
        if decided.is_truthy() {
            let r = self.execute_within(then_branch, fuel - 1);
            proof {
                assert forall|clock: Clock|
                    agrees(clock, self.readings@) implies #[trigger] execute(
                    whole,
                    old(self)@,
                    clock,
                    fuel as nat,
                ) == (flow_model(r), self@) by {
                    lemma_agrees_with_earlier(clock, self.readings@, l1);
                    assert(evaluate(condition@, old(self)@, clock, (fuel - 1) as nat) == (r1, s1));
                    assert(execute(
                        then_branch@,
                        s1,
                        clock,
                        (fuel - 1) as nat,
                    ) == (flow_model(r), self@));
                }
            }
            r
        } else {
            match else_branch {
                Some(branch) => {
                    let r = self.execute_within(branch, fuel - 1);
                    proof {
                        assert forall|clock: Clock|
                            agrees(clock, self.readings@) implies #[trigger] execute(
                            whole,
                            old(self)@,
                            clock,
                            fuel as nat,
                        ) == (flow_model(r), self@) by {
                            lemma_agrees_with_earlier(clock, self.readings@, l1);
                            assert(evaluate(
                                condition@,
                                old(self)@,
                                clock,
                                (fuel - 1) as nat,
                            ) == (r1, s1));
                            assert(execute(
                                branch@,
                                s1,
                                clock,
                                (fuel - 1) as nat,
                            ) == (flow_model(r), self@));
                        }
                    }
                    r
                },
                None => {
                    let r = Ok(Flow::Next);
                    proof {
                        assert forall|clock: Clock|
                            agrees(clock, self.readings@) implies #[trigger] execute(
                            whole,
                            old(self)@,
                            clock,
                            fuel as nat,
                        ) == (flow_model(r), self@) by {
                            assert(evaluate(
                                condition@,
                                old(self)@,
                                clock,
                                (fuel - 1) as nat,
                            ) == (r1, s1));
                        }
                    }
                    r
                },
            }
        }
    }

    fn visit_while_loop_statement(
        &mut self,
        condition: &Expr,
        body: &Stmt,
        fuel: u64,
        Ghost(whole): Ghost<StmtView>,
    ) -> (r: LoxResult<Flow>)
        requires
            old(self).well_formed(),
            fuel > 0,
            whole matches StmtView::While { condition: c, body: b, .. } && c == condition@ && *b
                == body@,
        ensures
            final(self).well_formed(),
            final(self).limit == old(self).limit,
            old(self).readings@.is_prefix_of(final(self).readings@),
            executes(
                whole,
                old(self)@,
                fuel as nat,
                final(self).readings@,
                flow_model(r),
                final(self)@,
            ),
        decreases fuel, 0int,
    {
        let mut remaining: u64 = fuel - 1;
        loop
            invariant
                remaining < fuel,
                whole matches StmtView::While { condition: c, body: b, .. } && c == condition@ && *b
                    == body@,
                self.well_formed(),
                self.limit == old(self).limit,
                old(self).readings@.is_prefix_of(self.readings@),
                forall|clock: Clock|
                    agrees(clock, self.readings@) ==> #[trigger] execute_while(
                        condition@,
                        body@,
                        old(self)@,
                        clock,
                        (fuel - 1) as nat,
                    ) == execute_while(condition@, body@, self@, clock, remaining as nat),
            decreases remaining,
        {
            let ghost head = self@;
            let ghost lhead = self.readings@;
            if remaining == 0 {
                let r = Err(LoxError::LimitExceeded { location: condition.location() });
                proof {
                    assert forall|clock: Clock|
                        agrees(clock, self.readings@) implies #[trigger] execute(
                        whole,
                        old(self)@,
                        clock,
                        fuel as nat,
                    ) == (flow_model(r), self@) by {
                        lemma_agrees_with_earlier(clock, self.readings@, lhead);
                        assert(execute_while(
                            condition@,
                            body@,
                            old(self)@,
                            clock,
                            (fuel - 1) as nat,
                        ) == execute_while(condition@, body@, head, clock, remaining as nat));
                    }
                }
                return r;
            }
            let first = self.evaluate_within(condition, remaining - 1);
            let ghost r1 = value_model(first);
            let ghost s1 = self@;
            let ghost l1 = self.readings@;
            let decided = match first {
                Ok(decided) => decided,
                Err(error) => {
                    proof {
                        assert forall|clock: Clock|
                            agrees(clock, self.readings@) implies #[trigger] execute(
                            whole,
                            old(self)@,
                            clock,
                            fuel as nat,
                        ) == (Err::<FlowView, ErrorView>(error@), self@) by {
                            lemma_agrees_with_earlier(clock, self.readings@, lhead);
                            assert(execute_while(
                                condition@,
                                body@,
                                old(self)@,
                                clock,
                                (fuel - 1) as nat,
                            ) == execute_while(condition@, body@, head, clock, remaining as nat));
                            assert(evaluate(
                                condition@,
                                head,
                                clock,
                                (remaining - 1) as nat,
                            ) == (r1, s1));
                        }
                    }
                    return Err(error);
                },
            };
            if !decided.is_truthy() {
                let r = Ok(Flow::Next);
                proof {
                    assert forall|clock: Clock|
                        agrees(clock, self.readings@) implies #[trigger] execute(
                        whole,
                        old(self)@,
                        clock,
                        fuel as nat,
                    ) == (flow_model(r), self@) by {
                        lemma_agrees_with_earlier(clock, self.readings@, lhead);
                        assert(execute_while(
                            condition@,
                            body@,
                            old(self)@,
                            clock,
                            (fuel - 1) as nat,
                        ) == execute_while(condition@, body@, head, clock, remaining as nat));
                        assert(evaluate(
                            condition@,
                            head,
                            clock,
                            (remaining - 1) as nat,
                        ) == (r1, s1));
                    }
                }
                return r;
            }
            let second = self.execute_within(body, remaining - 1);
            let ghost r2 = flow_model(second);
            match second {
                Ok(Flow::Next) => {},
                other => {
                    proof {
                        assert forall|clock: Clock|
                            agrees(clock, self.readings@) implies #[trigger] execute(
                            whole,
                            old(self)@,
                            clock,
                            fuel as nat,
                        ) == (flow_model(other), self@) by {
                            lemma_agrees_with_earlier(clock, self.readings@, lhead);
                            assert(execute_while(
                                condition@,
                                body@,
                                old(self)@,
                                clock,
                                (fuel - 1) as nat,
                            ) == execute_while(condition@, body@, head, clock, remaining as nat));
                            lemma_agrees_with_earlier(clock, self.readings@, l1);
                            assert(evaluate(
                                condition@,
                                head,
                                clock,
                                (remaining - 1) as nat,
                            ) == (r1, s1));
                            assert(execute(
                                body@,
                                s1,
                                clock,
                                (remaining - 1) as nat,
                            ) == (r2, self@));
                        }
                    }
                    return other;
                },
            }
            proof {
                assert forall|clock: Clock|
                    agrees(clock, self.readings@) implies #[trigger] execute_while(
                    condition@,
                    body@,
                    old(self)@,
                    clock,
                    (fuel - 1) as nat,
                ) == execute_while(condition@, body@, self@, clock, (remaining - 1) as nat) by {
                    lemma_agrees_with_earlier(clock, self.readings@, lhead);
                    lemma_agrees_with_earlier(clock, self.readings@, l1);
                    assert(execute_while(
                        condition@,
                        body@,
                        old(self)@,
                        clock,
                        (fuel - 1) as nat,
                    ) == execute_while(condition@, body@, head, clock, remaining as nat));
                    assert(evaluate(condition@, head, clock, (remaining - 1) as nat) == (r1, s1));
                    assert(execute(body@, s1, clock, (remaining - 1) as nat) == (r2, self@));
                }
            }
            remaining -= 1;
        }
    }

    fn visit_return_statement(
        &mut self,
        value: &Option<Expr>,
        fuel: u64,
        Ghost(whole): Ghost<StmtView>,
    ) -> (r: LoxResult<Flow>)
        requires
            old(self).well_formed(),
            fuel > 0,
            whole matches StmtView::Return { value: v, .. } && v == match value {
                Some(returned) => Some(returned@),
                None => None,
            },
        ensures
            final(self).well_formed(),
            final(self).limit == old(self).limit,
            old(self).readings@.is_prefix_of(final(self).readings@),
            executes(
                whole,
                old(self)@,
                fuel as nat,
                final(self).readings@,
                flow_model(r),
                final(self)@,
            ),
        decreases fuel, 0int,
    {
        match value {
            Some(returned) => {
                let first = self.evaluate_within(returned, fuel - 1);
                let ghost r1 = value_model(first);
                let r = match first {
                    Ok(result) => Ok(Flow::Return(result)),
                    Err(error) => Err(error),
                };
                proof {
                    assert forall|clock: Clock|
                        agrees(clock, self.readings@) implies #[trigger] execute(
                        whole,
                        old(self)@,
                        clock,
                        fuel as nat,
                    ) == (flow_model(r), self@) by {
                        assert(evaluate(
                            returned@,
                            old(self)@,
                            clock,
                            (fuel - 1) as nat,
                        ) == (r1, self@));
                    }
                }
                r
            },
            None => {
                let r = Ok(Flow::Return(LoxObject::Nil { location: SourceLocation::dummy() }));
                proof {
                    assert forall|clock: Clock|
                        agrees(clock, self.readings@) implies #[trigger] execute(
                        whole,
                        old(self)@,
                        clock,
                        fuel as nat,
                    ) == (flow_model(r), self@) by {
                    }
                }
                r
            },
        }
    }
}

} // verus!
