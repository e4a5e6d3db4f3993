//! The evaluator of statements: a tree walk over one environment.
//!
//! [`runs`] is the meaning of a program: how a list of statements takes the
//! machine from one state to another, and what it reports.
//! [`Interpreter::interpret`] is proved to do that. What a program prints is
//! collected line by line, for the host to emit.

use vstd::prelude::*;
use vstd::string::*;
use crate::environment::Environment;
use crate::expr::{ExprView, evaluates, resolves};
use crate::stmt::{Stmt, StmtView};
use crate::token_type::TokenView;
use crate::text::line_views;
use crate::value::{ValueView, Evaluated, evaluated, Numerics, ArithOp};

verus! {

/// The state of a run: what the variables are bound to, and the lines
/// printed so far.
pub struct Machine {
    pub bindings: Map<Seq<char>, ValueView>,
    pub printed: Seq<Seq<char>>,
}

/// What a statement or a program reports: nothing, or the message of the
/// run-time error that ended it.
pub type Reported = Result<(), Seq<char>>;

/// The view of an executable report.
pub open spec fn reported(result: Result<(), String>) -> Reported {
    match result {
        Ok(_) => Ok(()),
        Err(message) => Err(message@),
    }
}

/// `after` is `before` with one more printed line, a textual form of
/// `value`.
pub open spec fn prints<L, N, A, R>(
    numerics: &Numerics<L, N, A, R>,
    value: ValueView,
    before: Machine,
    after: Machine,
) -> bool where
    L: Fn(&str) -> Option<u64>,
    N: Fn(u64) -> u64,
    A: Fn(ArithOp, u64, u64) -> u64,
    R: Fn(u64) -> String,
 {
    exists|text: Seq<char>| #[trigger]
        numerics.renders(value, text) && after == (Machine {
            printed: before.printed.push(text),
            ..before
        })
}

/// The effect of `stmt` once its expression has evaluated to `value`: an
/// error is reported and changes nothing; otherwise an expression
/// statement discards the value, a print statement prints it, and a
/// declaration binds its name to it, in place of any earlier binding.
pub open spec fn statement_outcome<L, N, A, R>(
    numerics: &Numerics<L, N, A, R>,
    stmt: StmtView,
    value: Evaluated,
    before: Machine,
    after: Machine,
    result: Reported,
) -> bool where
    L: Fn(&str) -> Option<u64>,
    N: Fn(u64) -> u64,
    A: Fn(ArithOp, u64, u64) -> u64,
    R: Fn(u64) -> String,
 {
    match value {
        Err(message) => after == before && result == Err::<(), Seq<char>>(message),
        Ok(v) => result == Ok::<(), Seq<char>>(()) && match stmt {
            StmtView::Expression { .. } => after == before,
            StmtView::Print { .. } => prints(numerics, v, before, after),
            StmtView::Var { name, .. } => after == (Machine {
                bindings: before.bindings.insert(name.lexeme, v),
                ..before
            }),
        },
    }
}

/// The meaning of one statement: it may take the machine from `before` to
/// `after` and report `result`.
pub open spec fn executes<L, N, A, R>(
    stmt: StmtView,
    numerics: &Numerics<L, N, A, R>,
    before: Machine,
    after: Machine,
    result: Reported,
) -> bool where
    L: Fn(&str) -> Option<u64>,
    N: Fn(u64) -> u64,
    A: Fn(ArithOp, u64, u64) -> u64,
    R: Fn(u64) -> String,
 {
    exists|value: Evaluated|
        evaluates(stmt.expression(), before.bindings, numerics, value) && #[trigger] statement_outcome(
            numerics,
            stmt,
            value,
            before,
            after,
            result,
        )
}

/// The meaning of a program: the statements are executed in order, each in
/// the state that the one before it left. The first error ends the run and
/// is its report; what was printed and bound before it stays.
pub open spec fn runs<L, N, A, R>(
    stmts: Seq<StmtView>,
    numerics: &Numerics<L, N, A, R>,
    before: Machine,
    after: Machine,
    result: Reported,
) -> bool where
    L: Fn(&str) -> Option<u64>,
    N: Fn(u64) -> u64,
    A: Fn(ArithOp, u64, u64) -> u64,
    R: Fn(u64) -> String,

    decreases stmts.len(),
{
    if stmts.len() == 0 {
        after == before && result == Ok::<(), Seq<char>>(())
    } else {
        exists|middle: Machine, first: Reported| #[trigger]
            executes(stmts[0], numerics, before, middle, first) && if first is Err {
                after == middle && result == first
            } else {
                runs(stmts.skip(1), numerics, middle, after, result)
            }
    }
}

/// The views of a sequence of borrowed statements, in order.
pub open spec fn borrowed_views(stmts: Seq<&Stmt>) -> Seq<StmtView> {
    stmts.map_values(|s: &Stmt| s@)
}

/// An evaluator: one environment, which lives as long as the evaluator, and
/// the lines printed so far.
pub struct Interpreter {
    env: Environment,
    output: Vec<String>,
}

impl View for Interpreter {
    type V = Machine;

    closed spec fn view(&self) -> Machine {
        Machine { bindings: self.env@, printed: line_views(self.output@) }
    }
}

impl Interpreter {
    /// An evaluator without bindings that has printed nothing.
    pub fn new() -> (interpreter: Self)
        ensures
            interpreter@ == (Machine {
                bindings: Map::<Seq<char>, ValueView>::empty(),
                printed: Seq::<Seq<char>>::empty(),
            }),
    {
        let interpreter = Self { env: Environment::new(), output: Vec::new() };
        assert(line_views(interpreter.output@) =~= Seq::<Seq<char>>::empty());
        interpreter
    }

    /// Executes the statements in order, up to the first run-time error,
    /// which is returned.
    pub fn interpret<L, N, A, R>(&mut self, stmts: Vec<&Stmt>, numerics: &Numerics<L, N, A, R>) -> (result:
        Result<(), String>) where
        L: Fn(&str) -> Option<u64>,
        N: Fn(u64) -> u64,
        A: Fn(ArithOp, u64, u64) -> u64,
        R: Fn(u64) -> String,

        requires
            numerics.usable(),
        ensures
            runs(borrowed_views(stmts@), numerics, old(self)@, final(self)@, reported(result)),
    {
        let ghost program = borrowed_views(stmts@);
        let ghost start = self@;
        let mut i: usize = 0;
        assert(program.skip(0) =~= program);
        while i < stmts.len()
            invariant
                i <= stmts.len(),
                numerics.usable(),
                program == borrowed_views(stmts@),
                start == old(self)@,
                forall|after: Machine, result: Reported| #[trigger]
                    runs(program.skip(i as int), numerics, self@, after, result) ==> runs(
                        program,
                        numerics,
                        start,
                        after,
                        result,
                    ),
            decreases stmts.len() - i,
        {
            let ghost before = self@;
            let step = self.execute(stmts[i], numerics);
            proof {
                let rest = program.skip(i as int);
                assert(rest[0] == stmts[i as int]@);
                assert(rest.skip(1) =~= program.skip(i + 1));
                assert(executes(rest[0], numerics, before, self@, reported(step)));
            }
            match step {
                Ok(_) => {
                    assert forall|after: Machine, result: Reported| #[trigger]
                        runs(program.skip(i + 1), numerics, self@, after, result) implies runs(
                        program,
                        numerics,
                        start,
                        after,
                        result,
                    ) by {
                        assert(runs(program.skip(i as int), numerics, before, after, result));
                    }
                },
                Err(message) => {
                    assert(runs(
                        program.skip(i as int),
                        numerics,
                        before,
                        self@,
                        reported(step),
                    ));
                    return Err(message);
                },
            }
            i += 1;
        }
        assert(program.skip(i as int).len() == 0);
        assert(runs(program.skip(i as int), numerics, self@, self@, Ok::<(), Seq<char>>(())));
        Ok(())
    }

    /// Executes one statement.
    pub fn execute<L, N, A, R>(&mut self, stmt: &Stmt, numerics: &Numerics<L, N, A, R>) -> (result:
        Result<(), String>) where
        L: Fn(&str) -> Option<u64>,
        N: Fn(u64) -> u64,
        A: Fn(ArithOp, u64, u64) -> u64,
        R: Fn(u64) -> String,

        requires
            numerics.usable(),
        ensures
            executes(stmt@, numerics, old(self)@, final(self)@, reported(result)),
    {
        let ghost before = self@;
        match stmt {
            Stmt::Expression { id: _, expression } => {
                let value = expression.evaluate(&self.env, numerics);
                let result = match value {
                    Ok(_) => Ok(()),
                    Err(message) => Err(message),
                };
                assert(statement_outcome(
                    numerics,
                    stmt@,
                    evaluated(value),
                    before,
                    self@,
                    reported(result),
                ));
                result
            },
            Stmt::Print { id: _, expression } => {
                let value = expression.evaluate(&self.env, numerics);
                let result = match value {
                    Ok(shown) => {
                        let text = numerics.to_string(&shown);
                        let ghost earlier = self.output@;
                        self.output.push(text);
                        proof {
                            assert(line_views(self.output@) =~= line_views(earlier).push(text@));
                            assert(numerics.renders(shown@, text@));
                            assert(prints(numerics, shown@, before, self@));
                        }
                        Ok(())
                    },
                    Err(message) => Err(message),
                };
                assert(statement_outcome(
                    numerics,
                    stmt@,
                    evaluated(value),
                    before,
                    self@,
                    reported(result),
                ));
                result
            },
            Stmt::Var { id: _, name, initializer } => {
                let value = initializer.evaluate(&self.env, numerics);
                let result = match value {
                    Ok(bound) => {
                        self.env.define(name.lexeme.clone(), bound);
                        Ok(())
                    },
                    Err(message) => Err(message),
                };
                assert(statement_outcome(
                    numerics,
                    stmt@,
                    evaluated(value),
                    before,
                    self@,
                    reported(result),
                ));
                result
            },
        }
    }

    /// The lines printed so far, oldest first.
    pub fn output(&self) -> (lines: &Vec<String>)
        ensures
            line_views(lines@) == self@.printed,
    {
        &self.output
    }

    /// The environment.
    pub fn environment(&self) -> (env: &Environment)
        ensures
            env@ == self@.bindings,
    {
        &self.env
    }
}

/// A declaration that succeeds binds its name to a value of its
/// initializer and to nothing else, and a later reference to the name
/// resolves to that value.
pub proof fn lemma_declared_name_resolves<L, N, A, R>(
    id: nat,
    name: TokenView,
    initializer: ExprView,
    numerics: &Numerics<L, N, A, R>,
    before: Machine,
    after: Machine,
) where
    L: Fn(&str) -> Option<u64>,
    N: Fn(u64) -> u64,
    A: Fn(ArithOp, u64, u64) -> u64,
    R: Fn(u64) -> String,

    requires
        executes(
            StmtView::Var { id, name, initializer },
            numerics,
            before,
            after,
            Ok::<(), Seq<char>>(()),
        ),
    ensures
        after.printed == before.printed,
        after.bindings.contains_key(name.lexeme),
        evaluates(
            initializer,
            before.bindings,
            numerics,
            Ok::<ValueView, Seq<char>>(after.bindings[name.lexeme]),
        ),
        resolves(after.bindings, name.lexeme) == Ok::<ValueView, Seq<char>>(
            after.bindings[name.lexeme],
        ),
        forall|other: Seq<char>|
            other != name.lexeme ==> resolves(after.bindings, other) == resolves(
                before.bindings,
                other,
            ),
{
    let stmt = StmtView::Var { id, name, initializer };
    let value = choose|value: Evaluated|
        evaluates(stmt.expression(), before.bindings, numerics, value)
            && #[trigger] statement_outcome(
            numerics,
            stmt,
            value,
            before,
            after,
            Ok::<(), Seq<char>>(()),
        );
    assert(value is Ok);
}

/// No statement takes back what was printed or unbinds a name: the lines
/// printed before it are the first lines printed after it, and every name
/// bound before it is bound after it. This holds whether it succeeds or
/// fails.
pub proof fn lemma_statement_keeps<L, N, A, R>(
    stmt: StmtView,
    numerics: &Numerics<L, N, A, R>,
    before: Machine,
    after: Machine,
    result: Reported,
) where
    L: Fn(&str) -> Option<u64>,
    N: Fn(u64) -> u64,
    A: Fn(ArithOp, u64, u64) -> u64,
    R: Fn(u64) -> String,

    requires
        executes(stmt, numerics, before, after, result),
    ensures
        before.printed.is_prefix_of(after.printed),
        before.bindings.dom().subset_of(after.bindings.dom()),
        result is Err ==> after == before,
{
    let value = choose|value: Evaluated|
        evaluates(stmt.expression(), before.bindings, numerics, value)
            && #[trigger] statement_outcome(numerics, stmt, value, before, after, result);
    if value is Ok && stmt is Print {
        let text = choose|text: Seq<char>| #[trigger]
            numerics.renders(value->Ok_0, text) && after == (Machine {
                printed: before.printed.push(text),
                ..before
            });
        assert(before.printed.is_prefix_of(before.printed.push(text)));
    }
    assert(before.printed.is_prefix_of(before.printed));
}

/// No run takes back what was printed or unbinds a name, whether it
/// succeeds or fails.
pub proof fn lemma_run_keeps<L, N, A, R>(
    stmts: Seq<StmtView>,
    numerics: &Numerics<L, N, A, R>,
    before: Machine,
    after: Machine,
    result: Reported,
) where
    L: Fn(&str) -> Option<u64>,
    N: Fn(u64) -> u64,
    A: Fn(ArithOp, u64, u64) -> u64,
    R: Fn(u64) -> String,

    requires
        runs(stmts, numerics, before, after, result),
    ensures
        before.printed.is_prefix_of(after.printed),
        before.bindings.dom().subset_of(after.bindings.dom()),
    decreases stmts.len(),
{
    if stmts.len() == 0 {
        assert(before.printed.is_prefix_of(before.printed));
    } else {
        let (middle, first) = choose|middle: Machine, first: Reported| #[trigger]
            executes(stmts[0], numerics, before, middle, first) && if first is Err {
                after == middle && result == first
            } else {
                runs(stmts.skip(1), numerics, middle, after, result)
            };
        lemma_statement_keeps(stmts[0], numerics, before, middle, first);
        if first is Ok {
            lemma_run_keeps(stmts.skip(1), numerics, middle, after, result);
            assert(before.printed.is_prefix_of(after.printed)) by {
                assert(before.printed =~= middle.printed.subrange(0, before.printed.len() as int));
                assert(middle.printed =~= after.printed.subrange(0, middle.printed.len() as int));
                assert(before.printed =~= after.printed.subrange(0, before.printed.len() as int));
            }
        }
    }
}

} // verus!
