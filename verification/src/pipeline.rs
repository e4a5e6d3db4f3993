//! The three stages in a row, and what holds across them: the tokens of the
//! scanner are input for the parser, and the literals of a parsed program
//! are stable under printing and scanning again.

use vstd::prelude::*;
use vstd::string::*;
use crate::interpreter::{Interpreter, Machine, Reported, runs, borrowed_views};
use crate::parser::Parser;
use crate::scanner::{Scanner, LexError, error_views};
use crate::stmt::{Stmt, stmt_views};
use crate::value::{Numerics, ArithOp};
use crate::expr::{ExprView, LiteralView, literal_of};
use crate::parser::{parse, lemma_parsed_program};
use crate::scanner::{scan, scan_from, scan_step, string_step, with_item};
use crate::scanner::{eof_token, newlines, quote_at, LexErrorView};
use crate::scanner::{lemma_numeral_scans_to_one_token, lemma_quote_at_bounds};
use crate::text::quoted;
use crate::token_type::{TokenType, TokenView, is_scanned_stream};

verus! {

/// Why a program text did not run to its end.
#[derive(Debug)]
pub enum Failure {
    /// The text did not scan: all its lexical errors, in source order.
    Lexical(Vec<LexError>),
    /// The tokens did not parse: the messages of all syntax errors, one per
    /// line.
    Syntax(String),
    /// The program failed: the message of its first run-time error.
    Runtime(String),
}

/// The mathematical content of a [`Failure`].
pub enum FailureView {
    Lexical(Seq<LexErrorView>),
    Syntax(Seq<char>),
    Runtime(Seq<char>),
}

impl View for Failure {
    type V = FailureView;

    open spec fn view(&self) -> FailureView {
        match self {
            Failure::Lexical(errors) => FailureView::Lexical(error_views(errors@)),
            Failure::Syntax(message) => FailureView::Syntax(message@),
            Failure::Runtime(message) => FailureView::Runtime(message@),
        }
    }
}

/// What a run of the statements reported, where `result` is the result of
/// a program text that scanned and parsed.
pub open spec fn run_report(result: Result<(), FailureView>) -> Reported {
    match result {
        Err(FailureView::Runtime(message)) => Err(message),
        _ => Ok(()),
    }
}

/// The meaning of a program text: it is scanned, parsed and run. A text that
/// does not scan or does not parse changes nothing; a text that does is run
/// up to its first run-time error.
pub open spec fn performs<L, N, A, R>(
    source: Seq<char>,
    numerics: &Numerics<L, N, A, R>,
    before: Machine,
    after: Machine,
    result: Result<(), FailureView>,
) -> bool where
    L: Fn(&str) -> Option<u64>,
    N: Fn(u64) -> u64,
    A: Fn(ArithOp, u64, u64) -> u64,
    R: Fn(u64) -> String,
 {
    match scan(source) {
        Err(errors) => after == before && result == Err::<(), FailureView>(
            FailureView::Lexical(errors),
        ),
        Ok(tokens) => match parse(tokens) {
            Err(message) => after == before && result == Err::<(), FailureView>(
                FailureView::Syntax(message),
            ),
            Ok(stmts) => !(result matches Err(FailureView::Lexical(_))) && !(result matches Err(
                FailureView::Syntax(_),
            )) && runs(stmts, numerics, before, after, run_report(result)),
        },
    }
}

/// Scans, parses and runs the program text `source` on `interpreter`.
pub fn run<L, N, A, R>(
    source: &str,
    interpreter: &mut Interpreter,
    numerics: &Numerics<L, N, A, R>,
) -> (result: Result<(), Failure>) where
    L: Fn(&str) -> Option<u64>,
    N: Fn(u64) -> u64,
    A: Fn(ArithOp, u64, u64) -> u64,
    R: Fn(u64) -> String,

    requires
        source@.len() < usize::MAX,
        numerics.usable(),
    ensures
        performs(
            source@,
            numerics,
            old(interpreter)@,
            final(interpreter)@,
            match result {
                Ok(_) => Ok(()),
                Err(failure) => Err(failure@),
            },
        ),
{
    let mut scanner = Scanner::new(source);
    let tokens = match scanner.scan_tokens() {
        Ok(tokens) => tokens,
        Err(errors) => {
            return Err(Failure::Lexical(errors));
        },
    };
    let mut parser = Parser::new(tokens);
    let stmts = match parser.parse() {
        Ok(stmts) => stmts,
        Err(message) => {
            return Err(Failure::Syntax(message));
        },
    };
    let mut borrowed: Vec<&Stmt> = Vec::new();
    let mut i: usize = 0;
    while i < stmts.len()
        invariant
            i <= stmts.len(),
            borrowed.len() == i,
            forall|j: int| 0 <= j < i ==> *(#[trigger] borrowed@[j]) == stmts@[j],
        decreases stmts.len() - i,
    {
        borrowed.push(&stmts[i]);
        i += 1;
    }
    assert(borrowed_views(borrowed@) =~= stmt_views(stmts@));
    match interpreter.interpret(borrowed, numerics) {
        Ok(_) => Ok(()),
        Err(message) => Err(Failure::Runtime(message)),
    }
}

/// The token that the textual form of a literal value scans to.
pub open spec fn literal_token(value: LiteralView) -> TokenView {
    match value {
        LiteralView::Number(numeral) => TokenView {
            token_type: TokenType::Number,
            lexeme: numeral,
            literal: Some(value.payload()),
            line_nu: 1,
        },
        LiteralView::StringValue(text) => TokenView {
            token_type: TokenType::StringLit,
            lexeme: quoted(text),
            literal: Some(value.payload()),
            line_nu: 1 + newlines(text, 0, text.len() as int),
        },
    }
}

/// The textual form of `value` scans to exactly one token, which carries
/// the payload of `value`.
pub open spec fn scans_back(value: LiteralView) -> bool {
    scan(value.text()) == Ok::<_, Seq<LexErrorView>>(
        seq![literal_token(value), eof_token(literal_token(value).line_nu)],
    )
}

/// Every literal in the tree scans back.
pub open spec fn literals_scan_back(e: ExprView) -> bool
    decreases e,
{
    match e {
        ExprView::Binary { left, right, .. } => literals_scan_back(*left) && literals_scan_back(
            *right,
        ),
        ExprView::Unary { right, .. } => literals_scan_back(*right),
        ExprView::Grouping { expression, .. } => literals_scan_back(*expression),
        ExprView::Literal { value, .. } => scans_back(value),
        ExprView::Var { .. } => true,
    }
}

/// A window of `outer` that holds the same characters as `inner` holds the
/// same number of newlines.
proof fn lemma_newlines_in_window(outer: Seq<char>, shift: int, inner: Seq<char>, from: int)
    requires
        0 <= from <= inner.len(),
        0 <= shift,
        shift + inner.len() <= outer.len(),
        forall|i: int| 0 <= i < inner.len() ==> outer[shift + i] == inner[i],
    ensures
        newlines(outer, shift + from, shift + inner.len()) == newlines(
            inner,
            from,
            inner.len() as int,
        ),
    decreases inner.len() - from,
{
    if from < inner.len() {
        lemma_newlines_in_window(outer, shift, inner, from + 1);
    }
}

/// The value that a token's payload stands for has that payload.
pub proof fn lemma_payload_of_literal(value: LiteralView)
    ensures
        literal_of(value.payload()) == value,
        literal_of(literal_token(value).literal->Some_0) == value,
{
}

/// A well-formed literal value is stable under printing and scanning: its
/// textual form scans to exactly one token, and that token carries the same
/// value.
pub proof fn lemma_literal_scans_back(value: LiteralView)
    requires
        value.payload().well_formed(),
    ensures
        scans_back(value),
{
    match value {
        LiteralView::Number(numeral) => {
            lemma_numeral_scans_to_one_token(numeral);
        },
        LiteralView::StringValue(text) => {
            let t = quoted(text);
            let n = text.len() as int;
            assert(t.len() == n + 2);
            assert(t[0] == '"');
            assert(t[n + 1] == '"');
            assert forall|i: int| 0 <= i < n implies t[1 + i] == text[i] && t[1 + i] != '"' by {
                assert(text.contains(text[i]));
            }
            lemma_quote_at_bounds(t, 1);
            let close = quote_at(t, 1);
            assert(close == n + 1) by {
                if close < n + 1 {
                    assert(t[1 + (close - 1)] != '"');
                }
            }
            lemma_newlines_in_window(t, 1, text, 0);
            let line = 1 + newlines(text, 0, n);
            let step = scan_step(t, 0, 1);
            assert(step == string_step(t, 0, 1));
            assert(t.subrange(0, n + 2) =~= t);
            assert(t.subrange(1, n + 1) =~= text);
            let rest = scan_from(t, n + 2, line);
            assert(rest.tokens =~= seq![eof_token(line)]);
            assert(scan_from(t, 0, 1) == with_item(step.item, rest));
            assert(scan_from(t, 0, 1).tokens =~= seq![literal_token(value), eof_token(line)]);
        },
    }
}

/// Well-formed literals scan back, wherever they stand in the tree.
pub proof fn lemma_well_formed_literals_scan_back(e: ExprView)
    requires
        e.literals_well_formed(),
    ensures
        literals_scan_back(e),
    decreases e,
{
    match e {
        ExprView::Binary { left, right, .. } => {
            lemma_well_formed_literals_scan_back(*left);
            lemma_well_formed_literals_scan_back(*right);
        },
        ExprView::Unary { right, .. } => lemma_well_formed_literals_scan_back(*right),
        ExprView::Grouping { expression, .. } => lemma_well_formed_literals_scan_back(*expression),
        ExprView::Literal { value, .. } => lemma_literal_scans_back(value),
        ExprView::Var { .. } => {},
    }
}

/// Round trip: in every program that the parser yields from the tokens of
/// the scanner, the textual form of each literal scans to exactly one token,
/// and that token carries the literal's value.
pub proof fn lemma_parsed_literals_scan_back(ts: Seq<TokenView>)
    requires
        is_scanned_stream(ts),
    ensures
        parse(ts) matches Ok(stmts) ==> forall|i: int|
            0 <= i < stmts.len() ==> literals_scan_back((#[trigger] stmts[i]).expression()),
{
    lemma_parsed_program(ts);
    if let Ok(stmts) = parse(ts) {
        assert forall|i: int| 0 <= i < stmts.len() implies literals_scan_back(
            (#[trigger] stmts[i]).expression(),
        ) by {
            lemma_well_formed_literals_scan_back(stmts[i].expression());
        }
    }
}

} // verus!
