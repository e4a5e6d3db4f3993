//! The parser: tokens to statements, by recursive descent.
//!
//! The grammar, from the loosest binding to the tightest:
//!
//! ```text
//! declaration → "let" IDENTIFIER "=" expression ";" | statement
//! statement   → "println" expression ";" | expression ";"
//! expression  → equality
//! equality    → comparison (("!=" | "==") comparison)*
//! comparison  → term ((">" | ">=" | "<" | "<=") term)*
//! term        → factor (("-" | "+") factor)*
//! factor      → unary (("/" | "*") unary)*
//! unary       → ("!" | "-") unary | primary
//! primary     → IDENTIFIER | NUMBER | STRING | "(" expression ")"
//! ```
//!
//! [`parse`] is the model: one function per rule, each from a cursor in the
//! token stream to the node it reads and the cursor behind it.
//! [`Parser::parse`] is proved to return exactly what the model says.

use vstd::prelude::*;
use vstd::string::*;
use crate::expr::{Expr, ExprView, LiteralValue, literal_of};
use crate::stmt::{Stmt, StmtView, stmt_views, program_ids};
use crate::text::{decimal, push_decimal, join, join_lines, line_views};
use crate::token_type::{Token, TokenType, TokenView, token_views, is_token_stream};
use crate::token_type::is_scanned_stream;

verus! {

/// What the parser expected where it gave up.
#[derive(Debug, Copy, Clone, PartialEq, Eq, Structural)]
pub enum Expected {
    /// The name after `let`.
    VariableName,
    /// The `=` after the name of a declaration.
    Equals,
    /// The `;` that ends a declaration.
    DeclarationEnd,
    /// The `;` that ends a statement.
    StatementEnd,
    /// The `)` that closes a grouping.
    RightParen,
    /// The start of an expression.
    Expression,
}

/// The words that name an expectation.
pub open spec fn expectation(expected: Expected) -> Seq<char> {
    match expected {
        Expected::VariableName => "Expected variable name"@,
        Expected::Equals => "Expected '=' after variable name"@,
        Expected::DeclarationEnd => "Expected ';' after variable declaration"@,
        Expected::StatementEnd => "Expected ';' after expression."@,
        Expected::RightParen => "Expected ')'"@,
        Expected::Expression => "Expected expression"@,
    }
}

/// The message of a syntax error: the line of the offending token, then the
/// expectation.
pub open spec fn syntax_message(line: nat, expected: Expected) -> Seq<char> {
    "Line "@ + decimal(line) + ": "@ + expectation(expected)
}

/// A syntax error: what was expected, and the line of the token that stood
/// there instead.
#[derive(Debug, Copy, Clone, PartialEq, Eq, Structural)]
pub struct SyntaxError {
    pub line: usize,
    pub expected: Expected,
}

impl SyntaxError {
    /// The message that reports this error.
    pub fn message(&self) -> (text: String)
        ensures
            text@ == syntax_message(self.line as nat, self.expected),
    {
        let mut text = String::from_str("Line ");
        push_decimal(&mut text, self.line);
        text.append(": ");
        match self.expected {
            Expected::VariableName => text.append("Expected variable name"),
            Expected::Equals => text.append("Expected '=' after variable name"),
            Expected::DeclarationEnd => text.append("Expected ';' after variable declaration"),
            Expected::StatementEnd => text.append("Expected ';' after expression."),
            Expected::RightParen => text.append("Expected ')'"),
            Expected::Expression => text.append("Expected expression"),
        }
        text
    }
}

/// The four levels of binary operators, from the loosest binding to the
/// tightest.
#[derive(Debug, Copy, Clone, PartialEq, Eq, Structural)]
pub enum Level {
    Equality,
    Comparison,
    Term,
    Factor,
}

impl Level {
    /// How many levels bind tighter than this one.
    pub open spec fn depth(self) -> nat {
        match self {
            Level::Equality => 3,
            Level::Comparison => 2,
            Level::Term => 1,
            Level::Factor => 0,
        }
    }

    /// The next tighter level; none for factors, whose operands are unary
    /// expressions.
    pub open spec fn tighter(self) -> Option<Level> {
        match self {
            Level::Equality => Some(Level::Comparison),
            Level::Comparison => Some(Level::Term),
            Level::Term => Some(Level::Factor),
            Level::Factor => None,
        }
    }

    /// The operators of this level.
    pub open spec fn operators(self) -> Seq<TokenType> {
        match self {
            Level::Equality => seq![TokenType::BangEq, TokenType::EqEq],
            Level::Comparison => seq![
                TokenType::Greater,
                TokenType::GreaterEq,
                TokenType::Less,
                TokenType::LessEq,
            ],
            Level::Term => seq![TokenType::Plus, TokenType::Minus],
            Level::Factor => seq![TokenType::Slash, TokenType::Star],
        }
    }

    /// `kind` is an operator of this level.
    pub open spec fn binds(self, kind: TokenType) -> bool {
        self.operators().contains(kind)
    }
}

/// The state of a parse: the position of the next token, and the identity
/// that the next node gets.
pub struct Cursor {
    pub pos: int,
    pub next_id: nat,
}

/// What a rule yields: the state behind it, and the node it read or what it
/// expected at that state.
pub struct Outcome<T> {
    pub state: Cursor,
    pub result: Result<T, Expected>,
}

/// The rule read `node` and leaves the parse at `pos` with `next_id`.
pub open spec fn accepted<T>(node: T, pos: int, next_id: nat) -> Outcome<T> {
    Outcome { state: Cursor { pos, next_id }, result: Ok(node) }
}

/// The rule gave up at `state`.
pub open spec fn rejected<T>(state: Cursor, expected: Expected) -> Outcome<T> {
    Outcome { state, result: Err(expected) }
}

/// `c` with the position moved one token on.
pub open spec fn past(c: Cursor) -> Cursor {
    Cursor { pos: c.pos + 1, next_id: c.next_id }
}

/// The kind of the token at `pos`.
pub open spec fn kind_at(ts: Seq<TokenView>, pos: int) -> TokenType {
    ts[pos].token_type
}

/// A rule that started at `from` ended at `to`, further on and inside the
/// stream. In a token stream this is so after every node that a rule reads;
/// the model tests it where it goes round a loop only to make its recursion
/// well founded, and the tests never fail ([`lemma_chain_unguarded`],
/// [`lemma_fold_unguarded`], [`lemma_program_unguarded`]).
pub open spec fn moved_on(ts: Seq<TokenView>, from: Cursor, to: Cursor) -> bool {
    from.pos < to.pos < ts.len()
}

/// primary → IDENTIFIER | NUMBER | STRING | "(" expression ")"
pub open spec fn parse_primary(ts: Seq<TokenView>, c: Cursor) -> Outcome<ExprView>
    decreases ts.len() - c.pos, 0nat,
    when 0 <= c.pos < ts.len()
{
    let token = ts[c.pos];
    if token.token_type == TokenType::Identifier {
        accepted(ExprView::Var { id: c.next_id, value: token }, c.pos + 1, c.next_id + 1)
    } else if token.token_type == TokenType::LeftParen {
        let inner = parse_binary(ts, Level::Equality, past(c));
        match inner.result {
            Err(_) => inner,
            Ok(expression) => if kind_at(ts, inner.state.pos) == TokenType::RightParen {
                accepted(
                    ExprView::Grouping {
                        id: inner.state.next_id,
                        expression: Box::new(expression),
                    },
                    inner.state.pos + 1,
                    inner.state.next_id + 1,
                )
            } else {
                rejected(inner.state, Expected::RightParen)
            },
        }
    } else if token.token_type == TokenType::Number || token.token_type == TokenType::StringLit {
        accepted(
            ExprView::Literal { id: c.next_id, value: literal_of(token.literal->Some_0) },
            c.pos + 1,
            c.next_id + 1,
        )
    } else {
        rejected(c, Expected::Expression)
    }
}

/// unary → ("!" | "-") unary | primary
pub open spec fn parse_unary(ts: Seq<TokenView>, c: Cursor) -> Outcome<ExprView>
    decreases ts.len() - c.pos, 1nat,
    when 0 <= c.pos < ts.len()
{
    let operator = ts[c.pos];
    if operator.token_type == TokenType::Bang || operator.token_type == TokenType::Minus {
        let operand = parse_unary(ts, past(c));
        match operand.result {
            Err(_) => operand,
            Ok(right) => accepted(
                ExprView::Unary { id: operand.state.next_id, operator, right: Box::new(right) },
                operand.state.pos,
                operand.state.next_id + 1,
            ),
        }
    } else {
        parse_primary(ts, c)
    }
}

/// One operand of a binary operator of `level`: an expression of the next
/// tighter level.
pub open spec fn parse_operand(ts: Seq<TokenView>, level: Level, c: Cursor) -> Outcome<ExprView>
    decreases ts.len() - c.pos, 3 * level.depth() + 2,
    when 0 <= c.pos < ts.len()
{
    match level.tighter() {
        Some(next) => parse_binary(ts, next, c),
        None => parse_unary(ts, c),
    }
}

/// level → operand (operator operand)*, a chain that nests to the left.
pub open spec fn parse_binary(ts: Seq<TokenView>, level: Level, c: Cursor) -> Outcome<ExprView>
    decreases ts.len() - c.pos, 3 * level.depth() + 4,
    when 0 <= c.pos < ts.len()
{
    let first = parse_operand(ts, level, c);
    match first.result {
        Err(_) => first,
        Ok(left) => if moved_on(ts, c, first.state) {
            fold_binary(ts, level, left, first.state)
        } else {
            first
        },
    }
}

/// The rest of a chain of `level` whose operands so far make up `left`.
pub open spec fn fold_binary(ts: Seq<TokenView>, level: Level, left: ExprView, c: Cursor) -> Outcome<
    ExprView,
>
    decreases ts.len() - c.pos, 3 * level.depth() + 3,
    when 0 <= c.pos < ts.len()
{
    let operator = ts[c.pos];
    if level.binds(operator.token_type) {
        let operand = parse_operand(ts, level, past(c));
        match operand.result {
            Err(_) => operand,
            Ok(right) => if moved_on(ts, c, operand.state) {
                fold_binary(
                    ts,
                    level,
                    ExprView::Binary {
                        id: operand.state.next_id,
                        left: Box::new(left),
                        operator,
                        right: Box::new(right),
                    },
                    Cursor { pos: operand.state.pos, next_id: operand.state.next_id + 1 },
                )
            } else {
                operand
            },
        }
    } else {
        accepted(left, c.pos, c.next_id)
    }
}

/// expression → equality
pub open spec fn parse_expression(ts: Seq<TokenView>, c: Cursor) -> Outcome<ExprView> {
    parse_binary(ts, Level::Equality, c)
}

/// An expression and the `;` behind it; `missing` is what is expected where
/// the `;` is not there.
pub open spec fn parse_terminated(ts: Seq<TokenView>, c: Cursor, missing: Expected) -> Outcome<
    ExprView,
> {
    let parsed = parse_expression(ts, c);
    match parsed.result {
        Err(_) => parsed,
        Ok(expression) => if kind_at(ts, parsed.state.pos) == TokenType::Semicolon {
            accepted(expression, parsed.state.pos + 1, parsed.state.next_id)
        } else {
            rejected(parsed.state, missing)
        },
    }
}

/// What follows `println`: expression ";"
pub open spec fn parse_print(ts: Seq<TokenView>, c: Cursor) -> Outcome<StmtView> {
    let body = parse_terminated(ts, c, Expected::StatementEnd);
    match body.result {
        Err(expected) => rejected(body.state, expected),
        Ok(expression) => accepted(
            StmtView::Print { id: body.state.next_id, expression },
            body.state.pos,
            body.state.next_id + 1,
        ),
    }
}

/// An expression statement: expression ";"
pub open spec fn parse_expression_statement(ts: Seq<TokenView>, c: Cursor) -> Outcome<StmtView> {
    let body = parse_terminated(ts, c, Expected::StatementEnd);
    match body.result {
        Err(expected) => rejected(body.state, expected),
        Ok(expression) => accepted(
            StmtView::Expression { id: body.state.next_id, expression },
            body.state.pos,
            body.state.next_id + 1,
        ),
    }
}

/// statement → "println" expression ";" | expression ";"
pub open spec fn parse_statement(ts: Seq<TokenView>, c: Cursor) -> Outcome<StmtView> {
    if kind_at(ts, c.pos) == TokenType::Println {
        parse_print(ts, past(c))
    } else {
        parse_expression_statement(ts, c)
    }
}

/// What follows `let`: IDENTIFIER "=" expression ";"
pub open spec fn parse_var_declaration(ts: Seq<TokenView>, c: Cursor) -> Outcome<StmtView> {
    if kind_at(ts, c.pos) != TokenType::Identifier {
        rejected(c, Expected::VariableName)
    } else if kind_at(ts, c.pos + 1) != TokenType::Eq {
        rejected(past(c), Expected::Equals)
    } else {
        let body = parse_terminated(ts, past(past(c)), Expected::DeclarationEnd);
        match body.result {
            Err(expected) => rejected(body.state, expected),
            Ok(initializer) => accepted(
                StmtView::Var { id: body.state.next_id, name: ts[c.pos], initializer },
                body.state.pos,
                body.state.next_id + 1,
            ),
        }
    }
}

/// declaration → "let" IDENTIFIER "=" expression ";" | statement
pub open spec fn parse_declaration(ts: Seq<TokenView>, c: Cursor) -> Outcome<StmtView> {
    if kind_at(ts, c.pos) == TokenType::Let {
        parse_var_declaration(ts, past(c))
    } else {
        parse_statement(ts, c)
    }
}

/// The first position at or after `pos` where a declaration may start again:
/// behind a `;`, at `let` or `println`, or at the end of input.
pub open spec fn boundary(ts: Seq<TokenView>, pos: int) -> int
    decreases ts.len() - pos,
{
    if 0 < pos < ts.len() && kind_at(ts, pos) != TokenType::Eof && kind_at(ts, pos - 1)
        != TokenType::Semicolon && kind_at(ts, pos) != TokenType::Let && kind_at(ts, pos)
        != TokenType::Println {
        boundary(ts, pos + 1)
    } else {
        pos
    }
}

/// Where parsing resumes after an error at `pos`: the offending token is
/// skipped (unless it is the end of input), and then every token up to the
/// next boundary.
pub open spec fn synchronize(ts: Seq<TokenView>, pos: int) -> int {
    if kind_at(ts, pos) == TokenType::Eof {
        pos
    } else {
        boundary(ts, pos + 1)
    }
}

/// The statements and the error messages of a token stream, each in source
/// order.
pub struct Program {
    pub statements: Seq<StmtView>,
    pub errors: Seq<Seq<char>>,
}

/// Declaration after declaration from `c` to the end of input. An error is
/// collected and parsing resumes at the next boundary.
pub open spec fn parse_program(ts: Seq<TokenView>, c: Cursor) -> Program
    decreases ts.len() - c.pos,
    when 0 <= c.pos < ts.len()
{
    if kind_at(ts, c.pos) == TokenType::Eof {
        Program { statements: Seq::empty(), errors: Seq::empty() }
    } else {
        let declaration = parse_declaration(ts, c);
        match declaration.result {
            Ok(statement) => {
                let rest = if moved_on(ts, c, declaration.state) {
                    parse_program(ts, declaration.state)
                } else {
                    Program { statements: Seq::empty(), errors: Seq::empty() }
                };
                Program { statements: seq![statement] + rest.statements, errors: rest.errors }
            },
            Err(expected) => {
                let at = declaration.state;
                let resume = Cursor { pos: synchronize(ts, at.pos), next_id: at.next_id };
                let rest = if moved_on(ts, c, resume) {
                    parse_program(ts, resume)
                } else {
                    Program { statements: Seq::empty(), errors: Seq::empty() }
                };
                Program {
                    statements: rest.statements,
                    errors: seq![syntax_message(ts[at.pos].line_nu, expected)] + rest.errors,
                }
            },
        }
    }
}

/// What parsing the token stream `ts` yields: its statements, or, if any
/// syntax error occurred, the messages of all of them, one per line.
pub open spec fn parse(ts: Seq<TokenView>) -> Result<Seq<StmtView>, Seq<char>> {
    let program = parse_program(ts, Cursor { pos: 0, next_id: 0 });
    if program.errors.len() == 0 {
        Ok(program.statements)
    } else {
        Err(join_lines(program.errors))
    }
}

/// A parser over one token stream.
pub struct Parser {
    tokens: Vec<Token>,
    current: usize,
    next_id: usize,
}

impl Parser {
    /// The token stream.
    pub closed spec fn stream(&self) -> Seq<TokenView> {
        token_views(self.tokens@)
    }

    /// The state of the parse.
    pub closed spec fn cursor(&self) -> Cursor {
        Cursor { pos: self.current as int, next_id: self.next_id as nat }
    }

    /// The invariant of a parser: its tokens form a token stream, its cursor
    /// stands on one of them, and it has given out no more identities than it
    /// has passed tokens.
    pub closed spec fn well_formed(&self) -> bool {
        &&& is_token_stream(token_views(self.tokens@))
        &&& self.current < self.tokens.len()
        &&& self.next_id <= self.current
    }

    /// `self` is what a rule with the outcome `outcome` makes of `before`,
    /// and `result` is that outcome.
    spec fn follows<T: View>(
        &self,
        before: &Parser,
        result: Result<T, SyntaxError>,
        outcome: Outcome<T::V>,
    ) -> bool {
        &&& self.well_formed()
        &&& self.tokens == before.tokens
        &&& self.cursor() == outcome.state
        &&& self.current >= before.current
        &&& self.next_id >= before.next_id
        &&& self.next_id - before.next_id <= self.current - before.current
        &&& match result {
            Ok(node) => outcome.result == Ok::<T::V, Expected>(node@) && self.current
                > before.current,
            Err(error) => outcome.result == Err::<T::V, Expected>(error.expected) && error.line
                == self.tokens[self.current as int].line_nu,
        }
    }

    /// Whether `tokens` can be parsed: whether they form a token stream.
    pub fn accepts(tokens: &Vec<Token>) -> (ok: bool)
        ensures
            ok == is_token_stream(token_views(tokens@)),
    {
        let ghost ts = token_views(tokens@);
        if tokens.len() == 0 {
            return false;
        }
        if tokens[tokens.len() - 1].token_type != TokenType::Eof {
            return false;
        }
        let mut i: usize = 0;
        while i < tokens.len()
            invariant
                i <= tokens.len(),
                ts == token_views(tokens@),
                forall|j: int| 0 <= j < i ==> (#[trigger] ts[j]).carries_payload(),
            decreases tokens.len() - i,
        {
            let carries = match tokens[i].token_type {
                TokenType::Number => match &tokens[i].literal {
                    Some(crate::token_type::LiteralValue::NumberValue(_)) => true,
                    _ => false,
                },
                TokenType::StringLit => match &tokens[i].literal {
                    Some(crate::token_type::LiteralValue::StringValue(_)) => true,
                    _ => false,
                },
                _ => true,
            };
            assert(carries == ts[i as int].carries_payload());
            if !carries {
                return false;
            }
            i += 1;
        }
        true
    }

    /// A parser at the start of `tokens`.
    pub fn new(tokens: Vec<Token>) -> (parser: Self)
        requires
            is_token_stream(token_views(tokens@)),
        ensures
            parser.well_formed(),
            parser.stream() == token_views(tokens@),
    {
        Self { tokens, current: 0, next_id: 0 }
    }

    /// Parses the whole stream from its start. Returns the statements, or,
    /// if any syntax error occurred, the messages of all of them, one per
    /// line.
    pub fn parse(&mut self) -> (result: Result<Vec<Stmt>, String>)
        requires
            old(self).well_formed(),
        ensures
            final(self).well_formed(),
            final(self).stream() == old(self).stream(),
            match result {
                Ok(stmts) => parse(old(self).stream()) == Ok::<_, Seq<char>>(stmt_views(stmts@)),
                Err(message) => parse(old(self).stream()) == Err::<Seq<StmtView>, _>(message@),
            },
    {
        let mut stmts: Vec<Stmt> = Vec::new();
        let mut errors: Vec<String> = Vec::new();
        self.current = 0;
        self.next_id = 0;
        let ghost ts = self.stream();
        let ghost whole = parse_program(ts, Cursor { pos: 0, next_id: 0 });
        assert(stmt_views(stmts@) + whole.statements =~= whole.statements);
        assert(line_views(errors@) + whole.errors =~= whole.errors);
        while !self.is_at_end()
            invariant
                self.well_formed(),
                self.stream() == ts,
                whole.statements == stmt_views(stmts@) + parse_program(
                    ts,
                    self.cursor(),
                ).statements,
                whole.errors == line_views(errors@) + parse_program(ts, self.cursor()).errors,
            decreases self.tokens.len() - self.current,
        {
            let ghost earlier_stmts = stmts@;
            let ghost earlier_errors = errors@;
            let ghost declaration = parse_declaration(ts, self.cursor());
            match self.declaration() {
                Ok(stmt) => {
                    stmts.push(stmt);
                    proof {
                        let rest = parse_program(ts, self.cursor());
                        assert(stmt_views(stmts@) =~= stmt_views(earlier_stmts).push(stmt@));
                        assert(stmt_views(stmts@) + rest.statements =~= stmt_views(earlier_stmts)
                            + (seq![stmt@] + rest.statements));
                    }
                },
                Err(e) => {
                    let message = e.message();
                    errors.push(message);
                    self.synchronize();
                    proof {
                        let rest = parse_program(ts, self.cursor());
                        let shown = syntax_message(
                            ts[declaration.state.pos].line_nu,
                            e.expected,
                        );
                        assert(message@ == shown);
                        assert(line_views(errors@) =~= line_views(earlier_errors).push(shown));
                        assert(line_views(errors@) + rest.errors =~= line_views(earlier_errors) + (
                        seq![shown] + rest.errors));
                    }
                },
            }
        }
        assert(stmt_views(stmts@) =~= whole.statements);
        assert(line_views(errors@) =~= whole.errors);
        if errors.len() == 0 {
            Ok(stmts)
        } else {
            Err(join(&errors))
        }
    }

    fn declaration(&mut self) -> (result: Result<Stmt, SyntaxError>)
        requires
            old(self).well_formed(),
        ensures
            final(self).follows(
                old(self),
                result,
                parse_declaration(old(self).stream(), old(self).cursor()),
            ),
    {
        if self.match_token(TokenType::Let) {
            self.var_declaration()
        } else {
            self.statement()
        }
    }

    fn var_declaration(&mut self) -> (result: Result<Stmt, SyntaxError>)
        requires
            old(self).well_formed(),
        ensures
            final(self).follows(
                old(self),
                result,
                parse_var_declaration(old(self).stream(), old(self).cursor()),
            ),
    {
        let token = self.consume(TokenType::Identifier, Expected::VariableName)?;
        let initializer;
        if self.match_token(TokenType::Eq) {
            initializer = self.expression()?;
        } else {
            return Err(SyntaxError { line: self.peek().line_nu, expected: Expected::Equals });
        }
        self.consume(TokenType::Semicolon, Expected::DeclarationEnd)?;
        let id = self.get_id();
        Ok(Stmt::Var { id, name: token, initializer })
    }

    fn statement(&mut self) -> (result: Result<Stmt, SyntaxError>)
        requires
            old(self).well_formed(),
        ensures
            final(self).follows(
                old(self),
                result,
                parse_statement(old(self).stream(), old(self).cursor()),
            ),
    {
        if self.match_token(TokenType::Println) {
            self.expression_print()
        } else {
            self.expression_statement()
        }
    }

    fn expression_print(&mut self) -> (result: Result<Stmt, SyntaxError>)
        requires
            old(self).well_formed(),
        ensures
            final(self).follows(
                old(self),
                result,
                parse_print(old(self).stream(), old(self).cursor()),
            ),
    {
        let expr = self.expression()?;
        self.consume(TokenType::Semicolon, Expected::StatementEnd)?;
        let id = self.get_id();
        Ok(Stmt::Print { id, expression: expr })
    }

    fn expression_statement(&mut self) -> (result: Result<Stmt, SyntaxError>)
        requires
            old(self).well_formed(),
        ensures
            final(self).follows(
                old(self),
                result,
                parse_expression_statement(old(self).stream(), old(self).cursor()),
            ),
    {
        let expr = self.expression()?;
        self.consume(TokenType::Semicolon, Expected::StatementEnd)?;
        let id = self.get_id();
        Ok(Stmt::Expression { id, expression: expr })
    }

    /// Skips to where a declaration may start again.
    fn synchronize(&mut self)
        requires
            old(self).well_formed(),
            old(self).current > 0 || kind_at(old(self).stream(), old(self).current as int)
                != TokenType::Eof,
        ensures
            final(self).well_formed(),
            final(self).tokens == old(self).tokens,
            final(self).next_id == old(self).next_id,
            final(self).current == synchronize(old(self).stream(), old(self).current as int),
            final(self).current >= old(self).current,
            kind_at(old(self).stream(), old(self).current as int) != TokenType::Eof
                ==> final(self).current > old(self).current,
    {
        let ghost ts = self.stream();
        let ghost start = self.current;
        self.advance();
        while !self.is_at_end()
            invariant
                self.well_formed(),
                self.tokens == old(self).tokens,
                self.next_id == old(self).next_id,
                ts == self.stream(),
                start == old(self).current,
                self.current >= start,
                kind_at(ts, start as int) != TokenType::Eof ==> self.current > start,
                self.current > 0 || kind_at(ts, self.current as int) == TokenType::Eof,
                boundary(ts, self.current as int) == synchronize(ts, start as int),
            decreases self.tokens.len() - self.current,
        {
            if self.previous().token_type == TokenType::Semicolon {
                return ;
            }
            match self.peek().token_type {
                TokenType::Let => return ,
                TokenType::Println => return ,
                _ => (),
            }
            self.advance();
        }
    }

    fn expression(&mut self) -> (result: Result<Expr, SyntaxError>)
        requires
            old(self).well_formed(),
        ensures
            final(self).follows(
                old(self),
                result,
                parse_expression(old(self).stream(), old(self).cursor()),
            ),
        decreases old(self).tokens.len() - old(self).current, 14nat,
    {
        self.equality()
    }

    fn equality(&mut self) -> (result: Result<Expr, SyntaxError>)
        requires
            old(self).well_formed(),
        ensures
            final(self).follows(
                old(self),
                result,
                parse_binary(old(self).stream(), Level::Equality, old(self).cursor()),
            ),
        decreases old(self).tokens.len() - old(self).current, 13nat,
    {
        let mut expr: Expr = self.comparison()?;
        loop
            invariant
                self.follows(
                    old(self),
                    Ok::<Expr, SyntaxError>(expr),
                    accepted(expr@, self.current as int, self.next_id as nat),
                ),
                parse_binary(old(self).stream(), Level::Equality, old(self).cursor())
                    == fold_binary(self.stream(), Level::Equality, expr@, self.cursor()),
            ensures
                self.follows(
                    old(self),
                    Ok::<Expr, SyntaxError>(expr),
                    parse_binary(old(self).stream(), Level::Equality, old(self).cursor()),
                ),
            decreases self.tokens.len() - self.current,
        {
            let kinds = [TokenType::BangEq, TokenType::EqEq];
            assert(kinds@ =~= Level::Equality.operators());
            let ghost left = expr@;
            let ghost at = self.cursor();
            if !self.match_tokens(&kinds) {
                break ;
            }
            let operator = self.previous();
            proof {
                let operand = parse_operand(self.stream(), Level::Equality, self.cursor());
                assert(self.cursor() == past(at));
                assert(operand == parse_binary(self.stream(), Level::Comparison, self.cursor()));
                assert(fold_binary(self.stream(), Level::Equality, left, at) == match operand.result {
                    Err(_) => operand,
                    Ok(right) => if moved_on(self.stream(), at, operand.state) {
                        fold_binary(
                            self.stream(),
                            Level::Equality,
                            ExprView::Binary {
                                id: operand.state.next_id,
                                left: Box::new(left),
                                operator: self.stream()[at.pos],
                                right: Box::new(right),
                            },
                            Cursor { pos: operand.state.pos, next_id: operand.state.next_id + 1 },
                        )
                    } else {
                        operand
                    },
                });
            }
            let rhs = self.comparison()?;
            let id = self.get_id();
            expr = Expr::Binary { id, left: Box::new(expr), operator, right: Box::new(rhs) };
        }
        Ok(expr)
    }

    fn comparison(&mut self) -> (result: Result<Expr, SyntaxError>)
        requires
            old(self).well_formed(),
        ensures
            final(self).follows(
                old(self),
                result,
                parse_binary(old(self).stream(), Level::Comparison, old(self).cursor()),
            ),
        decreases old(self).tokens.len() - old(self).current, 10nat,
    {
        let mut expr: Expr = self.term()?;
        loop
            invariant
                self.follows(
                    old(self),
                    Ok::<Expr, SyntaxError>(expr),
                    accepted(expr@, self.current as int, self.next_id as nat),
                ),
                parse_binary(old(self).stream(), Level::Comparison, old(self).cursor())
                    == fold_binary(self.stream(), Level::Comparison, expr@, self.cursor()),
            ensures
                self.follows(
                    old(self),
                    Ok::<Expr, SyntaxError>(expr),
                    parse_binary(old(self).stream(), Level::Comparison, old(self).cursor()),
                ),
            decreases self.tokens.len() - self.current,
        {
            let kinds = [TokenType::Greater, TokenType::GreaterEq, TokenType::Less, TokenType::LessEq];
            assert(kinds@ =~= Level::Comparison.operators());
            let ghost left = expr@;
            let ghost at = self.cursor();
            if !self.match_tokens(&kinds) {
                break ;
            }
            let operator = self.previous();
            proof {
                let operand = parse_operand(self.stream(), Level::Comparison, self.cursor());
                assert(self.cursor() == past(at));
                assert(operand == parse_binary(self.stream(), Level::Term, self.cursor()));
                assert(fold_binary(self.stream(), Level::Comparison, left, at) == match operand.result {
                    Err(_) => operand,
                    Ok(right) => if moved_on(self.stream(), at, operand.state) {
                        fold_binary(
                            self.stream(),
                            Level::Comparison,
                            ExprView::Binary {
                                id: operand.state.next_id,
                                left: Box::new(left),
                                operator: self.stream()[at.pos],
                                right: Box::new(right),
                            },
                            Cursor { pos: operand.state.pos, next_id: operand.state.next_id + 1 },
                        )
                    } else {
                        operand
                    },
                });
            }
            let rhs = self.term()?;
            let id = self.get_id();
            expr = Expr::Binary { id, left: Box::new(expr), operator, right: Box::new(rhs) };
        }
        Ok(expr)
    }

    fn term(&mut self) -> (result: Result<Expr, SyntaxError>)
        requires
            old(self).well_formed(),
        ensures
            final(self).follows(
                old(self),
                result,
                parse_binary(old(self).stream(), Level::Term, old(self).cursor()),
            ),
        decreases old(self).tokens.len() - old(self).current, 7nat,
    {
        let mut expr: Expr = self.factor()?;
        loop
            invariant
                self.follows(
                    old(self),
                    Ok::<Expr, SyntaxError>(expr),
                    accepted(expr@, self.current as int, self.next_id as nat),
                ),
                parse_binary(old(self).stream(), Level::Term, old(self).cursor())
                    == fold_binary(self.stream(), Level::Term, expr@, self.cursor()),
            ensures
                self.follows(
                    old(self),
                    Ok::<Expr, SyntaxError>(expr),
                    parse_binary(old(self).stream(), Level::Term, old(self).cursor()),
                ),
            decreases self.tokens.len() - self.current,
        {
            let kinds = [TokenType::Plus, TokenType::Minus];
            assert(kinds@ =~= Level::Term.operators());
            let ghost left = expr@;
            let ghost at = self.cursor();
            if !self.match_tokens(&kinds) {
                break ;
            }
            let operator = self.previous();
            proof {
                let operand = parse_operand(self.stream(), Level::Term, self.cursor());
                assert(self.cursor() == past(at));
                assert(operand == parse_binary(self.stream(), Level::Factor, self.cursor()));
                assert(fold_binary(self.stream(), Level::Term, left, at) == match operand.result {
                    Err(_) => operand,
                    Ok(right) => if moved_on(self.stream(), at, operand.state) {
                        fold_binary(
                            self.stream(),
                            Level::Term,
                            ExprView::Binary {
                                id: operand.state.next_id,
                                left: Box::new(left),
                                operator: self.stream()[at.pos],
                                right: Box::new(right),
                            },
                            Cursor { pos: operand.state.pos, next_id: operand.state.next_id + 1 },
                        )
                    } else {
                        operand
                    },
                });
            }
            let rhs = self.factor()?;
            let id = self.get_id();
            expr = Expr::Binary { id, left: Box::new(expr), operator, right: Box::new(rhs) };
        }
        Ok(expr)
    }

    fn factor(&mut self) -> (result: Result<Expr, SyntaxError>)
        requires
            old(self).well_formed(),
        ensures
            final(self).follows(
                old(self),
                result,
                parse_binary(old(self).stream(), Level::Factor, old(self).cursor()),
            ),
        decreases old(self).tokens.len() - old(self).current, 4nat,
    {
        let mut expr: Expr = self.unary()?;
        loop
            invariant
                self.follows(
                    old(self),
                    Ok::<Expr, SyntaxError>(expr),
                    accepted(expr@, self.current as int, self.next_id as nat),
                ),
                parse_binary(old(self).stream(), Level::Factor, old(self).cursor())
                    == fold_binary(self.stream(), Level::Factor, expr@, self.cursor()),
            ensures
                self.follows(
                    old(self),
                    Ok::<Expr, SyntaxError>(expr),
                    parse_binary(old(self).stream(), Level::Factor, old(self).cursor()),
                ),
            decreases self.tokens.len() - self.current,
        {
            let kinds = [TokenType::Slash, TokenType::Star];
            assert(kinds@ =~= Level::Factor.operators());
            let ghost left = expr@;
            let ghost at = self.cursor();
            if !self.match_tokens(&kinds) {
                break ;
            }
            let operator = self.previous();
            proof {
                let operand = parse_operand(self.stream(), Level::Factor, self.cursor());
                assert(self.cursor() == past(at));
                assert(operand == parse_unary(self.stream(), self.cursor()));
                assert(fold_binary(self.stream(), Level::Factor, left, at) == match operand.result {
                    Err(_) => operand,
                    Ok(right) => if moved_on(self.stream(), at, operand.state) {
                        fold_binary(
                            self.stream(),
                            Level::Factor,
                            ExprView::Binary {
                                id: operand.state.next_id,
                                left: Box::new(left),
                                operator: self.stream()[at.pos],
                                right: Box::new(right),
                            },
                            Cursor { pos: operand.state.pos, next_id: operand.state.next_id + 1 },
                        )
                    } else {
                        operand
                    },
                });
            }
            let rhs = self.unary()?;
            let id = self.get_id();
            expr = Expr::Binary { id, left: Box::new(expr), operator, right: Box::new(rhs) };
        }
        Ok(expr)
    }

    fn unary(&mut self) -> (result: Result<Expr, SyntaxError>)
        requires
            old(self).well_formed(),
        ensures
            final(self).follows(
                old(self),
                result,
                parse_unary(old(self).stream(), old(self).cursor()),
            ),
        decreases old(self).tokens.len() - old(self).current, 1nat,
    {
        let kinds = [TokenType::Bang, TokenType::Minus];
        assert(kinds@ =~= seq![TokenType::Bang, TokenType::Minus]);
        if self.match_tokens(&kinds) {
            let op = self.previous();
            let rhs = self.unary()?;
            let id = self.get_id();
            Ok(Expr::Unary { id, operator: op, right: Box::new(rhs) })
        } else {
            self.primary()
        }
    }

    fn primary(&mut self) -> (result: Result<Expr, SyntaxError>)
        requires
            old(self).well_formed(),
        ensures
            final(self).follows(
                old(self),
                result,
                parse_primary(old(self).stream(), old(self).cursor()),
            ),
        decreases old(self).tokens.len() - old(self).current, 0nat,
    {
        let token = self.peek();
        let result;
        match token.token_type {
            TokenType::Identifier => {
                self.advance();
                let id = self.get_id();
                result = Expr::Var { id, value: self.previous() };
            },
            TokenType::LeftParen => {
                self.advance();
                let expr = self.expression()?;
                self.consume(TokenType::RightParen, Expected::RightParen)?;
                let id = self.get_id();
                result = Expr::Grouping { id, expression: Box::new(expr) };
            },
            TokenType::Number | TokenType::StringLit => {
                self.advance();
                let id = self.get_id();
                result = Expr::Literal { id, value: LiteralValue::from_token(token) };
            },
            _ => return Err(SyntaxError { line: token.line_nu, expected: Expected::Expression }),
        }
        Ok(result)
    }

    fn peek(&self) -> (token: Token)
        requires
            self.well_formed(),
        ensures
            token == self.tokens[self.current as int],
    {
        self.tokens[self.current].clone()
    }

    fn previous(&self) -> (token: Token)
        requires
            self.well_formed(),
            self.current > 0,
        ensures
            token == self.tokens[self.current - 1],
    {
        self.tokens[self.current - 1].clone()
    }

    fn is_at_end(&self) -> (at_end: bool)
        requires
            self.well_formed(),
        ensures
            at_end == (kind_at(self.stream(), self.current as int) == TokenType::Eof),
    {
        self.peek().token_type == TokenType::Eof
    }

    fn advance(&mut self) -> (token: Token)
        requires
            old(self).well_formed(),
            old(self).current > 0 || kind_at(old(self).stream(), old(self).current as int)
                != TokenType::Eof,
        ensures
            final(self).well_formed(),
            *final(self) == (Parser {
                current: if kind_at(old(self).stream(), old(self).current as int)
                    == TokenType::Eof {
                    old(self).current
                } else {
                    (old(self).current + 1) as usize
                },
                ..*old(self)
            }),
            token == final(self).tokens[final(self).current - 1],
    {
        if !self.is_at_end() {
            self.current += 1;
        }
        self.previous()
    }

    fn match_tokens(&mut self, typs: &[TokenType]) -> (matched: bool)
        requires
            old(self).well_formed(),
            !typs@.contains(TokenType::Eof),
        ensures
            final(self).well_formed(),
            matched == typs@.contains(kind_at(old(self).stream(), old(self).current as int)),
            *final(self) == (Parser {
                current: if matched {
                    (old(self).current + 1) as usize
                } else {
                    old(self).current
                },
                ..*old(self)
            }),
    {
        let mut i: usize = 0;
        while i < typs.len()
            invariant
                i <= typs.len(),
                !typs@.contains(TokenType::Eof),
                *self == *old(self),
                self.well_formed(),
                forall|j: int|
                    0 <= j < i ==> typs@[j] != kind_at(self.stream(), self.current as int),
            decreases typs.len() - i,
        {
            assert(typs@[i as int] != TokenType::Eof) by {
                if typs@[i as int] == TokenType::Eof {
                    assert(typs@.contains(TokenType::Eof));
                }
            }
            if self.match_token(typs[i]) {
                return true;
            }
            i += 1;
        }
        false
    }

    fn check(&self, typ: TokenType) -> (same: bool)
        requires
            self.well_formed(),
        ensures
            same == (kind_at(self.stream(), self.current as int) == typ),
    {
        self.peek().token_type == typ
    }

    fn match_token(&mut self, typ: TokenType) -> (matched: bool)
        requires
            old(self).well_formed(),
        ensures
            final(self).well_formed(),
            matched == (kind_at(old(self).stream(), old(self).current as int) == typ && typ
                != TokenType::Eof),
            *final(self) == (Parser {
                current: if matched {
                    (old(self).current + 1) as usize
                } else {
                    old(self).current
                },
                ..*old(self)
            }),
    {
        if self.is_at_end() {
            false
        } else {
            if self.check(typ) {
                self.advance();
                true
            } else {
                false
            }
        }
    }

    fn get_id(&mut self) -> (id: usize)
        requires
            old(self).next_id < usize::MAX,
        ensures
            id == old(self).next_id,
            *final(self) == (Parser { next_id: (old(self).next_id + 1) as usize, ..*old(self) }),
    {
        let id = self.next_id;
        self.next_id += 1;
        id
    }

    fn consume(&mut self, token_type: TokenType, expected: Expected) -> (result: Result<
        Token,
        SyntaxError,
    >)
        requires
            old(self).well_formed(),
            token_type != TokenType::Eof,
        ensures
            final(self).well_formed(),
            match result {
                Ok(token) => {
                    &&& kind_at(old(self).stream(), old(self).current as int) == token_type
                    &&& token == old(self).tokens[old(self).current as int]
                    &&& *final(self) == (Parser {
                        current: (old(self).current + 1) as usize,
                        ..*old(self)
                    })
                },
                Err(error) => {
                    &&& kind_at(old(self).stream(), old(self).current as int) != token_type
                    &&& error == (SyntaxError {
                        line: old(self).tokens[old(self).current as int].line_nu,
                        expected,
                    })
                    &&& *final(self) == *old(self)
                },
            },
    {
        let token = self.peek();
        if token.token_type == token_type {
            self.advance();
            let token = self.previous();
            Ok(token)
        } else {
            Err(SyntaxError { line: token.line_nu, expected })
        }
    }
}

/// `e` is a primary expression of the grammar: a literal, a variable, or an
/// expression in parentheses.
pub open spec fn derives_primary(e: ExprView) -> bool
    decreases e, 0nat,
{
    match e {
        ExprView::Literal { .. } => true,
        ExprView::Var { .. } => true,
        ExprView::Grouping { expression, .. } => derives_binary(*expression, Level::Equality),
        _ => false,
    }
}

/// `e` is a unary expression of the grammar: `!` or `-` before a unary
/// expression, or a primary expression.
pub open spec fn derives_unary(e: ExprView) -> bool
    decreases e, 1nat,
{
    match e {
        ExprView::Unary { operator, right, .. } => (operator.token_type == TokenType::Bang
            || operator.token_type == TokenType::Minus) && derives_unary(*right),
        _ => derives_primary(e),
    }
}

/// `e` is an operand of a binary operator of `level`: an expression of the
/// next tighter level.
pub open spec fn derives_operand(e: ExprView, level: Level) -> bool
    decreases e, 3 * level.depth() + 2,
{
    match level.tighter() {
        Some(next) => derives_binary(e, next),
        None => derives_unary(e),
    }
}

/// `e` is an expression of `level` of the grammar: an operand, or a chain
/// of operands and operators of `level` that nests to the left, so that
/// the right operand of each operator is a single operand.
pub open spec fn derives_binary(e: ExprView, level: Level) -> bool
    decreases e, 3 * level.depth() + 4,
{
    match e {
        ExprView::Binary { left, operator, right, .. } => (level.binds(operator.token_type)
            && derives_binary(*left, level) && derives_operand(*right, level)) || derives_operand(
            e,
            level,
        ),
        _ => derives_operand(e, level),
    }
}

/// The numbers from `first` on, `count` of them.
pub open spec fn consecutive(first: nat, count: nat) -> Seq<nat> {
    Seq::new(count, |i: int| (first + i) as nat)
}

/// The kinds of the tokens of `ts` from `from` up to, not including, `to`.
pub open spec fn kinds_between(ts: Seq<TokenView>, from: int, to: int) -> Seq<TokenType> {
    Seq::new((to - from) as nat, |i: int| ts[from + i].token_type)
}

/// `node` is an expression that reads the tokens from `from` up to `to`: it
/// is written by exactly these tokens, its nodes carry the identities from
/// `from.next_id` up to `to.next_id`, each once and every child before its
/// parent, and its literals are well formed if the tokens are.
pub open spec fn reads(ts: Seq<TokenView>, from: Cursor, to: Cursor, node: ExprView) -> bool {
    &&& 0 <= from.pos < to.pos < ts.len()
    &&& node.kinds() == kinds_between(ts, from.pos, to.pos)
    &&& node.ids() == consecutive(from.next_id, node.size())
    &&& to.next_id == from.next_id + node.size()
    &&& is_scanned_stream(ts) ==> node.literals_well_formed()
}

/// What holds of the outcome of every rule for expressions that starts at
/// `from`: it ends inside the stream and not before `from`; identities are
/// only given out, never taken back; and a node that it yields reads the
/// tokens between.
pub open spec fn sound(ts: Seq<TokenView>, from: Cursor, outcome: Outcome<ExprView>) -> bool {
    &&& from.pos <= outcome.state.pos < ts.len()
    &&& from.next_id <= outcome.state.next_id
    &&& outcome.result matches Ok(node) ==> reads(ts, from, outcome.state, node)
}

/// In a token stream, a token that is not the end-of-input token has a
/// token behind it.
pub proof fn lemma_not_last(ts: Seq<TokenView>, pos: int)
    requires
        is_token_stream(ts),
        0 <= pos < ts.len(),
        kind_at(ts, pos) != TokenType::Eof,
    ensures
        pos + 1 < ts.len(),
{
}

/// The outcome of `primary` is sound.
pub proof fn lemma_primary_sound(ts: Seq<TokenView>, c: Cursor)
    requires
        is_token_stream(ts),
        0 <= c.pos < ts.len(),
    ensures
        sound(ts, c, parse_primary(ts, c)),
        parse_primary(ts, c).result matches Ok(node) ==> derives_primary(node),
    decreases ts.len() - c.pos, 0nat,
{
    let token = ts[c.pos];
    let outcome = parse_primary(ts, c);
    if token.token_type == TokenType::Identifier {
        lemma_not_last(ts, c.pos);
        let node = outcome.result->Ok_0;
        assert(node.kinds() =~= kinds_between(ts, c.pos, c.pos + 1));
        assert(node.ids() =~= consecutive(c.next_id, 1));
    } else if token.token_type == TokenType::LeftParen {
        lemma_not_last(ts, c.pos);
        lemma_binary_sound(ts, Level::Equality, past(c));
        let inner = parse_binary(ts, Level::Equality, past(c));
        if inner.result is Ok && kind_at(ts, inner.state.pos) == TokenType::RightParen {
            lemma_not_last(ts, inner.state.pos);
            let expression = inner.result->Ok_0;
            let node = outcome.result->Ok_0;
            assert(node.kinds() =~= kinds_between(ts, c.pos, inner.state.pos + 1)) by {
                assert(expression.kinds() == kinds_between(ts, c.pos + 1, inner.state.pos));
            }
            assert(node.ids() =~= consecutive(c.next_id, node.size()));
        }
    } else if token.token_type == TokenType::Number || token.token_type == TokenType::StringLit {
        lemma_not_last(ts, c.pos);
        assert(token.carries_payload());
        assert(is_scanned_stream(ts) ==> token.well_formed());
        let node = outcome.result->Ok_0;
        assert(node.kinds() =~= kinds_between(ts, c.pos, c.pos + 1));
        assert(node.ids() =~= consecutive(c.next_id, 1));
    }
}

/// The outcome of `unary` is sound.
pub proof fn lemma_unary_sound(ts: Seq<TokenView>, c: Cursor)
    requires
        is_token_stream(ts),
        0 <= c.pos < ts.len(),
    ensures
        sound(ts, c, parse_unary(ts, c)),
        parse_unary(ts, c).result matches Ok(node) ==> derives_unary(node),
    decreases ts.len() - c.pos, 1nat,
{
    let operator = ts[c.pos];
    let outcome = parse_unary(ts, c);
    if operator.token_type == TokenType::Bang || operator.token_type == TokenType::Minus {
        lemma_not_last(ts, c.pos);
        lemma_unary_sound(ts, past(c));
        let operand = parse_unary(ts, past(c));
        if operand.result is Ok {
            let right = operand.result->Ok_0;
            let node = outcome.result->Ok_0;
            assert(node.kinds() =~= kinds_between(ts, c.pos, operand.state.pos)) by {
                assert(right.kinds() == kinds_between(ts, c.pos + 1, operand.state.pos));
            }
            assert(node.ids() =~= consecutive(c.next_id, node.size()));
        }
    } else {
        lemma_primary_sound(ts, c);
    }
}

/// The outcome of an operand of `level` is sound.
pub proof fn lemma_operand_sound(ts: Seq<TokenView>, level: Level, c: Cursor)
    requires
        is_token_stream(ts),
        0 <= c.pos < ts.len(),
    ensures
        sound(ts, c, parse_operand(ts, level, c)),
        parse_operand(ts, level, c).result matches Ok(node) ==> derives_operand(node, level),
    decreases ts.len() - c.pos, 3 * level.depth() + 2,
{
    match level.tighter() {
        Some(next) => lemma_binary_sound(ts, next, c),
        None => lemma_unary_sound(ts, c),
    }
}

/// The outcome of a chain of `level` is sound.
pub proof fn lemma_binary_sound(ts: Seq<TokenView>, level: Level, c: Cursor)
    requires
        is_token_stream(ts),
        0 <= c.pos < ts.len(),
    ensures
        sound(ts, c, parse_binary(ts, level, c)),
        parse_binary(ts, level, c).result matches Ok(node) ==> derives_binary(node, level),
    decreases ts.len() - c.pos, 3 * level.depth() + 4,
{
    lemma_operand_sound(ts, level, c);
    let first = parse_operand(ts, level, c);
    if first.result is Ok {
        let left = first.result->Ok_0;
        assert(derives_binary(left, level));
        lemma_fold_sound(ts, level, left, c, first.state);
    }
}

/// The outcome of the rest of a chain is sound from the start of the chain,
/// if the operands so far read the tokens from there.
pub proof fn lemma_fold_sound(
    ts: Seq<TokenView>,
    level: Level,
    left: ExprView,
    start: Cursor,
    c: Cursor,
)
    requires
        is_token_stream(ts),
        reads(ts, start, c, left),
        derives_binary(left, level),
    ensures
        sound(ts, start, fold_binary(ts, level, left, c)),
        fold_binary(ts, level, left, c).result matches Ok(node) ==> derives_binary(node, level),
    decreases ts.len() - c.pos, 3 * level.depth() + 3,
{
    let operator = ts[c.pos];
    if level.binds(operator.token_type) {
        lemma_not_last(ts, c.pos);
        lemma_operand_sound(ts, level, past(c));
        let operand = parse_operand(ts, level, past(c));
        if operand.result is Ok {
            let right = operand.result->Ok_0;
            let node = ExprView::Binary {
                id: operand.state.next_id,
                left: Box::new(left),
                operator,
                right: Box::new(right),
            };
            let next = Cursor { pos: operand.state.pos, next_id: operand.state.next_id + 1 };
            assert(node.kinds() =~= kinds_between(ts, start.pos, next.pos)) by {
                assert(left.kinds() == kinds_between(ts, start.pos, c.pos));
                assert(right.kinds() == kinds_between(ts, c.pos + 1, operand.state.pos));
            }
            assert(node.ids() =~= consecutive(start.next_id, node.size())) by {
                assert(left.ids() == consecutive(start.next_id, left.size()));
                assert(right.ids() == consecutive(c.next_id, right.size()));
            }
            assert(derives_binary(node, level));
            lemma_fold_sound(ts, level, node, start, next);
        }
    }
}

/// Every expression that the parser yields is an expression of the grammar
/// and reads the tokens that it was parsed from: it is written by exactly
/// these tokens, its identities are consecutive, each child before its
/// parent, and no two of its nodes share one.
pub proof fn lemma_expression_sound(ts: Seq<TokenView>, c: Cursor)
    requires
        is_token_stream(ts),
        0 <= c.pos < ts.len(),
    ensures
        sound(ts, c, parse_expression(ts, c)),
        parse_expression(ts, c).result matches Ok(node) ==> derives_binary(node, Level::Equality)
            && forall|i: int, j: int|
            0 <= i < j < node.ids().len() ==> node.ids()[i] < node.ids()[j],
{
    lemma_binary_sound(ts, Level::Equality, c);
}

/// What holds of the outcome of every rule for statements that starts at
/// `from`: it ends inside the stream and not before `from`, and a statement
/// that it yields reads at least one token, carries well-formed literals if
/// the tokens are well formed, and its nodes carry the identities from
/// `from.next_id` on, each once and its own last.
pub open spec fn statement_sound(ts: Seq<TokenView>, from: Cursor, outcome: Outcome<StmtView>) -> bool {
    &&& from.pos <= outcome.state.pos < ts.len()
    &&& from.next_id <= outcome.state.next_id
    &&& outcome.result matches Ok(stmt) ==> {
        &&& from.pos < outcome.state.pos
        &&& stmt.ids() == consecutive(from.next_id, stmt.ids().len())
        &&& outcome.state.next_id == from.next_id + stmt.ids().len()
        &&& is_scanned_stream(ts) ==> stmt.expression().literals_well_formed()
    }
}

/// The outcome of an expression with its `;` is sound.
pub proof fn lemma_terminated_sound(ts: Seq<TokenView>, c: Cursor, missing: Expected)
    requires
        is_token_stream(ts),
        0 <= c.pos < ts.len(),
    ensures
        c.pos <= parse_terminated(ts, c, missing).state.pos < ts.len(),
        c.next_id <= parse_terminated(ts, c, missing).state.next_id,
        parse_terminated(ts, c, missing).result matches Ok(node) ==> {
            &&& c.pos < parse_terminated(ts, c, missing).state.pos
            &&& node.ids() == consecutive(c.next_id, node.size())
            &&& parse_terminated(ts, c, missing).state.next_id == c.next_id + node.size()
            &&& is_scanned_stream(ts) ==> node.literals_well_formed()
        },
{
    lemma_expression_sound(ts, c);
    let parsed = parse_expression(ts, c);
    if parsed.result is Ok && kind_at(ts, parsed.state.pos) == TokenType::Semicolon {
        lemma_not_last(ts, parsed.state.pos);
    }
}

/// The outcome of `declaration` is sound.
pub proof fn lemma_declaration_sound(ts: Seq<TokenView>, c: Cursor)
    requires
        is_token_stream(ts),
        0 <= c.pos < ts.len(),
    ensures
        statement_sound(ts, c, parse_declaration(ts, c)),
{
    let outcome = parse_declaration(ts, c);
    if kind_at(ts, c.pos) == TokenType::Let {
        lemma_not_last(ts, c.pos);
        if kind_at(ts, c.pos + 1) == TokenType::Identifier {
            lemma_not_last(ts, c.pos + 1);
            if kind_at(ts, c.pos + 2) == TokenType::Eq {
                lemma_not_last(ts, c.pos + 2);
                lemma_terminated_sound(ts, past(past(past(c))), Expected::DeclarationEnd);
            }
        }
    } else if kind_at(ts, c.pos) == TokenType::Println {
        lemma_not_last(ts, c.pos);
        lemma_terminated_sound(ts, past(c), Expected::StatementEnd);
    } else {
        lemma_terminated_sound(ts, c, Expected::StatementEnd);
    }
    if outcome.result is Ok {
        let stmt = outcome.result->Ok_0;
        assert(stmt.ids() =~= consecutive(c.next_id, stmt.ids().len()));
    }
}

/// Parsing resumes inside the stream and not before the error, and past it
/// unless the error stands at the end of input.
pub proof fn lemma_synchronize_bounds(ts: Seq<TokenView>, pos: int)
    requires
        is_token_stream(ts),
        0 <= pos < ts.len(),
    ensures
        pos <= synchronize(ts, pos) < ts.len(),
        kind_at(ts, pos) != TokenType::Eof ==> pos < synchronize(ts, pos),
{
    if kind_at(ts, pos) != TokenType::Eof {
        lemma_boundary_bounds(ts, pos + 1);
    }
}

/// A boundary lies inside the stream and not before where the search for it
/// starts.
pub proof fn lemma_boundary_bounds(ts: Seq<TokenView>, pos: int)
    requires
        is_token_stream(ts),
        0 <= pos < ts.len(),
    ensures
        pos <= boundary(ts, pos) < ts.len(),
    decreases ts.len() - pos,
{
    if 0 < pos && kind_at(ts, pos) != TokenType::Eof && kind_at(ts, pos - 1)
        != TokenType::Semicolon && kind_at(ts, pos) != TokenType::Let && kind_at(ts, pos)
        != TokenType::Println {
        lemma_boundary_bounds(ts, pos + 1);
    }
}

/// In a program without syntax errors the nodes carry the identities from
/// `c.next_id` on, each once, in the order in which the nodes were
/// completed; and every literal is well formed if the tokens are.
pub proof fn lemma_program_sound(ts: Seq<TokenView>, c: Cursor)
    requires
        is_token_stream(ts),
        0 <= c.pos < ts.len(),
        parse_program(ts, c).errors.len() == 0,
    ensures
        program_ids(parse_program(ts, c).statements) == consecutive(
            c.next_id,
            program_ids(parse_program(ts, c).statements).len(),
        ),
        is_scanned_stream(ts) ==> forall|i: int|
            0 <= i < parse_program(ts, c).statements.len() ==> (#[trigger] parse_program(
                ts,
                c,
            ).statements[i]).expression().literals_well_formed(),
    decreases ts.len() - c.pos,
{
    if kind_at(ts, c.pos) != TokenType::Eof {
        lemma_declaration_sound(ts, c);
        let declaration = parse_declaration(ts, c);
        if declaration.result is Ok {
            let statement = declaration.result->Ok_0;
            let rest = parse_program(ts, declaration.state);
            lemma_program_sound(ts, declaration.state);
            let all = parse_program(ts, c).statements;
            assert(all =~= seq![statement] + rest.statements);
            assert(all.skip(1) =~= rest.statements);
            assert(program_ids(all) =~= consecutive(c.next_id, program_ids(all).len()));
        }
    } else {
        assert(program_ids(parse_program(ts, c).statements) =~= consecutive(c.next_id, 0));
    }
}

/// The statements of a parsed program carry the identities 0, 1, 2 and so
/// on, each once, every child before its parent and every statement before
/// the next; and every literal in them is well formed if the tokens are.
pub proof fn lemma_parsed_program(ts: Seq<TokenView>)
    requires
        is_token_stream(ts),
    ensures
        parse(ts) matches Ok(stmts) ==> program_ids(stmts) == consecutive(
            0,
            program_ids(stmts).len(),
        ) && (is_scanned_stream(ts) ==> forall|i: int|
            0 <= i < stmts.len() ==> (#[trigger] stmts[i]).expression().literals_well_formed()),
{
    if parse(ts) is Ok {
        lemma_program_sound(ts, Cursor { pos: 0, next_id: 0 });
    }
}

/// In a token stream a chain is its first operand and then the rest: the
/// test for progress behind the first operand never fails.
pub proof fn lemma_chain_unguarded(ts: Seq<TokenView>, level: Level, c: Cursor)
    requires
        is_token_stream(ts),
        0 <= c.pos < ts.len(),
    ensures
        parse_binary(ts, level, c) == match parse_operand(ts, level, c).result {
            Err(_) => parse_operand(ts, level, c),
            Ok(left) => fold_binary(ts, level, left, parse_operand(ts, level, c).state),
        },
{
    lemma_operand_sound(ts, level, c);
}

/// In a token stream the rest of a chain is an operator, an operand and the
/// rest behind them, or nothing: the test for progress behind the operand
/// never fails.
pub proof fn lemma_fold_unguarded(ts: Seq<TokenView>, level: Level, left: ExprView, c: Cursor)
    requires
        is_token_stream(ts),
        0 <= c.pos < ts.len(),
    ensures
        fold_binary(ts, level, left, c) == if level.binds(kind_at(ts, c.pos)) {
            let operand = parse_operand(ts, level, past(c));
            match operand.result {
                Err(_) => operand,
                Ok(right) => fold_binary(
                    ts,
                    level,
                    ExprView::Binary {
                        id: operand.state.next_id,
                        left: Box::new(left),
                        operator: ts[c.pos],
                        right: Box::new(right),
                    },
                    Cursor { pos: operand.state.pos, next_id: operand.state.next_id + 1 },
                ),
            }
        } else {
            accepted(left, c.pos, c.next_id)
        },
{
    if level.binds(kind_at(ts, c.pos)) {
        lemma_not_last(ts, c.pos);
        lemma_operand_sound(ts, level, past(c));
    }
}

/// In a token stream a program is its first declaration and then the
/// program behind it, or, after an error, the program from where parsing
/// resumes: the tests for progress never fail.
pub proof fn lemma_program_unguarded(ts: Seq<TokenView>, c: Cursor)
    requires
        is_token_stream(ts),
        0 <= c.pos < ts.len(),
        kind_at(ts, c.pos) != TokenType::Eof,
    ensures
        parse_program(ts, c) == match parse_declaration(ts, c).result {
            Ok(statement) => {
                let rest = parse_program(ts, parse_declaration(ts, c).state);
                Program { statements: seq![statement] + rest.statements, errors: rest.errors }
            },
            Err(expected) => {
                let at = parse_declaration(ts, c).state;
                let rest = parse_program(
                    ts,
                    Cursor { pos: synchronize(ts, at.pos), next_id: at.next_id },
                );
                Program {
                    statements: rest.statements,
                    errors: seq![syntax_message(ts[at.pos].line_nu, expected)] + rest.errors,
                }
            },
        },
{
    lemma_declaration_sound(ts, c);
    lemma_synchronize_bounds(ts, parse_declaration(ts, c).state.pos);
}

} // verus!
