//! The scanner: source text to tokens.
//!
//! [`scan`] is the model: it says, for every source text, which tokens or
//! which lexical errors come out. [`Scanner::scan_tokens`] is proved to
//! return exactly that.

use vstd::prelude::*;
use vstd::string::*;
use crate::text::{is_digit, is_alpha, is_alphanumeric, decimal, push_decimal};
use crate::text::{char_is_digit, char_is_alpha, char_is_alphanumeric};
use crate::token_type::{TokenType, LiteralValue, LiteralView, Token, TokenView};
use crate::token_type::{token_views, digits_end, is_numeral, is_scanned_stream};

verus! {

/// A lexical error, with the line (counted from 1) on which the offending
/// lexeme starts.
#[derive(Debug, Copy, Clone, PartialEq, Eq, Structural)]
pub enum LexError {
    /// A string literal whose closing quotation mark is missing.
    UnterminatedString(usize),
    /// A character that starts no lexeme.
    UnrecognizedChar(usize, char),
}

/// The mathematical content of a [`LexError`].
pub enum LexErrorView {
    UnterminatedString(nat),
    UnrecognizedChar(nat, char),
}

impl View for LexError {
    type V = LexErrorView;

    open spec fn view(&self) -> LexErrorView {
        match self {
            LexError::UnterminatedString(line) => LexErrorView::UnterminatedString(*line as nat),
            LexError::UnrecognizedChar(line, ch) => LexErrorView::UnrecognizedChar(
                *line as nat,
                *ch,
            ),
        }
    }
}

/// The text of an error message.
pub open spec fn lex_message(e: LexErrorView) -> Seq<char> {
    match e {
        LexErrorView::UnterminatedString(line) => "unterminated string at line "@ + decimal(line),
        LexErrorView::UnrecognizedChar(line, ch) => ("unrecognize char at line "@ + decimal(line)
            + ": "@).push(ch),
    }
}

impl LexError {
    /// The message that reports this error.
    pub fn message(&self) -> (text: String)
        ensures
            text@ == lex_message(self@),
    {
        match self {
            LexError::UnterminatedString(line) => {
                let mut text = String::from_str("unterminated string at line ");
                push_decimal(&mut text, *line);
                text
            },
            LexError::UnrecognizedChar(line, ch) => {
                let mut text = String::from_str("unrecognize char at line ");
                push_decimal(&mut text, *line);
                text.append(": ");
                text.push(*ch);
                text
            },
        }
    }
}

/// The views of a sequence of errors, in order.
pub open spec fn error_views(errors: Seq<LexError>) -> Seq<LexErrorView> {
    errors.map_values(|e: LexError| e@)
}

/// The kind of a character that is a token by itself.
pub open spec fn punctuation(c: char) -> Option<TokenType> {
    if c == ';' {
        Some(TokenType::Semicolon)
    } else if c == '(' {
        Some(TokenType::LeftParen)
    } else if c == ')' {
        Some(TokenType::RightParen)
    } else if c == '+' {
        Some(TokenType::Plus)
    } else if c == '-' {
        Some(TokenType::Minus)
    } else if c == '*' {
        Some(TokenType::Star)
    } else if c == '/' {
        Some(TokenType::Slash)
    } else {
        None
    }
}

/// For a character that is an operator alone and another one when `=`
/// follows it: the kind alone, then the kind with `=`.
pub open spec fn operator(c: char) -> Option<(TokenType, TokenType)> {
    if c == '=' {
        Some((TokenType::Eq, TokenType::EqEq))
    } else if c == '!' {
        Some((TokenType::Bang, TokenType::BangEq))
    } else if c == '<' {
        Some((TokenType::Less, TokenType::LessEq))
    } else if c == '>' {
        Some((TokenType::Greater, TokenType::GreaterEq))
    } else {
        None
    }
}

/// Space, tab and carriage return: skipped, and none of them ends a line.
pub open spec fn is_blank(c: char) -> bool {
    c == ' ' || c == '\r' || c == '\t'
}

/// The keyword table: each reserved word with its kind.
pub open spec fn keyword_table() -> Seq<(Seq<char>, TokenType)> {
    seq![("println"@, TokenType::Println), ("let"@, TokenType::Let)]
}

/// The kind that the first entry for `word` in `table` gives, if any.
pub open spec fn lookup(table: Seq<(Seq<char>, TokenType)>, word: Seq<char>) -> Option<TokenType>
    decreases table.len(),
{
    if table.len() == 0 {
        None
    } else if table[0].0 == word {
        Some(table[0].1)
    } else {
        lookup(table.skip(1), word)
    }
}

/// The keyword kind of `word`, by exact match; `None` for any other word.
pub open spec fn keyword_kind(word: Seq<char>) -> Option<TokenType> {
    lookup(keyword_table(), word)
}

/// The first position at or after `from` whose character is neither a
/// letter nor a digit (the length of `s` if there is none).
pub open spec fn word_end(s: Seq<char>, from: int) -> int
    decreases s.len() - from,
{
    if 0 <= from < s.len() && is_alphanumeric(s[from]) {
        word_end(s, from + 1)
    } else {
        from
    }
}

/// The position of the first quotation mark at or after `from` (the length
/// of `s` if there is none).
pub open spec fn quote_at(s: Seq<char>, from: int) -> int
    decreases s.len() - from,
{
    if 0 <= from < s.len() && s[from] != '"' {
        quote_at(s, from + 1)
    } else {
        from
    }
}

/// How many newline characters stand in `s` from `from` up to, not
/// including, `to`.
pub open spec fn newlines(s: Seq<char>, from: int, to: int) -> nat
    decreases to - from,
{
    if 0 <= from < to <= s.len() {
        newlines(s, from + 1, to) + if s[from] == '\n' {
            1nat
        } else {
            0nat
        }
    } else {
        0
    }
}

/// What one step of scanning finds.
pub enum Lexeme {
    /// White space: nothing comes out.
    Blank,
    /// A token.
    Found(TokenView),
    /// An error.
    Bad(LexErrorView),
}

/// The result of one step: where the next step starts, on which line, and
/// what was found.
pub struct Step {
    pub end: int,
    pub line: nat,
    pub item: Lexeme,
}

/// A token without payload whose lexeme is `s` from `from` to `to`.
pub open spec fn plain(kind: TokenType, s: Seq<char>, from: int, to: int, line: nat) -> TokenView {
    TokenView { token_type: kind, lexeme: s.subrange(from, to), literal: None, line_nu: line }
}

/// The step at an opening quotation mark: the literal runs through the next
/// quotation mark, may span lines, and processes no escape. Without a closing
/// mark the rest of the text is consumed and the error names the line of the
/// opening mark.
pub open spec fn string_step(s: Seq<char>, at: int, line: nat) -> Step {
    let close = quote_at(s, at + 1);
    let last_line = line + newlines(s, at + 1, close);
    if close >= s.len() {
        Step { end: close, line: last_line, item: Lexeme::Bad(LexErrorView::UnterminatedString(line)) }
    } else {
        Step {
            end: close + 1,
            line: last_line,
            item: Lexeme::Found(
                TokenView {
                    token_type: TokenType::StringLit,
                    lexeme: s.subrange(at, close + 1),
                    literal: Some(LiteralView::StringValue(s.subrange(at + 1, close))),
                    line_nu: last_line,
                },
            ),
        }
    }
}

/// Where the numeral that starts at `at` ends: after its digits, or after
/// the digits that follow a point, where a point and a digit follow.
pub open spec fn numeral_end(s: Seq<char>, at: int) -> int {
    let whole = digits_end(s, at);
    if whole + 1 < s.len() && s[whole] == '.' && is_digit(s[whole + 1]) {
        digits_end(s, whole + 1)
    } else {
        whole
    }
}

/// The step at a digit.
pub open spec fn number_step(s: Seq<char>, at: int, line: nat) -> Step {
    let end = numeral_end(s, at);
    Step {
        end,
        line,
        item: Lexeme::Found(
            TokenView {
                token_type: TokenType::Number,
                lexeme: s.subrange(at, end),
                literal: Some(LiteralView::NumberValue(s.subrange(at, end))),
                line_nu: line,
            },
        ),
    }
}

/// The step at a letter: the longest run of letters and digits, which is a
/// keyword if the table holds it and an identifier otherwise.
pub open spec fn word_step(s: Seq<char>, at: int, line: nat) -> Step {
    let end = word_end(s, at);
    let kind = match keyword_kind(s.subrange(at, end)) {
        Some(keyword) => keyword,
        None => TokenType::Identifier,
    };
    Step { end, line, item: Lexeme::Found(plain(kind, s, at, end, line)) }
}

/// One step of scanning `s`, at position `at` on line `line`.
pub open spec fn scan_step(s: Seq<char>, at: int, line: nat) -> Step
    recommends
        0 <= at < s.len(),
{
    let c = s[at];
    if let Some(kind) = punctuation(c) {
        Step { end: at + 1, line, item: Lexeme::Found(plain(kind, s, at, at + 1, line)) }
    } else if let Some((alone, with_eq)) = operator(c) {
        if at + 1 < s.len() && s[at + 1] == '=' {
            Step { end: at + 2, line, item: Lexeme::Found(plain(with_eq, s, at, at + 2, line)) }
        } else {
            Step { end: at + 1, line, item: Lexeme::Found(plain(alone, s, at, at + 1, line)) }
        }
    } else if is_blank(c) {
        Step { end: at + 1, line, item: Lexeme::Blank }
    } else if c == '\n' {
        Step { end: at + 1, line: line + 1, item: Lexeme::Blank }
    } else if c == '"' {
        string_step(s, at, line)
    } else if is_digit(c) {
        number_step(s, at, line)
    } else if is_alpha(c) {
        word_step(s, at, line)
    } else {
        Step { end: at + 1, line, item: Lexeme::Bad(LexErrorView::UnrecognizedChar(line, c)) }
    }
}

/// The end-of-input token on line `line`.
pub open spec fn eof_token(line: nat) -> TokenView {
    TokenView { token_type: TokenType::Eof, lexeme: Seq::empty(), literal: None, line_nu: line }
}

/// All tokens and all errors of a text, each in source order.
pub struct Scanned {
    pub tokens: Seq<TokenView>,
    pub errors: Seq<LexErrorView>,
}

/// `item` in front of what was scanned behind it.
pub open spec fn with_item(item: Lexeme, rest: Scanned) -> Scanned {
    match item {
        Lexeme::Blank => rest,
        Lexeme::Found(token) => Scanned { tokens: seq![token] + rest.tokens, errors: rest.errors },
        Lexeme::Bad(error) => Scanned { tokens: rest.tokens, errors: seq![error] + rest.errors },
    }
}

/// Scanning `s` from position `at` on line `line` to the end: step by step,
/// past every error, and with the end-of-input token last.
pub open spec fn scan_from(s: Seq<char>, at: int, line: nat) -> Scanned
    decreases s.len() - at,
{
    if 0 <= at < s.len() {
        let step = scan_step(s, at, line);
        proof {
            lemma_step_advances(s, at, line);
        }
        with_item(step.item, scan_from(s, step.end, step.line))
    } else {
        Scanned { tokens: seq![eof_token(line)], errors: Seq::empty() }
    }
}

/// What scanning the text `s` yields: the tokens, ended by the end-of-input
/// token, if no lexical error occurred, and otherwise all the errors.
pub open spec fn scan(s: Seq<char>) -> Result<Seq<TokenView>, Seq<LexErrorView>> {
    let all = scan_from(s, 0, 1);
    if all.errors.len() == 0 {
        Ok(all.tokens)
    } else {
        Err(all.errors)
    }
}

/// The views of the entries of a keyword table, in order.
pub open spec fn table_view(table: Seq<(String, TokenType)>) -> Seq<(Seq<char>, TokenType)> {
    table.map_values(|entry: (String, TokenType)| (entry.0@, entry.1))
}

/// The fixed keyword table.
pub fn get_keywords() -> (table: Vec<(String, TokenType)>)
    ensures
        table_view(table@) == keyword_table(),
{
    let mut table: Vec<(String, TokenType)> = Vec::new();
    table.push((String::from_str("println"), TokenType::Println));
    table.push((String::from_str("let"), TokenType::Let));
    assert(table_view(table@) =~= keyword_table());
    table
}

/// Looks `word` up in `table`, by exact match.
pub fn find_keyword(table: &Vec<(String, TokenType)>, word: &String) -> (kind: Option<TokenType>)
    ensures
        kind == lookup(table_view(table@), word@),
{
    let ghost entries = table_view(table@);
    let mut i: usize = 0;
    assert(entries.skip(0) =~= entries);
    while i < table.len()
        invariant
            i <= table.len(),
            entries == table_view(table@),
            lookup(entries, word@) == lookup(entries.skip(i as int), word@),
        decreases table.len() - i,
    {
        assert(entries.skip(i as int)[0] == entries[i as int]);
        assert(entries.skip(i as int).skip(1) =~= entries.skip(i as int + 1));
        if table[i].0 == *word {
            return Some(table[i].1);
        }
        i += 1;
    }
    None
}

/// A scanner over one source text.
pub struct Scanner {
    start: usize,
    cur: usize,
    line: usize,
    source: String,
    length: usize,
    tokens: Vec<Token>,
    keywords: Vec<(String, TokenType)>,
}

impl Scanner {
    /// The source text.
    pub closed spec fn text(&self) -> Seq<char> {
        self.source@
    }

    /// The invariant of a scanner: its cursor lies inside the text, and its
    /// line counter cannot overflow.
    pub closed spec fn well_formed(&self) -> bool {
        &&& self.length == self.source@.len()
        &&& self.length < usize::MAX
        &&& self.start <= self.cur <= self.length
        &&& self.line <= self.cur + 1
        &&& table_view(self.keywords@) == keyword_table()
    }

    /// The scanner agrees with `before` but for its cursor, its line counter
    /// and its tokens.
    spec fn same_text(&self, before: &Scanner) -> bool {
        &&& self.source == before.source
        &&& self.length == before.length
        &&& self.keywords == before.keywords
        &&& self.start == before.start
    }

    /// `self` is what one step `step` makes of `before`, and `result` is
    /// what that step reports.
    spec fn stepped(&self, before: &Scanner, result: Result<(), LexError>, step: Step) -> bool {
        &&& self.same_text(before)
        &&& self.cur == step.end
        &&& self.line == step.line
        &&& match step.item {
            Lexeme::Blank => result.is_ok() && self.tokens == before.tokens,
            Lexeme::Found(token) => result.is_ok() && self.tokens@ == before.tokens@.push(
                self.tokens@.last(),
            ) && self.tokens@.last()@ == token,
            Lexeme::Bad(error) => result.is_err() && result->Err_0@ == error && self.tokens
                == before.tokens,
        }
    }

    /// A scanner at the start of `source`.
    pub fn new(source: &str) -> (scanner: Self)
        requires
            source@.len() < usize::MAX,
        ensures
            scanner.well_formed(),
            scanner.text() == source@,
    {
        Self {
            source: String::from_str(source),
            length: source.unicode_len(),
            start: 0,
            cur: 0,
            line: 1,
            tokens: Vec::new(),
            keywords: get_keywords(),
        }
    }

    /// Scans the whole text from its start. Returns the tokens, ended by the
    /// end-of-input token, or, if any lexical error occurred, all of the
    /// errors in source order.
    pub fn scan_tokens(&mut self) -> (result: Result<Vec<Token>, Vec<LexError>>)
        requires
            old(self).well_formed(),
        ensures
            final(self).well_formed(),
            final(self).text() == old(self).text(),
            match result {
                Ok(tokens) => scan(old(self).text()) == Ok::<_, Seq<LexErrorView>>(
                    token_views(tokens@),
                ) && is_scanned_stream(token_views(tokens@)),
                Err(errors) => scan(old(self).text()) == Err::<Seq<TokenView>, _>(
                    error_views(errors@),
                ),
            },
    {
        let mut errors: Vec<LexError> = Vec::new();
        self.start = 0;
        self.cur = 0;
        self.line = 1;
        self.tokens = Vec::new();
        let ghost s = self.source@;
        assert(token_views(self.tokens@) + scan_from(s, 0, 1).tokens =~= scan_from(s, 0, 1).tokens);
        assert(error_views(errors@) + scan_from(s, 0, 1).errors =~= scan_from(s, 0, 1).errors);
        while !self.is_at_end()
            invariant
                self.well_formed(),
                self.source@ == s,
                scan_from(s, 0, 1).tokens == token_views(self.tokens@) + scan_from(
                    s,
                    self.cur as int,
                    self.line as nat,
                ).tokens,
                scan_from(s, 0, 1).errors == error_views(errors@) + scan_from(
                    s,
                    self.cur as int,
                    self.line as nat,
                ).errors,
            decreases self.length - self.cur,
        {
            self.start = self.cur;
            let ghost before = *self;
            let ghost step = scan_step(s, self.cur as int, self.line as nat);
            let ghost rest = scan_from(s, step.end, step.line);
            proof {
                lemma_step_advances(s, self.cur as int, self.line as nat);
            }
            match self.scan_token() {
                Ok(_) => {
                    proof {
                        if step.item is Found {
                            assert(token_views(self.tokens@) =~= token_views(before.tokens@).push(
                                step.item->Found_0,
                            ));
                            assert(token_views(self.tokens@) + rest.tokens =~= token_views(
                                before.tokens@,
                            ) + (seq![step.item->Found_0] + rest.tokens));
                        }
                    }
                },
                Err(error) => {
                    let ghost earlier = errors@;
                    errors.push(error);
                    proof {
                        assert(error_views(errors@) =~= error_views(earlier).push(
                            step.item->Bad_0,
                        ));
                        assert(error_views(errors@) + rest.errors =~= error_views(earlier) + (
                        seq![step.item->Bad_0] + rest.errors));
                    }
                },
            }
        }
        let end = Token {
            token_type: TokenType::Eof,
            lexeme: String::new(),
            literal: None,
            line_nu: self.line,
        };
        assert(end@ == eof_token(self.line as nat));
        self.tokens.push(end);
        assert(token_views(self.tokens@) =~= scan_from(s, 0, 1).tokens);
        proof {
            lemma_scanned_is_token_stream(s, 0, 1);
        }
        assert(error_views(errors@) =~= scan_from(s, 0, 1).errors);
        if errors.len() > 0 {
            return Err(errors);
        }
        let tokens = self.tokens.clone();
        assert(token_views(tokens@) =~= token_views(self.tokens@));
        Ok(tokens)
    }

    fn is_at_end(&self) -> (at_end: bool)
        requires
            self.well_formed(),
        ensures
            at_end == (self.cur >= self.source@.len()),
    {
        self.cur >= self.length
    }

    /// Scans one lexeme, or one stretch of white space, at the cursor.
    fn scan_token(&mut self) -> (result: Result<(), LexError>)
        requires
            old(self).well_formed(),
            old(self).start == old(self).cur,
            old(self).cur < old(self).length,
        ensures
            final(self).well_formed(),
            final(self).stepped(
                old(self),
                result,
                scan_step(old(self).source@, old(self).cur as int, old(self).line as nat),
            ),
    {
        let ch = self.next_char();
        if let Some(kind) = punctuation_kind(ch) {
            self.add_token(kind);
        } else if let Some((alone, with_eq)) = operator_kinds(ch) {
            let token = if self.char_match('=') {
                with_eq
            } else {
                alone
            };
            self.add_token(token);
        } else if ch == ' ' || ch == '\r' || ch == '\t' {
        } else if ch == '\n' {
            self.line += 1;
        } else if ch == '"' {
            return self.string();
        } else if char_is_digit(ch) {
            self.number();
        } else if char_is_alpha(ch) {
            self.identifier();
        } else {
            return Err(LexError::UnrecognizedChar(self.line, ch));
        }
        Ok(())
    }

    fn next_char(&mut self) -> (c: char)
        requires
            old(self).well_formed(),
            old(self).cur < old(self).length,
        ensures
            c == old(self).source@[old(self).cur as int],
            *final(self) == (Scanner { cur: (old(self).cur + 1) as usize, ..*old(self) }),
            final(self).well_formed(),
    {
        let c = self.source.as_str().get_char(self.cur);
        self.cur += 1;
        c
    }

    fn add_token(&mut self, token_type: TokenType)
        requires
            old(self).well_formed(),
        ensures
            final(self).well_formed(),
            final(self).same_text(old(self)),
            final(self).cur == old(self).cur,
            final(self).line == old(self).line,
            final(self).tokens@ == old(self).tokens@.push(final(self).tokens@.last()),
            final(self).tokens@.last()@ == plain(
                token_type,
                old(self).source@,
                old(self).start as int,
                old(self).cur as int,
                old(self).line as nat,
            ),
    {
        self.add_token_lit(token_type, None);
    }

    fn add_token_lit(&mut self, token_type: TokenType, literal: Option<LiteralValue>)
        requires
            old(self).well_formed(),
        ensures
            final(self).well_formed(),
            final(self).same_text(old(self)),
            final(self).cur == old(self).cur,
            final(self).line == old(self).line,
            final(self).tokens@ == old(self).tokens@.push(final(self).tokens@.last()),
            final(self).tokens@.last().token_type == token_type,
            final(self).tokens@.last().lexeme@ == old(self).source@.subrange(
                old(self).start as int,
                old(self).cur as int,
            ),
            final(self).tokens@.last().literal == literal,
            final(self).tokens@.last().line_nu == old(self).line,
    {
        let text = String::from_str(self.source.as_str().substring_char(self.start, self.cur));
        self.tokens.push(Token { token_type, lexeme: text, literal, line_nu: self.line });
    }

    fn peek_next(&self) -> (c: char)
        requires
            self.well_formed(),
        ensures
            c == if self.cur + 1 < self.source@.len() {
                self.source@[self.cur + 1]
            } else {
                '\0'
            },
    {
        if self.cur + 1 >= self.length {
            return '\0';
        }
        self.source.as_str().get_char(self.cur + 1)
    }

    fn peek(&self) -> (c: char)
        requires
            self.well_formed(),
        ensures
            c == if self.cur < self.source@.len() {
                self.source@[self.cur as int]
            } else {
                '\0'
            },
    {
        if self.is_at_end() {
            return '\0';
        }
        self.source.as_str().get_char(self.cur)
    }

    fn char_match(&mut self, ch: char) -> (matched: bool)
        requires
            old(self).well_formed(),
        ensures
            final(self).well_formed(),
            matched == (old(self).cur < old(self).source@.len() && old(self).source@[old(
                self,
            ).cur as int] == ch),
            *final(self) == (Scanner {
                cur: if matched {
                    (old(self).cur + 1) as usize
                } else {
                    old(self).cur
                },
                ..*old(self)
            }),
    {
        if self.is_at_end() {
            return false;
        }
        if self.peek() != ch {
            return false;
        } else {
            self.next_char();
            return true;
        }
    }

    /// Scans a string literal whose opening quotation mark was just taken.
    fn string(&mut self) -> (result: Result<(), LexError>)
        requires
            old(self).well_formed(),
            old(self).start + 1 == old(self).cur,
            old(self).source@[old(self).start as int] == '"',
            old(self).line <= old(self).start + 1,
        ensures
            final(self).well_formed(),
            final(self).stepped(
                old(self),
                result,
                string_step(old(self).source@, old(self).start as int, old(self).line as nat),
            ),
    {
        let opening_line = self.line;
        let ghost s = self.source@;
        let ghost before = *self;
        let ghost close = quote_at(s, self.cur as int);
        proof {
            lemma_quote_at_bounds(s, self.cur as int);
        }
        while self.peek() != '"' && !self.is_at_end()
            invariant
                self.well_formed(),
                *self == (Scanner { cur: self.cur, line: self.line, ..before }),
                before.cur <= self.cur <= close <= s.len(),
                s == before.source@,
                quote_at(s, self.cur as int) == close,
                self.line + newlines(s, self.cur as int, close) == before.line + newlines(
                    s,
                    before.cur as int,
                    close,
                ),
                self.line <= self.cur,
            decreases self.length - self.cur,
        {
            proof {
                lemma_quote_at_bounds(s, self.cur + 1);
            }
            if self.peek() == '\n' {
                self.line += 1;
            }
            self.next_char();
        }
        if self.is_at_end() {
            return Err(LexError::UnterminatedString(opening_line));
        }
        self.next_char();
        let value = String::from_str(
            self.source.as_str().substring_char(self.start + 1, self.cur - 1),
        );
        self.add_token_lit(TokenType::StringLit, Some(LiteralValue::StringValue(value)));
        Ok(())
    }

    /// Scans a number whose first digit was just taken.
    fn number(&mut self)
        requires
            old(self).well_formed(),
            old(self).start + 1 == old(self).cur,
            is_digit(old(self).source@[old(self).start as int]),
        ensures
            final(self).well_formed(),
            final(self).stepped(
                old(self),
                Ok(()),
                number_step(old(self).source@, old(self).start as int, old(self).line as nat),
            ),
    {
        let ghost s = self.source@;
        let ghost before = *self;
        while char_is_digit(self.peek())
            invariant
                self.well_formed(),
                *self == (Scanner { cur: self.cur, ..before }),
                digits_end(s, self.cur as int) == digits_end(s, before.start as int),
                s == before.source@,
            decreases self.length - self.cur,
        {
            self.next_char();
        }
        if self.peek() == '.' && char_is_digit(self.peek_next()) {
            self.next_char();
            while char_is_digit(self.peek())
                invariant
                    self.well_formed(),
                    *self == (Scanner { cur: self.cur, ..before }),
                    digits_end(s, self.cur as int) == numeral_end(s, before.start as int),
                    s == before.source@,
                decreases self.length - self.cur,
            {
                self.next_char();
            }
        }
        let numeral = String::from_str(self.source.as_str().substring_char(self.start, self.cur));
        self.add_token_lit(TokenType::Number, Some(LiteralValue::NumberValue(numeral)));
    }

    /// Scans an identifier or a keyword whose first letter was just taken.
    fn identifier(&mut self)
        requires
            old(self).well_formed(),
            old(self).start + 1 == old(self).cur,
            is_alpha(old(self).source@[old(self).start as int]),
        ensures
            final(self).well_formed(),
            final(self).stepped(
                old(self),
                Ok(()),
                word_step(old(self).source@, old(self).start as int, old(self).line as nat),
            ),
    {
        let ghost s = self.source@;
        let ghost before = *self;
        while char_is_alphanumeric(self.peek())
            invariant
                self.well_formed(),
                *self == (Scanner { cur: self.cur, ..before }),
                word_end(s, self.cur as int) == word_end(s, before.start as int),
                s == before.source@,
            decreases self.length - self.cur,
        {
            self.next_char();
        }
        let word = String::from_str(self.source.as_str().substring_char(self.start, self.cur));
        match find_keyword(&self.keywords, &word) {
            Some(kind) => self.add_token(kind),
            None => self.add_token(TokenType::Identifier),
        }
    }
}

/// The kind of `c` where it is a token by itself.
pub fn punctuation_kind(c: char) -> (kind: Option<TokenType>)
    ensures
        kind == punctuation(c),
{
    if c == ';' {
        Some(TokenType::Semicolon)
    } else if c == '(' {
        Some(TokenType::LeftParen)
    } else if c == ')' {
        Some(TokenType::RightParen)
    } else if c == '+' {
        Some(TokenType::Plus)
    } else if c == '-' {
        Some(TokenType::Minus)
    } else if c == '*' {
        Some(TokenType::Star)
    } else if c == '/' {
        Some(TokenType::Slash)
    } else {
        None
    }
}

/// The two kinds of `c` where it is an operator that `=` may follow.
pub fn operator_kinds(c: char) -> (kinds: Option<(TokenType, TokenType)>)
    ensures
        kinds == operator(c),
{
    if c == '=' {
        Some((TokenType::Eq, TokenType::EqEq))
    } else if c == '!' {
        Some((TokenType::Bang, TokenType::BangEq))
    } else if c == '<' {
        Some((TokenType::Less, TokenType::LessEq))
    } else if c == '>' {
        Some((TokenType::Greater, TokenType::GreaterEq))
    } else {
        None
    }
}

pub proof fn lemma_digits_end_bounds(s: Seq<char>, from: int)
    requires
        0 <= from <= s.len(),
    ensures
        from <= digits_end(s, from) <= s.len(),
        forall|i: int| from <= i < digits_end(s, from) ==> is_digit(#[trigger] s[i]),
        digits_end(s, from) < s.len() ==> !is_digit(s[digits_end(s, from)]),
    decreases s.len() - from,
{
    if from < s.len() && is_digit(s[from]) {
        lemma_digits_end_bounds(s, from + 1);
    }
}

pub proof fn lemma_word_end_bounds(s: Seq<char>, from: int)
    requires
        0 <= from <= s.len(),
    ensures
        from <= word_end(s, from) <= s.len(),
        forall|i: int| from <= i < word_end(s, from) ==> is_alphanumeric(#[trigger] s[i]),
        word_end(s, from) < s.len() ==> !is_alphanumeric(s[word_end(s, from)]),
    decreases s.len() - from,
{
    if from < s.len() && is_alphanumeric(s[from]) {
        lemma_word_end_bounds(s, from + 1);
    }
}

pub proof fn lemma_quote_at_bounds(s: Seq<char>, from: int)
    requires
        0 <= from <= s.len(),
    ensures
        from <= quote_at(s, from) <= s.len(),
        forall|i: int| from <= i < quote_at(s, from) ==> #[trigger] s[i] != '"',
        quote_at(s, from) < s.len() ==> s[quote_at(s, from)] == '"',
    decreases s.len() - from,
{
    if from < s.len() && s[from] != '"' {
        lemma_quote_at_bounds(s, from + 1);
    }
}

/// Every step consumes at least one character and stays inside the text.
pub proof fn lemma_step_advances(s: Seq<char>, at: int, line: nat)
    requires
        0 <= at < s.len(),
    ensures
        at < scan_step(s, at, line).end <= s.len(),
{
    lemma_quote_at_bounds(s, at + 1);
    lemma_digits_end_bounds(s, at);
    lemma_word_end_bounds(s, at);
    let whole = digits_end(s, at);
    if whole + 1 < s.len() {
        lemma_digits_end_bounds(s, whole + 1);
    }
}

/// Inside a window of `s`, a run of digits ends where it ends in `s`, or at
/// the end of the window.
pub proof fn lemma_digits_end_in_window(s: Seq<char>, lo: int, hi: int, from: int)
    requires
        0 <= lo <= from <= hi <= s.len(),
    ensures
        digits_end(s.subrange(lo, hi), from - lo) == if digits_end(s, from) < hi {
            digits_end(s, from) - lo
        } else {
            hi - lo
        },
    decreases hi - from,
{
    lemma_digits_end_bounds(s, from);
    if from < hi && is_digit(s[from]) {
        lemma_digits_end_in_window(s, lo, hi, from + 1);
    }
}

/// The lexeme of a number token is a numeral of the digit grammar.
pub proof fn lemma_number_lexeme_is_numeral(s: Seq<char>, at: int)
    requires
        0 <= at < s.len(),
        is_digit(s[at]),
    ensures
        is_numeral(s.subrange(at, numeral_end(s, at))),
{
    let whole = digits_end(s, at);
    let end = numeral_end(s, at);
    lemma_digits_end_bounds(s, at);
    lemma_digits_end_bounds(s, at + 1);
    if end != whole {
        lemma_digits_end_bounds(s, whole + 1);
        lemma_digits_end_bounds(s, whole + 2);
        lemma_digits_end_in_window(s, at, end, whole + 1);
    }
    lemma_digits_end_in_window(s, at, end, at);
}

/// Every token that a step finds is well formed and is not the end-of-input
/// token.
pub proof fn lemma_step_token_well_formed(s: Seq<char>, at: int, line: nat)
    requires
        0 <= at < s.len(),
    ensures
        scan_step(s, at, line).item matches Lexeme::Found(token) ==> token.well_formed()
            && token.token_type != TokenType::Eof,
{
    let c = s[at];
    if punctuation(c) is Some || operator(c) is Some || is_blank(c) || c == '\n' {
    } else if c == '"' {
        lemma_quote_at_bounds(s, at + 1);
        let close = quote_at(s, at + 1);
        if close < s.len() {
            let text = s.subrange(at + 1, close);
            assert forall|i: int| 0 <= i < text.len() implies text[i] != '"' by {
                assert(text[i] == s[at + 1 + i]);
            }
        }
    } else if is_digit(c) {
        lemma_number_lexeme_is_numeral(s, at);
    } else if is_alpha(c) {
        lemma_word_end_bounds(s, at);
        lemma_keywords(s.subrange(at, word_end(s, at)));
    }
}

/// Whatever the text, the tokens that scanning collects form a token stream
/// that can be parsed: each is well formed, and the end-of-input token is
/// the last of them and occurs nowhere else.
pub proof fn lemma_scanned_is_token_stream(s: Seq<char>, at: int, line: nat)
    requires
        0 <= at <= s.len(),
    ensures
        is_scanned_stream(scan_from(s, at, line).tokens),
        forall|i: int|
            0 <= i < scan_from(s, at, line).tokens.len() - 1 ==> (#[trigger] scan_from(
                s,
                at,
                line,
            ).tokens[i]).token_type != TokenType::Eof,
    decreases s.len() - at,
{
    if at < s.len() {
        let step = scan_step(s, at, line);
        lemma_step_advances(s, at, line);
        lemma_step_token_well_formed(s, at, line);
        lemma_scanned_is_token_stream(s, step.end, step.line);
    }
}

/// A successful scan yields a token stream that can be parsed.
pub proof fn lemma_scan_yields_token_stream(s: Seq<char>)
    ensures
        scan(s) matches Ok(tokens) ==> is_scanned_stream(tokens),
{
    lemma_scanned_is_token_stream(s, 0, 1);
}

/// A text that is exactly one numeral of the digit grammar scans to exactly
/// one number token, which carries the numeral unchanged, and the
/// end-of-input token.
pub proof fn lemma_numeral_scans_to_one_token(s: Seq<char>)
    requires
        is_numeral(s),
    ensures
        scan(s) == Ok::<_, Seq<LexErrorView>>(
            seq![
                TokenView {
                    token_type: TokenType::Number,
                    lexeme: s,
                    literal: Some(LiteralView::NumberValue(s)),
                    line_nu: 1,
                },
                eof_token(1),
            ],
        ),
{
    let whole = digits_end(s, 0);
    lemma_digits_end_bounds(s, 0);
    assert(is_digit(s[0]));
    if whole != s.len() {
        lemma_digits_end_bounds(s, whole + 1);
    }
    assert(numeral_end(s, 0) == s.len());
    assert(s.subrange(0, s.len() as int) =~= s);
    let rest = scan_from(s, s.len() as int, 1);
    assert(rest.tokens =~= seq![eof_token(1)]);
    assert(scan_from(s, 0, 1) == with_item(number_step(s, 0, 1).item, rest));
    assert(scan_from(s, 0, 1).tokens =~= seq![
        TokenView {
            token_type: TokenType::Number,
            lexeme: s,
            literal: Some(LiteralView::NumberValue(s)),
            line_nu: 1,
        },
        eof_token(1),
    ]);
}

/// Where scanning reaches a quotation mark that no later quotation mark
/// closes, it reports an unterminated string on the line of that mark, and
/// the rest of the text yields no token but the end-of-input token.
pub proof fn lemma_unterminated_string(s: Seq<char>, at: int, line: nat)
    requires
        0 <= at < s.len(),
        s[at] == '"',
        forall|i: int| at < i < s.len() ==> s[i] != '"',
    ensures
        scan_from(s, at, line).errors == seq![LexErrorView::UnterminatedString(line)],
        scan_from(s, at, line).tokens == seq![eof_token(line + newlines(s, at + 1, s.len() as int))],
{
    lemma_quote_at_bounds(s, at + 1);
    let close = quote_at(s, at + 1);
    assert(close == s.len()) by {
        if close < s.len() {
            assert(s[close] == '"');
        }
    }
    let step = scan_step(s, at, line);
    assert(step == string_step(s, at, line));
    let rest = scan_from(s, step.end, step.line);
    assert(scan_from(s, at, line) == with_item(step.item, rest));
    assert(scan_from(s, at, line).errors =~= seq![LexErrorView::UnterminatedString(line)]);
    assert(scan_from(s, at, line).tokens =~= seq![
        eof_token(line + newlines(s, at + 1, s.len() as int)),
    ]);
}

/// A text that is one unterminated string literal scans to that one error.
pub proof fn lemma_unterminated_source(s: Seq<char>)
    requires
        s.len() > 0,
        s[0] == '"',
        forall|i: int| 0 < i < s.len() ==> s[i] != '"',
    ensures
        scan(s) == Err::<Seq<TokenView>, _>(seq![LexErrorView::UnterminatedString(1)]),
{
    lemma_unterminated_string(s, 0, 1);
}

/// A run of letters and digits that reaches the end of the text ends there.
pub proof fn lemma_word_to_the_end(s: Seq<char>, from: int)
    requires
        0 <= from <= s.len(),
        forall|i: int| from <= i < s.len() ==> is_alphanumeric(#[trigger] s[i]),
    ensures
        word_end(s, from) == s.len(),
    decreases s.len() - from,
{
    if from < s.len() {
        lemma_word_to_the_end(s, from + 1);
    }
}

/// The keywords are `println` and `let`, and these only.
pub proof fn lemma_keywords(word: Seq<char>)
    ensures
        keyword_kind(word) == if word == "println"@ {
            Some(TokenType::Println)
        } else if word == "let"@ {
            Some(TokenType::Let)
        } else {
            None
        },
{
    reveal_with_fuel(lookup, 3);
    assert(keyword_table().skip(1)[0] == keyword_table()[1]);
    assert(keyword_table().skip(1).skip(1).len() == 0);
}

/// A text that is exactly a keyword scans to exactly one token, of that
/// keyword's kind, and the end-of-input token: no identifier comes out.
pub proof fn lemma_keyword_scans_to_one_token(word: Seq<char>)
    requires
        keyword_kind(word) is Some,
    ensures
        scan(word) == Ok::<_, Seq<LexErrorView>>(
            seq![
                TokenView {
                    token_type: keyword_kind(word)->Some_0,
                    lexeme: word,
                    literal: None,
                    line_nu: 1,
                },
                eof_token(1),
            ],
        ),
{
    lemma_keywords(word);
    reveal_strlit("println");
    reveal_strlit("let");
    assert(forall|i: int| 0 <= i < word.len() ==> is_alphanumeric(#[trigger] word[i]));
    lemma_word_to_the_end(word, 0);
    assert(is_alpha(word[0]));
    assert(word.subrange(0, word.len() as int) =~= word);
    let step = scan_step(word, 0, 1);
    assert(step == word_step(word, 0, 1));
    let rest = scan_from(word, word.len() as int, 1);
    assert(rest.tokens =~= seq![eof_token(1)]);
    assert(scan_from(word, 0, 1) == with_item(step.item, rest));
    assert(scan_from(word, 0, 1).tokens =~= seq![
        TokenView {
            token_type: keyword_kind(word)->Some_0,
            lexeme: word,
            literal: None,
            line_nu: 1,
        },
        eof_token(1),
    ]);
}

} // verus!
