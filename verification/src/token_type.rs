//! The token model: kinds, literal payloads, and the token itself.

use vstd::prelude::*;
use vstd::string::*;
use crate::text::{is_digit, quote, quoted};

verus! {

/// The closed set of token kinds.
#[derive(Debug, Copy, Clone, PartialEq, Eq, Structural)]
pub enum TokenType {
    // One character.
    Semicolon,
    LeftParen,
    RightParen,
    Plus,
    Minus,
    Star,
    Slash,
    // One or two characters.
    Bang,
    BangEq,
    Eq,
    EqEq,
    Greater,
    GreaterEq,
    Less,
    LessEq,
    // Literals.
    Identifier,
    StringLit,
    Number,
    // Keywords.
    Println,
    Let,
    // End of input.
    Eof,
}

/// The name of a kind, as messages show it.
pub open spec fn kind_name(t: TokenType) -> Seq<char> {
    match t {
        TokenType::Semicolon => "Semicolon"@,
        TokenType::LeftParen => "LeftParen"@,
        TokenType::RightParen => "RightParen"@,
        TokenType::Plus => "Plus"@,
        TokenType::Minus => "Minus"@,
        TokenType::Star => "Star"@,
        TokenType::Slash => "Slash"@,
        TokenType::Bang => "Bang"@,
        TokenType::BangEq => "BangEq"@,
        TokenType::Eq => "Eq"@,
        TokenType::EqEq => "EqEq"@,
        TokenType::Greater => "Greater"@,
        TokenType::GreaterEq => "GreaterEq"@,
        TokenType::Less => "Less"@,
        TokenType::LessEq => "LessEq"@,
        TokenType::Identifier => "Identifier"@,
        TokenType::StringLit => "StringLit"@,
        TokenType::Number => "Number"@,
        TokenType::Println => "Println"@,
        TokenType::Let => "Let"@,
        TokenType::Eof => "Eof"@,
    }
}

impl TokenType {
    /// The name of this kind.
    pub fn to_string(&self) -> (name: String)
        ensures
            name@ == kind_name(*self),
    {
        match self {
            TokenType::Semicolon => String::from_str("Semicolon"),
            TokenType::LeftParen => String::from_str("LeftParen"),
            TokenType::RightParen => String::from_str("RightParen"),
            TokenType::Plus => String::from_str("Plus"),
            TokenType::Minus => String::from_str("Minus"),
            TokenType::Star => String::from_str("Star"),
            TokenType::Slash => String::from_str("Slash"),
            TokenType::Bang => String::from_str("Bang"),
            TokenType::BangEq => String::from_str("BangEq"),
            TokenType::Eq => String::from_str("Eq"),
            TokenType::EqEq => String::from_str("EqEq"),
            TokenType::Greater => String::from_str("Greater"),
            TokenType::GreaterEq => String::from_str("GreaterEq"),
            TokenType::Less => String::from_str("Less"),
            TokenType::LessEq => String::from_str("LessEq"),
            TokenType::Identifier => String::from_str("Identifier"),
            TokenType::StringLit => String::from_str("StringLit"),
            TokenType::Number => String::from_str("Number"),
            TokenType::Println => String::from_str("Println"),
            TokenType::Let => String::from_str("Let"),
            TokenType::Eof => String::from_str("Eof"),
        }
    }
}

/// The first position at or after `from` whose character is not a digit
/// (the length of `s` if there is none).
pub open spec fn digits_end(s: Seq<char>, from: int) -> int
    decreases s.len() - from,
{
    if 0 <= from < s.len() && is_digit(s[from]) {
        digits_end(s, from + 1)
    } else {
        from
    }
}

/// The digit grammar of a number: one or more digits, optionally followed by
/// a point and one or more digits.
pub open spec fn is_numeral(s: Seq<char>) -> bool {
    let whole = digits_end(s, 0);
    &&& whole > 0
    &&& whole == s.len() || {
        &&& s[whole] == '.'
        &&& whole + 1 < s.len()
        &&& digits_end(s, whole + 1) == s.len()
    }
}

/// What a literal token carries.
#[derive(Debug)]
pub enum LiteralValue {
    /// A number, kept as the decimal numeral that was written.
    NumberValue(String),
    /// The characters between the quotation marks of a string literal.
    StringValue(String),
}

/// The mathematical content of a [`LiteralValue`].
pub enum LiteralView {
    NumberValue(Seq<char>),
    StringValue(Seq<char>),
}

impl LiteralView {
    /// A payload that the scanner can produce: a numeral of the digit
    /// grammar, or text without a quotation mark.
    pub open spec fn well_formed(self) -> bool {
        match self {
            LiteralView::NumberValue(numeral) => is_numeral(numeral),
            LiteralView::StringValue(text) => !text.contains('"'),
        }
    }
}

impl View for LiteralValue {
    type V = LiteralView;

    open spec fn view(&self) -> LiteralView {
        match self {
            LiteralValue::NumberValue(numeral) => LiteralView::NumberValue(numeral@),
            LiteralValue::StringValue(text) => LiteralView::StringValue(text@),
        }
    }
}

impl Clone for LiteralValue {
    fn clone(&self) -> (copy: Self)
        ensures
            copy == *self,
    {
        match self {
            LiteralValue::NumberValue(numeral) => LiteralValue::NumberValue(numeral.clone()),
            LiteralValue::StringValue(text) => LiteralValue::StringValue(text.clone()),
        }
    }
}

/// One token of the source text.
#[derive(Debug)]
pub struct Token {
    pub token_type: TokenType,
    /// The exact text that the token was scanned from.
    pub lexeme: String,
    pub literal: Option<LiteralValue>,
    /// The line, counted from 1, on which the token ends.
    pub line_nu: usize,
}

/// The mathematical content of a [`Token`].
pub struct TokenView {
    pub token_type: TokenType,
    pub lexeme: Seq<char>,
    pub literal: Option<LiteralView>,
    pub line_nu: nat,
}

impl TokenView {
    /// A number token carries a numeral and a string token carries text:
    /// what the parser relies on.
    pub open spec fn carries_payload(self) -> bool {
        match self.token_type {
            TokenType::Number => self.literal matches Some(LiteralView::NumberValue(_)),
            TokenType::StringLit => self.literal matches Some(LiteralView::StringValue(_)),
            _ => true,
        }
    }

    /// A token as the scanner makes it: a number token carries a numeral of
    /// the digit grammar, a string token text without a quotation mark, and
    /// every other token nothing.
    pub open spec fn well_formed(self) -> bool {
        match self.token_type {
            TokenType::Number => self.literal matches Some(LiteralView::NumberValue(numeral))
                && is_numeral(numeral),
            TokenType::StringLit => self.literal matches Some(LiteralView::StringValue(text))
                && !text.contains('"'),
            _ => self.literal.is_none(),
        }
    }
}

impl View for Token {
    type V = TokenView;

    open spec fn view(&self) -> TokenView {
        TokenView {
            token_type: self.token_type,
            lexeme: self.lexeme@,
            literal: match self.literal {
                Some(value) => Some(value@),
                None => None,
            },
            line_nu: self.line_nu as nat,
        }
    }
}

/// How a payload is shown: `None`, or the payload in `Some(..)` under the
/// name of its variant, a string between quotation marks.
pub open spec fn payload_text(literal: Option<LiteralView>) -> Seq<char> {
    match literal {
        None => "None"@,
        Some(LiteralView::NumberValue(numeral)) => "Some(NumberValue("@ + numeral + "))"@,
        Some(LiteralView::StringValue(text)) => "Some(StringValue("@ + quoted(text) + "))"@,
    }
}

/// How a token is shown: its kind, its lexeme and its payload, with a space
/// between each two.
pub open spec fn token_text(token: TokenView) -> Seq<char> {
    kind_name(token.token_type) + " "@ + token.lexeme + " "@ + payload_text(token.literal)
}

impl Token {
    /// The token in text: its kind, its lexeme and its payload.
    pub fn to_string(&self) -> (text: String)
        ensures
            text@ == token_text(self@),
    {
        let mut text = self.token_type.to_string();
        text.append(" ");
        text.append(self.lexeme.as_str());
        text.append(" ");
        match &self.literal {
            None => text.append("None"),
            Some(LiteralValue::NumberValue(numeral)) => {
                text.append("Some(NumberValue(");
                text.append(numeral.as_str());
                text.append("))");
            },
            Some(LiteralValue::StringValue(content)) => {
                text.append("Some(StringValue(");
                let shown = quote(content.as_str());
                text.append(shown.as_str());
                text.append("))");
            },
        }
        assert(text@ =~= token_text(self@));
        text
    }
}

impl Clone for Token {
    fn clone(&self) -> (copy: Self)
        ensures
            copy == *self,
    {
        Token {
            token_type: self.token_type,
            lexeme: self.lexeme.clone(),
            literal: match &self.literal {
                Some(value) => Some(value.clone()),
                None => None,
            },
            line_nu: self.line_nu,
        }
    }
}

/// A token sequence that can be parsed: number and string tokens carry their
/// payloads, and the end-of-input token is last.
pub open spec fn is_token_stream(tokens: Seq<TokenView>) -> bool {
    &&& tokens.len() > 0
    &&& tokens.last().token_type == TokenType::Eof
    &&& forall|i: int| 0 <= i < tokens.len() ==> (#[trigger] tokens[i]).carries_payload()
}

/// A token stream as the scanner hands it on: every token is well formed.
pub open spec fn is_scanned_stream(tokens: Seq<TokenView>) -> bool {
    &&& is_token_stream(tokens)
    &&& forall|i: int| 0 <= i < tokens.len() ==> (#[trigger] tokens[i]).well_formed()
}

/// The views of a sequence of tokens, in order.
pub open spec fn token_views(tokens: Seq<Token>) -> Seq<TokenView> {
    tokens.map_values(|t: Token| t@)
}

} // verus!
