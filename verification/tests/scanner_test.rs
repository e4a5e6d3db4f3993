use lm::scanner::{get_keywords, find_keyword, LexError, Scanner};
use lm::token_type::{LiteralValue, Token, TokenType};

fn scanned(source: &str) -> Vec<Token> {
    let mut scan = Scanner::new(source);
    scan.scan_tokens().expect("the text should scan")
}

fn scan_errors(source: &str) -> Vec<LexError> {
    let mut scan = Scanner::new(source);
    scan.scan_tokens().expect_err("the text should not scan")
}

fn kinds_of(tokens: &[Token]) -> Vec<TokenType> {
    tokens.iter().map(|t| t.token_type).collect()
}

fn number_payload(token: &Token) -> String {
    match &token.literal {
        Some(LiteralValue::NumberValue(numeral)) => numeral.clone(),
        other => panic!("not a number payload: {:?}", other),
    }
}

fn string_payload(token: &Token) -> String {
    match &token.literal {
        Some(LiteralValue::StringValue(text)) => text.clone(),
        other => panic!("not a string payload: {:?}", other),
    }
}

#[test]
fn keyword_test() {
    let mut scan = Scanner::new("let");
    let result = scan.scan_tokens();

    assert!(result.is_ok());

    let tokens = result.unwrap();

    // One token for the text; the end-of-input marker follows it.
    assert_eq!(tokens[..tokens.len() - 1].len(), 1);
    assert_eq!(tokens[0].token_type, TokenType::Let);
    assert_eq!(tokens[1].token_type, TokenType::Eof);
}

#[test]
fn string_test() {
    let mut scan = Scanner::new("\"hello\"");
    let result = scan.scan_tokens();

    assert!(result.is_ok());

    let tokens = result.unwrap();

    // One token for the text; the end-of-input marker follows it.
    assert_eq!(tokens[..tokens.len() - 1].len(), 1);
    assert_eq!(tokens[0].token_type, TokenType::StringLit);
    assert_eq!(tokens[0].lexeme, "\"hello\"");
    assert_eq!(string_payload(&tokens[0]), "hello");
    assert_eq!(tokens[1].token_type, TokenType::Eof);
}

#[test]
fn empty_source_is_only_end_of_input() {
    let tokens = scanned("");
    assert_eq!(kinds_of(&tokens), vec![TokenType::Eof]);
    assert_eq!(tokens[0].lexeme, "");
    assert_eq!(tokens[0].line_nu, 1);
    assert!(tokens[0].literal.is_none());
}

#[test]
fn println_keyword_is_one_token() {
    let tokens = scanned("println");
    assert_eq!(kinds_of(&tokens), vec![TokenType::Println, TokenType::Eof]);
    assert_eq!(tokens[0].lexeme, "println");
    assert!(tokens[0].literal.is_none());
}

#[test]
fn keywords_match_exactly() {
    assert_eq!(kinds_of(&scanned("Let")), vec![TokenType::Identifier, TokenType::Eof]);
    assert_eq!(kinds_of(&scanned("LET")), vec![TokenType::Identifier, TokenType::Eof]);
    assert_eq!(kinds_of(&scanned("letter")), vec![TokenType::Identifier, TokenType::Eof]);
    assert_eq!(kinds_of(&scanned("let1")), vec![TokenType::Identifier, TokenType::Eof]);
    assert_eq!(kinds_of(&scanned("printl")), vec![TokenType::Identifier, TokenType::Eof]);
}

#[test]
fn keyword_table_holds_both_keywords() {
    let table = get_keywords();
    assert_eq!(table.len(), 2);
    assert_eq!(find_keyword(&table, &"println".to_string()), Some(TokenType::Println));
    assert_eq!(find_keyword(&table, &"let".to_string()), Some(TokenType::Let));
    assert_eq!(find_keyword(&table, &"lets".to_string()), None);
    assert_eq!(find_keyword(&table, &"".to_string()), None);
}

#[test]
fn number_with_fraction_is_one_token() {
    let tokens = scanned("10.10");
    assert_eq!(kinds_of(&tokens), vec![TokenType::Number, TokenType::Eof]);
    assert_eq!(tokens[0].lexeme, "10.10");
    assert_eq!(number_payload(&tokens[0]), "10.10");
    assert_eq!(number_payload(&tokens[0]).parse::<f64>().unwrap(), 10.10);
}

#[test]
fn whole_number_is_one_token() {
    let tokens = scanned("12345678901234567890123");
    assert_eq!(kinds_of(&tokens), vec![TokenType::Number, TokenType::Eof]);
    assert_eq!(number_payload(&tokens[0]), "12345678901234567890123");
}

#[test]
fn trailing_point_is_not_part_of_the_number() {
    let errors = scan_errors("1.");
    assert_eq!(errors, vec![LexError::UnrecognizedChar(1, '.')]);

    let errors = scan_errors("1.a");
    assert_eq!(errors, vec![LexError::UnrecognizedChar(1, '.')]);
}

#[test]
fn second_point_ends_the_number() {
    let errors = scan_errors("1.2.3");
    assert_eq!(errors, vec![LexError::UnrecognizedChar(1, '.')]);
}

#[test]
fn number_then_identifier() {
    let tokens = scanned("12ab");
    assert_eq!(kinds_of(&tokens), vec![TokenType::Number, TokenType::Identifier, TokenType::Eof]);
    assert_eq!(tokens[0].lexeme, "12");
    assert_eq!(tokens[1].lexeme, "ab");
}

#[test]
fn punctuation_and_operators() {
    let tokens = scanned("; ( ) + - * / ! != = == > >= < <=");
    assert_eq!(
        kinds_of(&tokens),
        vec![
            TokenType::Semicolon,
            TokenType::LeftParen,
            TokenType::RightParen,
            TokenType::Plus,
            TokenType::Minus,
            TokenType::Star,
            TokenType::Slash,
            TokenType::Bang,
            TokenType::BangEq,
            TokenType::Eq,
            TokenType::EqEq,
            TokenType::Greater,
            TokenType::GreaterEq,
            TokenType::Less,
            TokenType::LessEq,
            TokenType::Eof,
        ]
    );
    assert_eq!(tokens[8].lexeme, "!=");
    assert_eq!(tokens[10].lexeme, "==");
}

#[test]
fn equals_signs_pair_from_the_left() {
    let tokens = scanned("===");
    assert_eq!(kinds_of(&tokens), vec![TokenType::EqEq, TokenType::Eq, TokenType::Eof]);
    let tokens = scanned("= =");
    assert_eq!(kinds_of(&tokens), vec![TokenType::Eq, TokenType::Eq, TokenType::Eof]);
}

#[test]
fn white_space_gives_no_token_and_newline_counts_lines() {
    let tokens = scanned(" \t\r\n a \n\n b");
    assert_eq!(kinds_of(&tokens), vec![TokenType::Identifier, TokenType::Identifier, TokenType::Eof]);
    assert_eq!(tokens[0].line_nu, 2);
    assert_eq!(tokens[1].line_nu, 4);
    assert_eq!(tokens[2].line_nu, 4);
}

#[test]
fn string_may_span_lines() {
    let tokens = scanned("\"a\nb\" c");
    assert_eq!(kinds_of(&tokens), vec![TokenType::StringLit, TokenType::Identifier, TokenType::Eof]);
    assert_eq!(string_payload(&tokens[0]), "a\nb");
    assert_eq!(tokens[0].lexeme, "\"a\nb\"");
    assert_eq!(tokens[0].line_nu, 2);
    assert_eq!(tokens[1].line_nu, 2);
}

#[test]
fn string_has_no_escapes() {
    let tokens = scanned("\"a\\\" b");
    assert_eq!(kinds_of(&tokens), vec![TokenType::StringLit, TokenType::Identifier, TokenType::Eof]);
    assert_eq!(string_payload(&tokens[0]), "a\\");
}

#[test]
fn empty_string_literal() {
    let tokens = scanned("\"\"");
    assert_eq!(kinds_of(&tokens), vec![TokenType::StringLit, TokenType::Eof]);
    assert_eq!(string_payload(&tokens[0]), "");
}

#[test]
fn non_ascii_text_inside_a_string() {
    let tokens = scanned("\"h\u{e9}llo\" x");
    assert_eq!(string_payload(&tokens[0]), "h\u{e9}llo");
    assert_eq!(tokens[1].lexeme, "x");
}

#[test]
fn unterminated_string_is_reported() {
    let errors = scan_errors("\"hello");
    assert_eq!(errors, vec![LexError::UnterminatedString(1)]);
}

#[test]
fn unterminated_string_names_the_line_of_its_opening_mark() {
    let errors = scan_errors("a\n\n\"hello\nworld\n");
    assert_eq!(errors, vec![LexError::UnterminatedString(3)]);
}

#[test]
fn lone_quotation_mark_is_unterminated() {
    assert_eq!(scan_errors("\""), vec![LexError::UnterminatedString(1)]);
}

#[test]
fn unrecognized_character_is_reported() {
    let errors = scan_errors("a @ b");
    assert_eq!(errors, vec![LexError::UnrecognizedChar(1, '@')]);
}

#[test]
fn all_errors_are_collected() {
    let errors = scan_errors("@\n#\n let x = \"abc");
    assert_eq!(
        errors,
        vec![
            LexError::UnrecognizedChar(1, '@'),
            LexError::UnrecognizedChar(2, '#'),
            LexError::UnterminatedString(3),
        ]
    );
}

#[test]
fn non_ascii_letter_is_unrecognized() {
    let errors = scan_errors("\u{e9}");
    assert_eq!(errors, vec![LexError::UnrecognizedChar(1, '\u{e9}')]);
}

#[test]
fn lex_error_messages() {
    assert_eq!(LexError::UnrecognizedChar(12, '@').message(), "unrecognize char at line 12: @");
    assert_eq!(LexError::UnterminatedString(3).message(), "unterminated string at line 3");
    assert_eq!(LexError::UnterminatedString(0).message(), "unterminated string at line 0");
    assert_eq!(
        LexError::UnterminatedString(1234567890).message(),
        "unterminated string at line 1234567890"
    );
}

#[test]
fn scanning_twice_gives_the_same_tokens() {
    let mut scan = Scanner::new("let a = 1;");
    let first = scan.scan_tokens().unwrap();
    let second = scan.scan_tokens().unwrap();
    assert_eq!(kinds_of(&first), kinds_of(&second));
    assert_eq!(first.len(), 6);
}

#[test]
fn declaration_scans_to_its_tokens() {
    let tokens = scanned("let a = 10;\nprintln a;");
    assert_eq!(
        kinds_of(&tokens),
        vec![
            TokenType::Let,
            TokenType::Identifier,
            TokenType::Eq,
            TokenType::Number,
            TokenType::Semicolon,
            TokenType::Println,
            TokenType::Identifier,
            TokenType::Semicolon,
            TokenType::Eof,
        ]
    );
    assert_eq!(tokens[5].line_nu, 2);
    assert_eq!(tokens[8].line_nu, 2);
}

#[test]
fn token_kind_names() {
    assert_eq!(TokenType::Plus.to_string(), "Plus");
    assert_eq!(TokenType::StringLit.to_string(), "StringLit");
    assert_eq!(TokenType::Eof.to_string(), "Eof");
    assert_eq!(TokenType::GreaterEq.to_string(), "GreaterEq");
}

#[test]
fn tokens_in_text() {
    let tokens = scanned("let a = 10.10; \"hi\"");
    assert_eq!(tokens[0].to_string(), "Let let None");
    assert_eq!(tokens[1].to_string(), "Identifier a None");
    assert_eq!(tokens[3].to_string(), "Number 10.10 Some(NumberValue(10.10))");
    assert_eq!(tokens[5].to_string(), "StringLit \"hi\" Some(StringValue(\"hi\"))");
    assert_eq!(tokens[6].to_string(), "Eof  None");
}

#[test]
fn cloned_token_is_equal() {
    let tokens = scanned("\"hi\" 12");
    for token in &tokens {
        let copy = token.clone();
        assert_eq!(copy.token_type, token.token_type);
        assert_eq!(copy.lexeme, token.lexeme);
        assert_eq!(copy.line_nu, token.line_nu);
        assert_eq!(copy.to_string(), token.to_string());
    }
}
