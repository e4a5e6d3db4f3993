use lm::expr::{Expr, LiteralValue};
use lm::parser::{Expected, Parser, SyntaxError};
use lm::scanner::Scanner;
use lm::stmt::Stmt;
use lm::text::join;
use lm::token_type::{Token, TokenType};

fn parsed(source: &str) -> Result<Vec<Stmt>, String> {
    let mut scan = Scanner::new(source);
    let tokens = scan.scan_tokens().expect("the text should scan");
    let mut parser = Parser::new(tokens);
    parser.parse()
}

fn statements(source: &str) -> Vec<Stmt> {
    parsed(source).expect("the text should parse")
}

fn syntax_errors(source: &str) -> String {
    parsed(source).expect_err("the text should not parse")
}

/// The tree in prefix form, without node identities.
fn shape(expr: &Expr) -> String {
    match expr {
        Expr::Binary { left, operator, right, .. } => {
            format!("({} {} {})", operator.lexeme, shape(left), shape(right))
        }
        Expr::Unary { operator, right, .. } => format!("({} {})", operator.lexeme, shape(right)),
        Expr::Grouping { expression, .. } => format!("(group {})", shape(expression)),
        Expr::Literal { value, .. } => value.to_string(),
        Expr::Var { value, .. } => value.lexeme.clone(),
    }
}

/// The identities of the nodes, children before their parent.
fn identities(expr: &Expr, into: &mut Vec<usize>) {
    match expr {
        Expr::Binary { id, left, right, .. } => {
            identities(left, into);
            identities(right, into);
            into.push(*id);
        }
        Expr::Unary { id, right, .. } => {
            identities(right, into);
            into.push(*id);
        }
        Expr::Grouping { id, expression, .. } => {
            identities(expression, into);
            into.push(*id);
        }
        Expr::Literal { id, .. } => into.push(*id),
        Expr::Var { id, .. } => into.push(*id),
    }
}

fn expression_of(stmt: &Stmt) -> &Expr {
    match stmt {
        Stmt::Expression { expression, .. } => expression,
        Stmt::Print { expression, .. } => expression,
        Stmt::Var { initializer, .. } => initializer,
    }
}

fn shape_of_statement(source: &str) -> String {
    let stmts = statements(source);
    assert_eq!(stmts.len(), 1);
    shape(expression_of(&stmts[0]))
}

#[test]
fn product_binds_tighter_than_difference() {
    let stmts = statements("10 * 10 - 1;");
    assert_eq!(stmts.len(), 1);
    match &stmts[0] {
        Stmt::Expression { expression, .. } => match expression {
            Expr::Binary { left, operator, right, .. } => {
                assert_eq!(operator.token_type, TokenType::Minus);
                match &**left {
                    Expr::Binary { left, operator, right, .. } => {
                        assert_eq!(operator.token_type, TokenType::Star);
                        assert_eq!(shape(left), "10");
                        assert_eq!(shape(right), "10");
                    }
                    other => panic!("not a product: {:?}", other),
                }
                assert_eq!(shape(right), "1");
            }
            other => panic!("not a difference: {:?}", other),
        },
        other => panic!("not an expression statement: {:?}", other),
    }
    assert_eq!(shape_of_statement("10 * 10 - 1;"), "(- (* 10 10) 1)");
}

#[test]
fn binary_operators_nest_to_the_left() {
    assert_eq!(shape_of_statement("1 - 2 - 3;"), "(- (- 1 2) 3)");
    assert_eq!(shape_of_statement("8 / 4 / 2;"), "(/ (/ 8 4) 2)");
    assert_eq!(shape_of_statement("1 + 10 * 10 + 1;"), "(+ (+ 1 (* 10 10)) 1)");
    assert_eq!(shape_of_statement("1 == 2 != 3;"), "(!= (== 1 2) 3)");
    assert_eq!(shape_of_statement("1 < 2 >= 3;"), "(>= (< 1 2) 3)");
}

#[test]
fn levels_of_precedence() {
    assert_eq!(shape_of_statement("1 == 2 < 3 + 4 * 5;"), "(== 1 (< 2 (+ 3 (* 4 5))))");
    assert_eq!(shape_of_statement("1 * 2 + 3 < 4 == 5;"), "(== (< (+ (* 1 2) 3) 4) 5)");
    assert_eq!(shape_of_statement("1 <= 2 > 3;"), "(> (<= 1 2) 3)");
}

#[test]
fn unary_operators_nest_to_the_right() {
    assert_eq!(shape_of_statement("-1;"), "(- 1)");
    assert_eq!(shape_of_statement("!-!a;"), "(! (- (! a)))");
    assert_eq!(shape_of_statement("1 - -2;"), "(- 1 (- 2))");
    assert_eq!(shape_of_statement("-1 * 2;"), "(* (- 1) 2)");
}

#[test]
fn grouping_wraps_its_expression() {
    assert_eq!(shape_of_statement("(1 + 2) * 3;"), "(* (group (+ 1 2)) 3)");
    assert_eq!(shape_of_statement("((a));"), "(group (group a))");
}

#[test]
fn primary_expressions() {
    assert_eq!(shape_of_statement("a;"), "a");
    assert_eq!(shape_of_statement("10.10;"), "10.10");
    assert_eq!(shape_of_statement("\"hello\";"), "\"hello\"");
    match expression_of(&statements("\"hello\";")[0]) {
        Expr::Literal { value: LiteralValue::StringValue(text), .. } => assert_eq!(text, "hello"),
        other => panic!("not a string literal: {:?}", other),
    }
    match expression_of(&statements("7;")[0]) {
        Expr::Literal { value: LiteralValue::Number(numeral), .. } => assert_eq!(numeral, "7"),
        other => panic!("not a number literal: {:?}", other),
    }
}

#[test]
fn the_three_statements() {
    let stmts = statements("let a = 10; println a; a + 1;");
    assert_eq!(stmts.len(), 3);
    match &stmts[0] {
        Stmt::Var { name, initializer, .. } => {
            assert_eq!(name.lexeme, "a");
            assert_eq!(name.token_type, TokenType::Identifier);
            assert_eq!(shape(initializer), "10");
        }
        other => panic!("not a declaration: {:?}", other),
    }
    match &stmts[1] {
        Stmt::Print { expression, .. } => assert_eq!(shape(expression), "a"),
        other => panic!("not a print statement: {:?}", other),
    }
    match &stmts[2] {
        Stmt::Expression { expression, .. } => assert_eq!(shape(expression), "(+ a 1)"),
        other => panic!("not an expression statement: {:?}", other),
    }
}

#[test]
fn empty_program() {
    assert_eq!(statements("").len(), 0);
    assert_eq!(statements(" \n ").len(), 0);
}

#[test]
fn identities_are_given_children_first() {
    let stmts = statements("(1 + 2) * -3; println a;");
    let mut seen = Vec::new();
    identities(expression_of(&stmts[0]), &mut seen);
    assert_eq!(seen, vec![0, 1, 2, 3, 4, 5, 6]);
    match &stmts[0] {
        Stmt::Expression { id, .. } => assert_eq!(*id, 7),
        other => panic!("not an expression statement: {:?}", other),
    }
    let mut seen = Vec::new();
    identities(expression_of(&stmts[1]), &mut seen);
    assert_eq!(seen, vec![8]);
    match &stmts[1] {
        Stmt::Print { id, .. } => assert_eq!(*id, 9),
        other => panic!("not a print statement: {:?}", other),
    }
}

#[test]
fn parsing_twice_gives_the_same_identities() {
    let mut scan = Scanner::new("1 + 2;");
    let tokens = scan.scan_tokens().unwrap();
    let mut parser = Parser::new(tokens);
    let first = parser.parse().unwrap();
    let second = parser.parse().unwrap();
    let mut a = Vec::new();
    identities(expression_of(&first[0]), &mut a);
    let mut b = Vec::new();
    identities(expression_of(&second[0]), &mut b);
    assert_eq!(a, vec![0, 1, 2]);
    assert_eq!(a, b);
}

#[test]
fn missing_semicolon_after_expression() {
    assert_eq!(syntax_errors("1 + 2"), "Line 1: Expected ';' after expression.");
    assert_eq!(syntax_errors("println 1"), "Line 1: Expected ';' after expression.");
    assert_eq!(syntax_errors("\n\nprintln 1\n"), "Line 4: Expected ';' after expression.");
}

#[test]
fn missing_parts_of_a_declaration() {
    assert_eq!(syntax_errors("let = 1;"), "Line 1: Expected variable name");
    assert_eq!(syntax_errors("let a 1;"), "Line 1: Expected '=' after variable name");
    assert_eq!(syntax_errors("let a;"), "Line 1: Expected '=' after variable name");
    assert_eq!(syntax_errors("let a = 1"), "Line 1: Expected ';' after variable declaration");
    assert_eq!(syntax_errors("let a = ;"), "Line 1: Expected expression");
    assert_eq!(syntax_errors("let"), "Line 1: Expected variable name");
}

#[test]
fn unclosed_grouping() {
    assert_eq!(syntax_errors("(1 + 2;"), "Line 1: Expected ')'");
    assert_eq!(syntax_errors("(1 + 2"), "Line 1: Expected ')'");
}

#[test]
fn missing_operand() {
    assert_eq!(syntax_errors("1 + ;"), "Line 1: Expected expression");
    assert_eq!(syntax_errors("1 +\n\n* 2;"), "Line 3: Expected expression");
    assert_eq!(syntax_errors(")"), "Line 1: Expected expression");
    assert_eq!(syntax_errors("-;"), "Line 1: Expected expression");
    assert_eq!(syntax_errors("="), "Line 1: Expected expression");
}

#[test]
fn errors_of_several_declarations_are_joined() {
    assert_eq!(
        syntax_errors("let = 1;\nprintln 2;\n1 + ;\nlet b = (3;"),
        "Line 1: Expected variable name\nLine 3: Expected expression\nLine 4: Expected ')'"
    );
}

#[test]
fn parsing_resumes_behind_a_semicolon() {
    // The rest of the first declaration is skipped; the second one is sound.
    assert_eq!(syntax_errors("1 + * 2 3 4; println 5;"), "Line 1: Expected expression");
}

#[test]
fn parsing_resumes_at_a_keyword() {
    assert_eq!(
        syntax_errors("1 2 3 println (4;\n5; 6 7 let = 8;"),
        "Line 1: Expected ';' after expression.\nLine 1: Expected ')'\nLine 2: Expected ';' after expression.\nLine 2: Expected variable name"
    );
}

#[test]
fn the_offending_token_is_skipped() {
    // The `let` that stands where an operand is expected is skipped with
    // the rest of the declaration.
    assert_eq!(syntax_errors("1 + let a = 2;"), "Line 1: Expected expression");
}

#[test]
fn syntax_error_message() {
    let error = SyntaxError { line: 42, expected: Expected::RightParen };
    assert_eq!(error.message(), "Line 42: Expected ')'");
    let error = SyntaxError { line: 0, expected: Expected::VariableName };
    assert_eq!(error.message(), "Line 0: Expected variable name");
}

#[test]
fn joining_lines() {
    assert_eq!(join(&vec![]), "");
    assert_eq!(join(&vec!["a".to_string()]), "a");
    assert_eq!(join(&vec!["a".to_string(), "".to_string(), "b".to_string()]), "a\n\nb");
}

#[test]
fn literal_text_scans_back_to_the_same_payload() {
    for source in ["10.10;", "7;", "\"hello\";", "\"\";", "0.5;"] {
        let stmts = statements(source);
        let value = match expression_of(&stmts[0]) {
            Expr::Literal { value, .. } => value.clone(),
            other => panic!("not a literal: {:?}", other),
        };
        let text = value.to_string();
        let mut scan = Scanner::new(&text);
        let tokens = scan.scan_tokens().unwrap();
        assert_eq!(tokens.len(), 2);
        let again = LiteralValue::from_token(tokens[0].clone());
        assert_eq!(again.to_string(), text);
        match (&value, &again) {
            (LiteralValue::Number(a), LiteralValue::Number(b)) => assert_eq!(a, b),
            (LiteralValue::StringValue(a), LiteralValue::StringValue(b)) => assert_eq!(a, b),
            other => panic!("the kinds differ: {:?}", other),
        }
    }
}

#[test]
fn cloned_statement_is_equal() {
    let stmts = statements("let a = (1 + -2) * b; println \"s\";");
    for stmt in &stmts {
        let copy = stmt.clone();
        assert_eq!(format!("{:?}", copy), format!("{:?}", stmt));
    }
    let copy = expression_of(&stmts[0]).copy_tree();
    assert_eq!(shape(&copy), "(* (group (+ 1 (- 2))) b)");
}

#[test]
fn literal_value_of_a_token() {
    let mut scan = Scanner::new("12.5 \"a b\"");
    let tokens = scan.scan_tokens().unwrap();
    match LiteralValue::from_token(tokens[0].clone()) {
        LiteralValue::Number(numeral) => assert_eq!(numeral, "12.5"),
        other => panic!("not a number: {:?}", other),
    }
    match LiteralValue::from_token(tokens[1].clone()) {
        LiteralValue::StringValue(text) => assert_eq!(text, "a b"),
        other => panic!("not a string: {:?}", other),
    }
    assert_eq!(LiteralValue::Number("12.5".to_string()).to_string(), "12.5");
    assert_eq!(LiteralValue::StringValue("a b".to_string()).to_string(), "\"a b\"");
}

fn plain_token(token_type: TokenType, lexeme: &str) -> Token {
    Token { token_type, lexeme: lexeme.to_string(), literal: None, line_nu: 1 }
}

fn string_token(text: &str) -> Token {
    Token {
        token_type: TokenType::StringLit,
        lexeme: format!("\"{}\"", text),
        literal: Some(lm::token_type::LiteralValue::StringValue(text.to_string())),
        line_nu: 1,
    }
}

#[test]
fn tokens_made_by_hand_are_parsed() {
    let tokens = vec![
        plain_token(TokenType::Println, "println"),
        string_token("say \"hi\""),
        plain_token(TokenType::Semicolon, ";"),
        plain_token(TokenType::Eof, ""),
    ];
    assert!(Parser::accepts(&tokens));
    let mut parser = Parser::new(tokens);
    let stmts = parser.parse().unwrap();
    assert_eq!(stmts.len(), 1);
    match expression_of(&stmts[0]) {
        Expr::Literal { value: LiteralValue::StringValue(text), .. } => {
            assert_eq!(text, "say \"hi\"")
        }
        other => panic!("not a string literal: {:?}", other),
    }
}

#[test]
fn token_sequences_that_cannot_be_parsed() {
    assert!(!Parser::accepts(&vec![]));
    assert!(!Parser::accepts(&vec![plain_token(TokenType::Semicolon, ";")]));
    assert!(!Parser::accepts(&vec![
        plain_token(TokenType::Number, "1"),
        plain_token(TokenType::Eof, ""),
    ]));
    assert!(!Parser::accepts(&vec![
        plain_token(TokenType::StringLit, "\"a\""),
        plain_token(TokenType::Eof, ""),
    ]));
    assert!(!Parser::accepts(&vec![
        Token {
            token_type: TokenType::Number,
            lexeme: "1".to_string(),
            literal: Some(lm::token_type::LiteralValue::StringValue("1".to_string())),
            line_nu: 1,
        },
        plain_token(TokenType::Eof, ""),
    ]));
    assert!(Parser::accepts(&vec![plain_token(TokenType::Eof, "")]));
    assert!(Parser::accepts(&vec![
        plain_token(TokenType::Eof, ""),
        plain_token(TokenType::Plus, "+"),
        plain_token(TokenType::Eof, ""),
    ]));
}

#[test]
fn parsing_stops_at_the_first_end_of_input() {
    let tokens = vec![
        plain_token(TokenType::Identifier, "a"),
        plain_token(TokenType::Semicolon, ";"),
        plain_token(TokenType::Eof, ""),
        plain_token(TokenType::Identifier, "b"),
        plain_token(TokenType::Semicolon, ";"),
        plain_token(TokenType::Eof, ""),
    ];
    let mut parser = Parser::new(tokens);
    assert_eq!(parser.parse().unwrap().len(), 1);
}
