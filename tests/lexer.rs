use monkeylang::lexer::Lexer;
use monkeylang::token::{LexError, Token as T};

fn scan(input: &str) -> Vec<T> {
    Lexer::new(input).tokens().unwrap()
}

fn ident(name: &str) -> T {
    T::Ident(name.into())
}

#[test]
fn lex_test() {
    const INPUT: &str = r#"let five = 5;
let ten = 10;

let add = fn(x, y) {
  x + y;
};

let result = add(five, ten);
!-/*5;
5 < 10 > 5;

if (5 < 10) {
	return true;
} else {
	return false;
}

10 == 10;
10 != 9;"#;
    let correct_tokens = vec![
        T::Let,
        T::Ident("five".into()),
        T::Assign,
        T::Int(5),
        T::Semicolon,
        T::Let,
        T::Ident("ten".into()),
        T::Assign,
        T::Int(10),
        T::Semicolon,
        T::Let,
        T::Ident("add".into()),
        T::Assign,
        T::Function,
        T::LParen,
        T::Ident("x".into()),
        T::Comma,
        T::Ident("y".into()),
        T::RParen,
        T::LBrace,
        T::Ident("x".into()),
        T::Plus,
        T::Ident("y".into()),
        T::Semicolon,
        T::RBrace,
        T::Semicolon,
        T::Let,
        T::Ident("result".into()),
    ];

    let lex = Lexer::new(INPUT).tokens().unwrap();

    for (expected, got) in lex.into_iter().zip(correct_tokens.iter()) {
        assert_eq!(expected, got.clone());
    }
}

#[test]
fn lex_test_remaining_tokens() {
    let got = scan("!-/*5;\n5 < 10 > 5;\nif (5 < 10) {\n\treturn true;\n} else {\n\treturn false;\n}\n10 == 10;\n10 != 9;");
    let expected = vec![
        T::Bang, T::Minus, T::Slash, T::Asterisk, T::Int(5), T::Semicolon,
        T::Int(5), T::LT, T::Int(10), T::GT, T::Int(5), T::Semicolon,
        T::If, T::LParen, T::Int(5), T::LT, T::Int(10), T::RParen, T::LBrace,
        T::Return, T::True, T::Semicolon,
        T::RBrace, T::Else, T::LBrace,
        T::Return, T::False, T::Semicolon,
        T::RBrace,
        T::Int(10), T::EQ, T::Int(10), T::Semicolon,
        T::Int(10), T::NotEQ, T::Int(9), T::Semicolon,
    ];
    assert_eq!(got, expected);
}

#[test]
fn let_statement() {
    let mut lexer = Lexer::new("let five = 5;");
    let expected = vec![T::Let, ident("five"), T::Assign, T::Int(5), T::Semicolon, T::Eof];
    for token in expected {
        assert_eq!(lexer.next_token(), Ok(token));
    }
}

#[test]
fn function_literal() {
    assert_eq!(
        scan("fn(x, y) { x + y; }"),
        vec![
            T::Function, T::LParen, ident("x"), T::Comma, ident("y"), T::RParen, T::LBrace,
            ident("x"), T::Plus, ident("y"), T::Semicolon, T::RBrace,
        ]
    );
}

#[test]
fn comparison_operators() {
    assert_eq!(
        scan("5 < 10 > 5;"),
        vec![T::Int(5), T::LT, T::Int(10), T::GT, T::Int(5), T::Semicolon]
    );
}

#[test]
fn stray_character_is_illegal_and_scanning_resumes() {
    assert_eq!(scan("a @ b"), vec![ident("a"), T::Illegal, ident("b")]);
    assert_eq!(scan("1@2"), vec![T::Int(1), T::Illegal, T::Int(2)]);
    assert_eq!(scan("\0"), vec![T::Illegal]);
}

#[test]
fn single_and_multi_digit_integers() {
    assert_eq!(scan("5"), vec![T::Int(5)]);
    assert_eq!(scan("12345"), vec![T::Int(12345)]);
    assert_eq!(scan("007"), vec![T::Int(7)]);
}

#[test]
fn largest_integer_fits() {
    assert_eq!(scan("2147483647"), vec![T::Int(i32::MAX)]);
}

#[test]
fn integer_too_large_is_an_error() {
    let mut lexer = Lexer::new("x = 2147483648;");
    assert_eq!(lexer.next_token(), Ok(ident("x")));
    assert_eq!(lexer.next_token(), Ok(T::Assign));
    assert_eq!(lexer.next_token(), Err(LexError::IntegerTooLarge));
    assert_eq!(Lexer::new("1 99999999999999999999").tokens(), Err(LexError::IntegerTooLarge));
}

#[test]
fn end_of_input_repeats() {
    let mut lexer = Lexer::new("  x  ");
    assert_eq!(lexer.next_token(), Ok(ident("x")));
    for _ in 0..4 {
        assert_eq!(lexer.next_token(), Ok(T::Eof));
        assert_eq!(lexer.position(), 5);
    }
    let mut empty = Lexer::new("");
    assert_eq!(empty.next_token(), Ok(T::Eof));
    assert_eq!(empty.next_token(), Ok(T::Eof));
}

#[test]
fn stream_stops_at_end_of_input() {
    let mut lexer = Lexer::new("a;");
    assert_eq!(lexer.next(), Ok(Some(ident("a"))));
    assert_eq!(lexer.next(), Ok(Some(T::Semicolon)));
    assert_eq!(lexer.next(), Ok(None));
    assert_eq!(lexer.next(), Ok(None));
    assert_eq!(scan(" \t\r\n "), vec![]);
}

#[test]
fn spans_rebuild_the_source() {
    let input = " let x1 = !y?;\n  if (a != b) { é + 42 } @ ";
    let chars: Vec<char> = input.chars().collect();
    let mut lexer = Lexer::new(input);
    let mut rebuilt = String::new();
    let mut start = lexer.position();
    loop {
        let token = lexer.next_token().unwrap();
        let end = lexer.position();
        assert!(start <= end);
        rebuilt.extend(&chars[start..end]);
        start = end;
        if token == T::Eof {
            break;
        }
    }
    assert_eq!(rebuilt, input);
}

#[test]
fn reserved_words_alone_are_keywords() {
    let words = [
        ("fn", T::Function),
        ("let", T::Let),
        ("true", T::True),
        ("false", T::False),
        ("if", T::If),
        ("else", T::Else),
        ("return", T::Return),
    ];
    for (word, keyword) in words {
        assert_eq!(T::keyword(word), Some(keyword.clone()));
        assert_eq!(scan(word), vec![keyword]);
    }
}

#[test]
fn other_words_are_identifiers() {
    for word in ["lets", "Let", "fnx", "iff", "retur", "x", "café", "Δx"] {
        assert_eq!(scan(word), vec![ident(word)]);
    }
    assert_eq!(T::keyword("lets"), None);
}

#[test]
fn identifier_letters_include_underscore_question_and_bang() {
    assert_eq!(scan("valid? set! _tmp"), vec![ident("valid?"), ident("set!"), ident("_tmp")]);
    assert_eq!(scan("x1"), vec![ident("x"), T::Int(1)]);
    assert_eq!(scan("!x"), vec![T::Bang, ident("x")]);
}

#[test]
fn non_alphabetic_symbols_are_illegal() {
    assert_eq!(scan("💝"), vec![T::Illegal]);
    assert_eq!(scan("#"), vec![T::Illegal]);
}

#[test]
fn two_character_operators() {
    assert_eq!(scan("=="), vec![T::EQ]);
    assert_eq!(scan("!="), vec![T::NotEQ]);
    assert_eq!(scan("="), vec![T::Assign]);
    assert_eq!(scan("!"), vec![T::Bang]);
    assert_eq!(scan("= ="), vec![T::Assign, T::Assign]);
    assert_eq!(scan("==="), vec![T::EQ, T::Assign]);
    assert_eq!(scan("!=="), vec![T::NotEQ, T::Assign]);
    assert_eq!(scan("=!"), vec![T::Assign, T::Bang]);
}

#[test]
fn identifier_letter_predicate() {
    assert!(T::is_identifier_letter('a'));
    assert!(T::is_identifier_letter('Z'));
    assert!(T::is_identifier_letter('é'));
    assert!(T::is_identifier_letter('?'));
    assert!(!T::is_identifier_letter('1'));
    assert!(!T::is_identifier_letter(' '));
    assert!(!T::is_identifier_letter('='));
}

#[test]
fn new_ident_resolves_keywords() {
    assert_eq!(T::new_ident("return"), T::Return);
    assert_eq!(T::new_ident("returns"), ident("returns"));
}
