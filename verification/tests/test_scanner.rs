use lox::error::LoxError;
use lox::number::Number;
use lox::object::LoxObject;
use lox::scanner::Scanner;
use lox::source_location::SourceLocation;
use lox::token::TokenType;

fn kinds(source: &str) -> Vec<TokenType> {
    let mut scanner = Scanner::new(source);
    let tokens = scanner.scan().unwrap();
    tokens.iter().map(|token| token.kind).collect()
}

#[test]
fn it_should_scan_single_char_tokens() {
    let mut scanner = Scanner::new("{ } ( ) / . ! + - * > < =");
    let tokens = scanner.scan().unwrap();

    let correct_types = vec![
        TokenType::LeftBrace,
        TokenType::RightBrace,
        TokenType::LeftParen,
        TokenType::RightParen,
        TokenType::Slash,
        TokenType::Dot,
        TokenType::Bang,
        TokenType::Plus,
        TokenType::Minus,
        TokenType::Star,
        TokenType::Greater,
        TokenType::Less,
        TokenType::Equal,
        TokenType::EOF,
    ];

    for (i, token) in tokens.iter().enumerate() {
        assert_eq!(token.kind, correct_types[i]);
    }
    assert_eq!(tokens.len(), correct_types.len());
}

#[test]
fn it_should_scan_double_char_tokens() {
    let mut scanner = Scanner::new("== != >= <=");
    let tokens = scanner.scan().unwrap();

    let correct_types = vec![
        TokenType::EqualEqual,
        TokenType::BangEqual,
        TokenType::GreaterEqual,
        TokenType::LessEqual,
        TokenType::EOF,
    ];

    for (i, token) in tokens.iter().enumerate() {
        assert_eq!(token.kind, correct_types[i]);
    }
    assert_eq!(tokens.len(), correct_types.len());
}

#[test]
fn it_should_recognize_comments() {
    let mut scanner = Scanner::new("// hi there");
    let tokens = scanner.scan().unwrap();

    assert_eq!(tokens[0].kind, TokenType::EOF);
}

#[test]
fn it_should_scan_string() {
    let location1 = SourceLocation::new_single_line(1, 1, 46);
    let location2 = SourceLocation::new_single_line(1, 49, 88);
    let mut scanner = Scanner::new(" \"The quick brown fox jumped over the lazy cat.\" \"If you're reading this have a good day!\" ");
    let tokens = scanner.scan().unwrap();

    assert_eq!(tokens[0].kind, TokenType::String);
    assert_eq!(
        tokens[0].literal,
        Some(LoxObject::String {
            location: location1,
            value: "The quick brown fox jumped over the lazy cat.".to_string()
        })
    );
    assert_eq!(
        tokens[0].lexeme,
        "\"The quick brown fox jumped over the lazy cat.\""
    );

    assert_eq!(tokens[1].kind, TokenType::String);
    assert_eq!(
        tokens[1].literal,
        Some(LoxObject::String {
            location: location2,
            value: "If you're reading this have a good day!".to_string()
        })
    );
    assert_eq!(
        tokens[1].lexeme,
        "\"If you're reading this have a good day!\""
    );
}

#[test]
fn it_should_scan_keywords() {
    let mut scanner = Scanner::new(
        "and class else false for fun if nil or print return super this true var while keyword",
    );
    let tokens = scanner.scan().unwrap();

    let correct_types = vec![
        TokenType::And,
        TokenType::Class,
        TokenType::Else,
        TokenType::False,
        TokenType::For,
        TokenType::Function,
        TokenType::If,
        TokenType::Nil,
        TokenType::Or,
        TokenType::Print,
        TokenType::Return,
        TokenType::Super,
        TokenType::This,
        TokenType::True,
        TokenType::Var,
        TokenType::While,
        TokenType::Identifier,
        TokenType::EOF,
    ];

    for (i, token) in tokens.iter().enumerate() {
        assert_eq!(token.kind, correct_types[i]);
    }
    assert_eq!(tokens.len(), correct_types.len());
}

#[test]
fn it_should_scan_numbers() {
    let mut scanner = Scanner::new("3.1415926536 2.7182818284");
    let location1 = SourceLocation::new_single_line(1, 0, 12);
    let location2 = SourceLocation::new_single_line(1, 13, 25);

    let tokens = scanner.scan().unwrap();

    assert_eq!(
        tokens[0].literal,
        Some(LoxObject::Number {
            location: location1,
            value: Number::from_bits(3.1415926536f64.to_bits())
        })
    );
    assert_eq!(
        tokens[1].literal,
        Some(LoxObject::Number {
            location: location2,
            value: Number::from_bits(2.7182818284f64.to_bits())
        })
    );
}

#[test]
fn operators_come_out_in_order_and_whole() {
    assert_eq!(
        kinds("== != >= <= { } ( ) / . ! + - * > < ="),
        vec![
            TokenType::EqualEqual,
            TokenType::BangEqual,
            TokenType::GreaterEqual,
            TokenType::LessEqual,
            TokenType::LeftBrace,
            TokenType::RightBrace,
            TokenType::LeftParen,
            TokenType::RightParen,
            TokenType::Slash,
            TokenType::Dot,
            TokenType::Bang,
            TokenType::Plus,
            TokenType::Minus,
            TokenType::Star,
            TokenType::Greater,
            TokenType::Less,
            TokenType::Equal,
            TokenType::EOF,
        ]
    );
}

#[test]
fn an_unterminated_string_is_an_error() {
    let mut scanner = Scanner::new("\"abc");
    let error = scanner.scan().unwrap_err();
    assert_eq!(
        error,
        LoxError::UnterminatedString { location: SourceLocation::new_multiple_line(1, 1, 0, 3) }
    );
}

#[test]
fn an_unknown_character_is_an_error() {
    let mut scanner = Scanner::new("var a;\n  @");
    let error = scanner.scan().unwrap_err();
    assert_eq!(
        error,
        LoxError::UnexpectedChar { location: SourceLocation::new_single_line(2, 2, 2), char: '@' }
    );
}

#[test]
fn an_empty_text_gives_only_the_end_of_input() {
    let mut scanner = Scanner::new("");
    let tokens = scanner.scan().unwrap();
    assert_eq!(tokens.len(), 1);
    assert_eq!(tokens[0].kind, TokenType::EOF);
    assert_eq!(tokens[0].lexeme, "");
    assert_eq!(tokens[0].location, SourceLocation::new_single_line(1, 0, 0));
}

#[test]
fn commas_and_semicolons_are_tokens() {
    assert_eq!(
        kinds("f(a, b);"),
        vec![
            TokenType::Identifier,
            TokenType::LeftParen,
            TokenType::Identifier,
            TokenType::Comma,
            TokenType::Identifier,
            TokenType::RightParen,
            TokenType::Semicolon,
            TokenType::EOF,
        ]
    );
}

#[test]
fn columns_are_counted_from_the_start_of_the_line() {
    let mut scanner = Scanner::new("a\n  bc // note\nd");
    let tokens = scanner.scan().unwrap();
    assert_eq!(tokens[0].location, SourceLocation::new_single_line(1, 0, 0));
    assert_eq!(tokens[1].lexeme, "bc");
    assert_eq!(tokens[1].location, SourceLocation::new_single_line(2, 2, 3));
    assert_eq!(tokens[2].lexeme, "d");
    assert_eq!(tokens[2].location, SourceLocation::new_single_line(3, 0, 0));
}

#[test]
fn a_string_may_span_lines() {
    let mut scanner = Scanner::new("\"a\nb\" x");
    let tokens = scanner.scan().unwrap();
    assert_eq!(
        tokens[0].literal,
        Some(LoxObject::String {
            location: SourceLocation::new_multiple_line(1, 2, 0, 3),
            value: "a\nb".to_string()
        })
    );
    assert_eq!(tokens[0].location, SourceLocation::new_single_line(2, 0, 4));
    assert_eq!(tokens[1].kind, TokenType::Identifier);
}

#[test]
fn a_dot_without_a_digit_after_it_ends_the_number() {
    let mut scanner = Scanner::new("12.");
    let tokens = scanner.scan().unwrap();
    assert_eq!(tokens[0].kind, TokenType::Number);
    assert_eq!(tokens[0].lexeme, "12");
    assert_eq!(
        tokens[0].literal,
        Some(LoxObject::Number {
            location: SourceLocation::new_single_line(1, 0, 2),
            value: Number::from_bits(12.0f64.to_bits())
        })
    );
    assert_eq!(tokens[1].kind, TokenType::Dot);
}

#[test]
fn a_word_with_letters_beyond_ascii_is_an_identifier() {
    let mut scanner = Scanner::new("größe_2");
    let tokens = scanner.scan().unwrap();
    assert_eq!(tokens[0].kind, TokenType::Identifier);
    assert_eq!(tokens[0].lexeme, "größe_2");
    assert_eq!(tokens[0].location, SourceLocation::new_single_line(1, 0, 6));
}
