use lox::error::{format_arrows, highlight_location, render, source_line, LoxError, Piece, Style};
use lox::source_location::SourceLocation;
use lox::{parse_statements, run_source};

fn texts(pieces: &[Piece]) -> String {
    pieces.iter().map(|piece| piece.text.as_str()).collect()
}

fn plain_piece(text: &str) -> Piece {
    Piece { style: Style::Plain, text: text.to_string() }
}

#[test]
fn arrows_stand_under_the_span() {
    assert_eq!(format_arrows(0, 0), "^");
    assert_eq!(format_arrows(2, 4), "  ^^^");
    assert_eq!(format_arrows(3, 3), "   ^");
    assert_eq!(format_arrows(5, 2), "   ");
}

#[test]
fn lines_are_counted_from_one() {
    let text: Vec<char> = "first\nsecond\r\n\nfourth".chars().collect();
    assert_eq!(source_line(&text, 0), None);
    assert_eq!(source_line(&text, 1), Some("first".to_string()));
    assert_eq!(source_line(&text, 2), Some("second".to_string()));
    assert_eq!(source_line(&text, 3), Some("".to_string()));
    assert_eq!(source_line(&text, 4), Some("fourth".to_string()));
    assert_eq!(source_line(&text, 5), None);
    let ended: Vec<char> = "only\n".chars().collect();
    assert_eq!(source_line(&ended, 1), Some("only".to_string()));
    assert_eq!(source_line(&ended, 2), None);
    let empty: Vec<char> = Vec::new();
    assert_eq!(source_line(&empty, 1), None);
    let bare: Vec<char> = "a\rb\r".chars().collect();
    assert_eq!(source_line(&bare, 1), Some("a\rb\r".to_string()));
}

#[test]
fn lines_agree_with_the_standard_library() {
    for source in ["", "\n", "a", "a\n", "a\nb", "a\r\nb\r\n", "\n\nx\n", "x\r", "\r\n", "a\n\r\nb"] {
        let text: Vec<char> = source.chars().collect();
        for line in 1..6usize {
            assert_eq!(
                source_line(&text, line),
                source.lines().nth(line - 1).map(|found| found.to_string())
            );
        }
    }
}

#[test]
fn the_highlight_frames_the_line_and_marks_the_span() {
    let source = "var a = 1;\nvar b = a +;\n";
    let pieces = highlight_location(source, &SourceLocation::new_single_line(2, 11, 11));
    assert_eq!(
        texts(&pieces),
        "\n    |\n  2 | var b = a +;\n    |            ^\n\n"
    );
    let styles: Vec<Style> = pieces.iter().map(|piece| piece.style).collect();
    assert_eq!(
        styles,
        vec![
            Style::Plain,
            Style::Frame,
            Style::Plain,
            Style::Frame,
            Style::Plain,
            Style::Frame,
            Style::Plain,
            Style::Frame,
            Style::Plain,
            Style::Emphasis,
            Style::Plain,
        ]
    );
    assert_eq!(pieces[3].text, "  2");
    assert_eq!(pieces[9].text, "           ^");
}

#[test]
fn the_margin_grows_with_the_line_number() {
    let mut source = String::new();
    for _ in 0..11 {
        source.push_str("x\n");
    }
    source.push_str("print 1");
    let pieces = highlight_location(&source, &SourceLocation::new_single_line(12, 6, 6));
    assert_eq!(texts(&pieces), "\n     |\n  12 | print 1\n     |       ^\n\n");
}

#[test]
fn a_line_that_the_text_does_not_have_is_not_shown() {
    assert!(highlight_location("one line", &SourceLocation::new_single_line(2, 0, 0)).is_empty());
    assert!(highlight_location("one line", &SourceLocation::new_single_line(0, 0, 0)).is_empty());
}

#[test]
fn a_diagnostic_names_the_error_and_shows_the_line() {
    let source = "print 1;\nprint 1 + \"a\";";
    let mut interpreter = lox::interpreter::Interpreter::new();
    let error = run_source(source, &mut interpreter).unwrap_err();
    let pieces = error.raise(source);
    assert_eq!(pieces[0], Piece { style: Style::Error, text: "error".to_string() });
    assert_eq!(
        texts(&pieces),
        "error: The operation `+` is invalid for `number` and `string`\n\n    |\n  2 | print 1 + \"a\";\n    |       ^^^^^^\n\n"
    );
}

#[test]
fn the_character_that_stopped_the_scan_is_emphasized() {
    let source = "var a = #;";
    let error = parse_statements(source).unwrap_err();
    assert_eq!(
        error.message(),
        vec![
            plain_piece("Unexpected character: "),
            Piece { style: Style::Emphasis, text: "#".to_string() },
        ]
    );
    assert_eq!(
        texts(&error.raise(source)),
        "error: Unexpected character: #\n\n    |\n  1 | var a = #;\n    |         ^\n\n"
    );
}

#[test]
fn every_error_has_something_to_say() {
    let location = SourceLocation::new_single_line(1, 0, 0);
    let text = |name: &str| name.to_string();
    let cases = vec![
        (LoxError::UnterminatedString { location }, "Unterminated string here."),
        (LoxError::ExpectedStatement { location }, "Expected statement here."),
        (LoxError::ExpectedExpression { location }, "Expected expression here."),
        (LoxError::ExpectedToken { location, message: text("Expected )") }, "Expected )"),
        (LoxError::ExpectedSemicolon { location }, "Expected semicolon here."),
        (
            LoxError::InvalidVariableName { location, variable: text("1") },
            "Got invalid variable name: `1`",
        ),
        (
            LoxError::InvalidFunctionName { location, variable: text("(") },
            "Got invalid function name: `(`",
        ),
        (LoxError::UnexpectedToken { location, token: text("}") }, "Unexpected token `}`"),
        (
            LoxError::InvalidAssignmentTarget { location, lexeme: text("a + b") },
            "Unexpected token `a + b`",
        ),
        (LoxError::ExceededMaximumArity { location }, "Cannot have more than 255 arguments."),
        (
            LoxError::InvalidBinaryOperation {
                location,
                left: text("nil"),
                operator: text("*"),
                right: text("boolean"),
            },
            "The operation `*` is invalid for `nil` and `boolean`",
        ),
        (
            LoxError::InvalidUnaryOperation {
                location,
                operator: text("-"),
                right: text("callable"),
            },
            "The operation `-` is invalid for `callable`",
        ),
        (
            LoxError::InvalidAssignment { location, identifier: text("y") },
            "Tried assigning value to `y` which is undefined.",
        ),
        (
            LoxError::UndefinedVariable { location, variable: text("z") },
            "Tried accessing the variable `z` which is undefined.",
        ),
        (LoxError::InvalidCall { location }, "Can only call functions."),
        (
            LoxError::LimitExceeded { location },
            "Evaluation went beyond the limit of the interpreter.",
        ),
    ];
    for (error, expected) in cases {
        assert_eq!(error.message(), vec![plain_piece(expected)]);
        assert_eq!(error.location(), location);
    }
}

#[test]
fn plain_pieces_are_rendered_as_they_are() {
    let pieces = vec![plain_piece("a"), plain_piece(""), plain_piece("bc\n")];
    assert_eq!(render(&pieces), "abc\n");
    assert_eq!(render(&Vec::new()), "");
}

#[test]
fn colored_pieces_keep_their_text() {
    let pieces = vec![
        Piece { style: Style::Error, text: "error".to_string() },
        plain_piece(": "),
        Piece { style: Style::Emphasis, text: "#".to_string() },
        Piece { style: Style::Frame, text: "|".to_string() },
    ];
    let shown = render(&pieces);
    let error = shown.find("error").unwrap();
    let colon = shown.find(": ").unwrap();
    let hash = shown.find('#').unwrap();
    let bar = shown.find('|').unwrap();
    assert!(error < colon && colon < hash && hash < bar);
    let colored = pieces[0].show();
    assert!(colored == "error" || colored == "\u{1b}[31merror\u{1b}[0m");
    assert_eq!(pieces[1].show(), ": ");
}
