//! Errors of scanning, parsing and running, each with the span it refers to.

use crate::scanner::{run_end, Run};
use crate::source_location::SourceLocation;
use crate::text::{decimal, decimal_digits, repeated, to_chars};
use colored::Colorize;
use vstd::prelude::*;
use vstd::string::StringExecFns;

verus! {

/// A result, or the error that stands in its place.
pub type LoxResult<T> = Result<T, LoxError>;

/// What can go wrong: in scanning, in parsing and in running a program.
#[derive(Debug, Clone, PartialEq)]
pub enum LoxError {
    // scanner errors
    UnterminatedString { location: SourceLocation },
    UnexpectedChar { location: SourceLocation, char: char },
    // parser errors
    ExpectedStatement { location: SourceLocation },
    ExpectedExpression { location: SourceLocation },
    ExpectedToken { location: SourceLocation, message: String },
    ExpectedSemicolon { location: SourceLocation },
    InvalidVariableName { location: SourceLocation, variable: String },
    InvalidFunctionName { location: SourceLocation, variable: String },
    UnexpectedToken { location: SourceLocation, token: String },
    InvalidAssignmentTarget { location: SourceLocation, lexeme: String },
    ExceededMaximumArity { location: SourceLocation },
    // interpreter errors
    InvalidBinaryOperation {
        location: SourceLocation,
        left: String,
        operator: String,
        right: String,
    },
    InvalidUnaryOperation { location: SourceLocation, operator: String, right: String },
    InvalidAssignment { location: SourceLocation, identifier: String },
    UndefinedVariable { location: SourceLocation, variable: String },
    InvalidCall { location: SourceLocation },
    /// Evaluation was nested, or a loop repeated, more often than the
    /// interpreter's limit allows.
    LimitExceeded { location: SourceLocation },
}

/// What an error is, with its texts as sequences of characters.
pub enum ErrorView {
    UnterminatedString { location: SourceLocation },
    UnexpectedChar { location: SourceLocation, char: char },
    ExpectedStatement { location: SourceLocation },
    ExpectedExpression { location: SourceLocation },
    ExpectedToken { location: SourceLocation, message: Seq<char> },
    ExpectedSemicolon { location: SourceLocation },
    InvalidVariableName { location: SourceLocation, variable: Seq<char> },
    InvalidFunctionName { location: SourceLocation, variable: Seq<char> },
    UnexpectedToken { location: SourceLocation, token: Seq<char> },
    InvalidAssignmentTarget { location: SourceLocation, lexeme: Seq<char> },
    ExceededMaximumArity { location: SourceLocation },
    InvalidBinaryOperation {
        location: SourceLocation,
        left: Seq<char>,
        operator: Seq<char>,
        right: Seq<char>,
    },
    InvalidUnaryOperation { location: SourceLocation, operator: Seq<char>, right: Seq<char> },
    InvalidAssignment { location: SourceLocation, identifier: Seq<char> },
    UndefinedVariable { location: SourceLocation, variable: Seq<char> },
    InvalidCall { location: SourceLocation },
    LimitExceeded { location: SourceLocation },
}

impl View for LoxError {
    type V = ErrorView;

    open spec fn view(&self) -> ErrorView {
        match self {
            LoxError::UnterminatedString { location } => ErrorView::UnterminatedString {
                location: *location,
            },
            LoxError::UnexpectedChar { location, char } => ErrorView::UnexpectedChar {
                location: *location,
                char: *char,
            },
            LoxError::ExpectedStatement { location } => ErrorView::ExpectedStatement {
                location: *location,
            },
            LoxError::ExpectedExpression { location } => ErrorView::ExpectedExpression {
                location: *location,
            },
            LoxError::ExpectedToken { location, message } => ErrorView::ExpectedToken {
                location: *location,
                message: message@,
            },
            LoxError::ExpectedSemicolon { location } => ErrorView::ExpectedSemicolon {
                location: *location,
            },
            LoxError::InvalidVariableName { location, variable } => ErrorView::InvalidVariableName {
                location: *location,
                variable: variable@,
            },
            LoxError::InvalidFunctionName { location, variable } => ErrorView::InvalidFunctionName {
                location: *location,
                variable: variable@,
            },
            LoxError::UnexpectedToken { location, token } => ErrorView::UnexpectedToken {
                location: *location,
                token: token@,
            },
            LoxError::InvalidAssignmentTarget {
                location,
                lexeme,
            } => ErrorView::InvalidAssignmentTarget { location: *location, lexeme: lexeme@ },
            LoxError::ExceededMaximumArity { location } => ErrorView::ExceededMaximumArity {
                location: *location,
            },
            LoxError::InvalidBinaryOperation {
                location,
                left,
                operator,
                right,
            } => ErrorView::InvalidBinaryOperation {
                location: *location,
                left: left@,
                operator: operator@,
                right: right@,
            },
            LoxError::InvalidUnaryOperation {
                location,
                operator,
                right,
            } => ErrorView::InvalidUnaryOperation {
                location: *location,
                operator: operator@,
                right: right@,
            },
            LoxError::InvalidAssignment { location, identifier } => ErrorView::InvalidAssignment {
                location: *location,
                identifier: identifier@,
            },
            LoxError::UndefinedVariable { location, variable } => ErrorView::UndefinedVariable {
                location: *location,
                variable: variable@,
            },
            LoxError::InvalidCall { location } => ErrorView::InvalidCall { location: *location },
            LoxError::LimitExceeded { location } => ErrorView::LimitExceeded {
                location: *location,
            },
        }
    }
}

/// The span that an error refers to.
pub open spec fn error_location(error: ErrorView) -> SourceLocation {
    match error {
        ErrorView::UnterminatedString { location } => location,
        ErrorView::UnexpectedChar { location, .. } => location,
        ErrorView::ExpectedStatement { location } => location,
        ErrorView::ExpectedExpression { location } => location,
        ErrorView::ExpectedToken { location, .. } => location,
        ErrorView::ExpectedSemicolon { location } => location,
        ErrorView::InvalidVariableName { location, .. } => location,
        ErrorView::InvalidFunctionName { location, .. } => location,
        ErrorView::UnexpectedToken { location, .. } => location,
        ErrorView::InvalidAssignmentTarget { location, .. } => location,
        ErrorView::ExceededMaximumArity { location } => location,
        ErrorView::InvalidBinaryOperation { location, .. } => location,
        ErrorView::InvalidUnaryOperation { location, .. } => location,
        ErrorView::InvalidAssignment { location, .. } => location,
        ErrorView::UndefinedVariable { location, .. } => location,
        ErrorView::InvalidCall { location } => location,
        ErrorView::LimitExceeded { location } => location,
    }
}

impl LoxError {
    /// The span that the error refers to.
    pub fn location(&self) -> (r: SourceLocation)
        ensures
            r == error_location(self@),
    {
        match self {
            LoxError::UnterminatedString { location } => *location,
            LoxError::UnexpectedChar { location, .. } => *location,
            LoxError::ExpectedStatement { location } => *location,
            LoxError::ExpectedExpression { location } => *location,
            LoxError::ExpectedToken { location, .. } => *location,
            LoxError::ExpectedSemicolon { location } => *location,
            LoxError::InvalidVariableName { location, .. } => *location,
            LoxError::InvalidFunctionName { location, .. } => *location,
            LoxError::UnexpectedToken { location, .. } => *location,
            LoxError::InvalidAssignmentTarget { location, .. } => *location,
            LoxError::ExceededMaximumArity { location } => *location,
            LoxError::InvalidBinaryOperation { location, .. } => *location,
            LoxError::InvalidUnaryOperation { location, .. } => *location,
            LoxError::InvalidAssignment { location, .. } => *location,
            LoxError::UndefinedVariable { location, .. } => *location,
            LoxError::InvalidCall { location } => *location,
            LoxError::LimitExceeded { location } => *location,
        }
    }
}

/// How a piece of a diagnostic is shown.
#[derive(PartialEq, Eq, Structural, Debug, Clone, Copy)]
pub enum Style {
    /// As it is.
    Plain,
    /// As the word that announces an error: in red.
    Error,
    /// As what the reader should look at: in yellow.
    Emphasis,
    /// As part of the frame around the source line: in cyan.
    Frame,
}

/// A piece of a diagnostic: text, and how it is shown.
#[derive(Debug, Clone, PartialEq)]
pub struct Piece {
    pub style: Style,
    pub text: String,
}

/// What a piece is, with its text as a sequence of characters.
pub struct PieceView {
    pub style: Style,
    pub text: Seq<char>,
}

impl View for Piece {
    type V = PieceView;

    open spec fn view(&self) -> PieceView {
        PieceView { style: self.style, text: self.text@ }
    }
}

/// The pieces of `pieces`, each as its view.
pub open spec fn pieces_model(pieces: Seq<Piece>) -> Seq<PieceView> {
    Seq::new(pieces.len(), |i: int| pieces[i]@)
}

/// A piece of plain text.
pub open spec fn plain(text: Seq<char>) -> PieceView {
    PieceView { style: Style::Plain, text }
}

/// A piece of the frame.
pub open spec fn framed(text: Seq<char>) -> PieceView {
    PieceView { style: Style::Frame, text }
}

/// What an error says, as pieces: a sentence, in which the character that
/// a scan stopped at is emphasized.
pub open spec fn message(error: ErrorView) -> Seq<PieceView> {
    match error {
        ErrorView::UnexpectedChar { char, .. } => seq![
            plain("Unexpected character: "@),
            PieceView { style: Style::Emphasis, text: seq![char] },
        ],
        ErrorView::UnterminatedString { .. } => seq![plain("Unterminated string here."@)],
        ErrorView::ExpectedStatement { .. } => seq![plain("Expected statement here."@)],
        ErrorView::ExpectedExpression { .. } => seq![plain("Expected expression here."@)],
        ErrorView::ExpectedToken { message, .. } => seq![plain(message)],
        ErrorView::ExpectedSemicolon { .. } => seq![plain("Expected semicolon here."@)],
        ErrorView::InvalidVariableName { variable, .. } => seq![
            plain("Got invalid variable name: `"@ + variable + "`"@),
        ],
        ErrorView::InvalidFunctionName { variable, .. } => seq![
            plain("Got invalid function name: `"@ + variable + "`"@),
        ],
        ErrorView::UnexpectedToken { token, .. } => seq![
            plain("Unexpected token `"@ + token + "`"@),
        ],
        ErrorView::InvalidAssignmentTarget { lexeme, .. } => seq![
            plain("Unexpected token `"@ + lexeme + "`"@),
        ],
        ErrorView::ExceededMaximumArity { .. } => seq![
            plain("Cannot have more than 255 arguments."@),
        ],
        ErrorView::InvalidBinaryOperation { left, operator, right, .. } => seq![
            plain(
                "The operation `"@ + operator + "` is invalid for `"@ + left + "` and `"@ + right
                    + "`"@,
            ),
        ],
        ErrorView::InvalidUnaryOperation { operator, right, .. } => seq![
            plain("The operation `"@ + operator + "` is invalid for `"@ + right + "`"@),
        ],
        ErrorView::InvalidAssignment { identifier, .. } => seq![
            plain("Tried assigning value to `"@ + identifier + "` which is undefined."@),
        ],
        ErrorView::UndefinedVariable { variable, .. } => seq![
            plain("Tried accessing the variable `"@ + variable + "` which is undefined."@),
        ],
        ErrorView::InvalidCall { .. } => seq![plain("Can only call functions."@)],
        ErrorView::LimitExceeded { .. } => seq![
            plain("Evaluation went beyond the limit of the interpreter."@),
        ],
    }
}

/// The marks under a source line: spaces up to column `start`, then carets
/// up to and including column `end`.
pub open spec fn arrows(start: usize, end: usize) -> Seq<char> {
    Seq::new(
        (end + 1) as nat,
        |i: int|
            if i < start {
                ' '
            } else {
                '^'
            },
    )
}

/// The line of `text` that begins at index `from`, if `countdown` is 1, or
/// the line that many lines further on. Lines end at a line feed; a
/// carriage return directly before the line feed is not part of the line.
/// After the last line feed there is a line only if there is text.
pub open spec fn line_from(text: Seq<char>, from: int, countdown: nat) -> Option<Seq<char>>
    decreases text.len() - from,
{
    if from < 0 || from >= text.len() || countdown == 0 {
        None
    } else {
        let end = run_end(text, from, Run::Comment);
        if countdown == 1 {
            if from < end < text.len() && text[end - 1] == '\r' {
                Some(text.subrange(from, end - 1))
            } else {
                Some(text.subrange(from, end))
            }
        } else if from <= end < text.len() {
            line_from(text, end + 1, (countdown - 1) as nat)
        } else {
            None
        }
    }
}

/// The line of `text` with the number `line`, the first line being 1.
pub open spec fn line_of(text: Seq<char>, line: usize) -> Option<Seq<char>> {
    line_from(text, 0, line as nat)
}

/// The source line that `location` begins on, framed and marked:
///
/// ```text
///
///     |
///   3 | var x = 1 +;
///     |            ^
///
/// ```
///
/// Nothing where the text has no such line.
pub open spec fn highlight(text: Seq<char>, location: SourceLocation) -> Seq<PieceView> {
    match line_of(text, location.line_start) {
        Some(line) => {
            let number = decimal_digits(location.line_start as nat);
            let margin = Seq::new(number.len() + 2, |i: int| ' ');
            seq![
                plain(seq!['\n'] + margin + seq![' ']),
                framed(seq!['|']),
                plain(seq!['\n']),
                framed(seq![' ', ' '] + number),
                plain(seq![' ']),
                framed(seq!['|']),
                plain(seq![' '] + line + seq!['\n'] + margin + seq![' ']),
                framed(seq!['|']),
                plain(seq![' ']),
                PieceView { style: Style::Emphasis, text: arrows(location.start, location.end) },
                plain(seq!['\n', '\n']),
            ]
        },
        None => Seq::empty(),
    }
}

/// The diagnostic of `error` in the program `text`: the word `error`, what
/// the error says, and the source line it refers to.
pub open spec fn diagnostic(error: ErrorView, text: Seq<char>) -> Seq<PieceView> {
    seq![PieceView { style: Style::Error, text: "error"@ }, plain(": "@)] + message(error)
        + seq![plain(seq!['\n'])] + highlight(text, error_location(error))
}

/// The marks under a source line.
pub fn format_arrows(start: usize, end: usize) -> (r: String)
    ensures
        r@ == arrows(start, end),
{
    let mut retval = String::new();
    let mut i: usize = 0;
    while i < end
        invariant
            i <= end,
            retval@ == Seq::new(
                i as nat,
                |j: int|
                    if j < start {
                        ' '
                    } else {
                        '^'
                    },
            ),
        decreases end - i,
    {
        if i < start {
            retval.push(' ');
        } else {
            retval.push('^');
        }
        i += 1;
        assert(retval@ =~= Seq::new(
            i as nat,
            |j: int|
                if j < start {
                    ' '
                } else {
                    '^'
                },
        ));
    }
    if end < start {
        retval.push(' ');
    } else {
        retval.push('^');
    }
    assert(retval@ =~= arrows(start, end));
    retval
}

/// The line of `text` with the number `line`, the first line being 1.
pub fn source_line(text: &Vec<char>, line: usize) -> (r: Option<String>)
    ensures
        match line_of(text@, line) {
            Some(found) => r is Some && r->Some_0@ == found,
            None => r is None,
        },
{
    let mut from: usize = 0;
    let mut countdown: usize = line;
    while from < text.len() && countdown > 1
        invariant
            from <= text.len(),
            line_from(text@, from as int, countdown as nat) == line_of(text@, line),
        decreases text.len() - from,
    {
        let end = line_end(text, from);
        if end >= text.len() {
            return None;
        }
        from = end + 1;
        countdown -= 1;
    }
    if from >= text.len() || countdown == 0 {
        return None;
    }
    let end = line_end(text, from);
    if from < end && end < text.len() && text[end - 1] == '\r' {
        Some(crate::text::substring(text, from, end - 1))
    } else {
        Some(crate::text::substring(text, from, end))
    }
}

/// The index of the line feed that ends the line that `from` is in, or the
/// length of the text.
fn line_end(text: &Vec<char>, from: usize) -> (r: usize)
    requires
        from <= text.len(),
    ensures
        r == run_end(text@, from as int, Run::Comment),
        from <= r <= text.len(),
{
    let mut i: usize = from;
    while i < text.len() && text[i] != '\n'
        invariant
            from <= i <= text.len(),
            run_end(text@, i as int, Run::Comment) == run_end(text@, from as int, Run::Comment),
        decreases text.len() - i,
    {
        i += 1;
    }
    i
}

/// A piece with the text `text`.
fn piece(style: Style, text: String) -> (r: Piece)
    ensures
        r@ == (PieceView { style, text: text@ }),
{
    Piece { style, text }
}

/// The source line that `location` begins on, framed and marked.
pub fn highlight_location(source_code: &str, location: &SourceLocation) -> (r: Vec<Piece>)
    ensures
        pieces_model(r@) == highlight(source_code@, *location),
{
    let text = to_chars(source_code);
    let mut pieces: Vec<Piece> = Vec::new();
    match source_line(&text, location.line_start) {
        Some(source) => {
            let number = decimal(location.line_start);
            let ghost digits = number@;
            let ghost margin = Seq::new(digits.len() + 2, |i: int| ' ');
            let width = number.as_str().unicode_len();
            let mut first = String::from_str("\n");
            proof {
                reveal_strlit("\n");
                reveal_strlit(" ");
                reveal_strlit("|");
                reveal_strlit("  ");
                reveal_strlit("\n\n");
            }
            proof {
                crate::text::lemma_decimal_is_short(location.line_start as nat);
            }
            let spaces = repeated(' ', width + 2);
            first.append(spaces.as_str());
            first.push(' ');
            assert(first@ =~= seq!['\n'] + margin + seq![' ']);
            pieces.push(piece(Style::Plain, first));
            pieces.push(piece(Style::Frame, String::from_str("|")));
            pieces.push(piece(Style::Plain, String::from_str("\n")));
            let mut context = String::from_str("  ");
            context.append(number.as_str());
            assert(context@ =~= seq![' ', ' '] + digits);
            pieces.push(piece(Style::Frame, context));
            pieces.push(piece(Style::Plain, String::from_str(" ")));
            pieces.push(piece(Style::Frame, String::from_str("|")));
            let mut middle = String::from_str(" ");
            middle.append(source.as_str());
            middle.push('\n');
            middle.append(spaces.as_str());
            middle.push(' ');
            assert(middle@ =~= seq![' '] + source@ + seq!['\n'] + margin + seq![' ']);
            pieces.push(piece(Style::Plain, middle));
            pieces.push(piece(Style::Frame, String::from_str("|")));
            pieces.push(piece(Style::Plain, String::from_str(" ")));
            pieces.push(piece(Style::Emphasis, format_arrows(location.start, location.end)));
            pieces.push(piece(Style::Plain, String::from_str("\n\n")));
            assert("|"@ =~= seq!['|']);
            assert("\n"@ =~= seq!['\n']);
            assert(" "@ =~= seq![' ']);
            assert("\n\n"@ =~= seq!['\n', '\n']);
            assert(pieces_model(pieces@) =~= highlight(source_code@, *location));
        },
        None => {
            assert(pieces_model(pieces@) =~= highlight(source_code@, *location));
        },
    }
    pieces
}

/// `Colorize::red` and the `Display` of the `ColoredString` it gives: the
/// text, with the escape codes for red around it where `colored` finds
/// that the terminal and the environment allow colors.
#[verifier::external_body]
fn paint_red(text: &str) -> String {
    text.red().to_string()
}

/// `Colorize::yellow` and the `Display` of the `ColoredString` it gives:
/// the text, with the escape codes for yellow around it where `colored`
/// finds that the terminal and the environment allow colors.
#[verifier::external_body]
fn paint_yellow(text: &str) -> String {
    text.yellow().to_string()
}

/// `Colorize::cyan` and the `Display` of the `ColoredString` it gives: the
/// text, with the escape codes for cyan around it where `colored` finds
/// that the terminal and the environment allow colors.
#[verifier::external_body]
fn paint_cyan(text: &str) -> String {
    text.cyan().to_string()
}

/// Whether `texts` can be what the pieces `pieces` are shown as: one text
/// for each piece, and for a plain piece its own text.
pub open spec fn shows(pieces: Seq<PieceView>, texts: Seq<Seq<char>>) -> bool {
    &&& texts.len() == pieces.len()
    &&& forall|i: int|
        0 <= i < pieces.len() && (#[trigger] pieces[i]).style == Style::Plain ==> texts[i]
            == pieces[i].text
}

/// The texts of `texts`, one after the other.
pub open spec fn joined(texts: Seq<Seq<char>>) -> Seq<char>
    decreases texts.len(),
{
    if texts.len() == 0 {
        Seq::empty()
    } else {
        joined(texts.drop_last()) + texts.last()
    }
}

impl Piece {
    /// The text of the piece as a terminal shows it: a plain piece as it
    /// is, any other in its color if colors are in use.
    pub fn show(&self) -> (r: String)
        ensures
            self.style == Style::Plain ==> r@ == self.text@,
    {
        match self.style {
            Style::Plain => self.text.clone(),
            Style::Error => paint_red(self.text.as_str()),
            Style::Emphasis => paint_yellow(self.text.as_str()),
            Style::Frame => paint_cyan(self.text.as_str()),
        }
    }
}

/// The pieces of a diagnostic as one text, each piece as a terminal shows it.
pub fn render(pieces: &Vec<Piece>) -> (r: String)
    ensures
        exists|texts: Seq<Seq<char>>| shows(pieces_model(pieces@), texts) && r@ == joined(texts),
{
    let mut out = String::new();
    let ghost mut texts: Seq<Seq<char>> = Seq::empty();
    let mut i: usize = 0;
    while i < pieces.len()
        invariant
            i <= pieces.len(),
            texts.len() == i,
            forall|j: int|
                0 <= j < i && (#[trigger] pieces_model(pieces@)[j]).style == Style::Plain
                    ==> texts[j] == pieces_model(pieces@)[j].text,
            out@ == joined(texts),
        decreases pieces.len() - i,
    {
        let shown = pieces[i].show();
        out.append(shown.as_str());
        proof {
            let longer = texts.push(shown@);
            assert(longer.drop_last() =~= texts);
            texts = longer;
        }
        i += 1;
    }
    proof {
        assert(shows(pieces_model(pieces@), texts));
    }
    out
}

impl LoxError {
    /// What the error says.
    pub fn message(&self) -> (r: Vec<Piece>)
        ensures
            pieces_model(r@) == message(self@),
    {
        let mut pieces: Vec<Piece> = Vec::new();
        match self {
            LoxError::UnexpectedChar { char, .. } => {
                pieces.push(piece(Style::Plain, String::from_str("Unexpected character: ")));
                let mut shown = String::new();
                shown.push(*char);
                assert(shown@ =~= seq![*char]);
                pieces.push(piece(Style::Emphasis, shown));
            },
            LoxError::UnterminatedString { .. } => {
                pieces.push(piece(Style::Plain, String::from_str("Unterminated string here.")));
            },
            LoxError::ExpectedStatement { .. } => {
                pieces.push(piece(Style::Plain, String::from_str("Expected statement here.")));
            },
            LoxError::ExpectedExpression { .. } => {
                pieces.push(piece(Style::Plain, String::from_str("Expected expression here.")));
            },
            LoxError::ExpectedToken { message, .. } => {
                pieces.push(piece(Style::Plain, message.clone()));
            },
            LoxError::ExpectedSemicolon { .. } => {
                pieces.push(piece(Style::Plain, String::from_str("Expected semicolon here.")));
            },
            LoxError::InvalidVariableName { variable, .. } => {
                let mut text = String::from_str("Got invalid variable name: `");
                text.append(variable.as_str());
                text.append("`");
                pieces.push(piece(Style::Plain, text));
            },
            LoxError::InvalidFunctionName { variable, .. } => {
                let mut text = String::from_str("Got invalid function name: `");
                text.append(variable.as_str());
                text.append("`");
                pieces.push(piece(Style::Plain, text));
            },
            LoxError::UnexpectedToken { token, .. } => {
                let mut text = String::from_str("Unexpected token `");
                text.append(token.as_str());
                text.append("`");
                pieces.push(piece(Style::Plain, text));
            },
            LoxError::InvalidAssignmentTarget { lexeme, .. } => {
                let mut text = String::from_str("Unexpected token `");
                text.append(lexeme.as_str());
                text.append("`");
                pieces.push(piece(Style::Plain, text));
            },
            LoxError::ExceededMaximumArity { .. } => {
                pieces.push(
                    piece(Style::Plain, String::from_str("Cannot have more than 255 arguments.")),
                );
            },
            LoxError::InvalidBinaryOperation { left, operator, right, .. } => {
                let mut text = String::from_str("The operation `");
                text.append(operator.as_str());
                text.append("` is invalid for `");
                text.append(left.as_str());
                text.append("` and `");
                text.append(right.as_str());
                text.append("`");
                pieces.push(piece(Style::Plain, text));
            },
            LoxError::InvalidUnaryOperation { operator, right, .. } => {
                let mut text = String::from_str("The operation `");
                text.append(operator.as_str());
                text.append("` is invalid for `");
                text.append(right.as_str());
                text.append("`");
                pieces.push(piece(Style::Plain, text));
            },
            LoxError::InvalidAssignment { identifier, .. } => {
                let mut text = String::from_str("Tried assigning value to `");
                text.append(identifier.as_str());
                text.append("` which is undefined.");
                pieces.push(piece(Style::Plain, text));
            },
            LoxError::UndefinedVariable { variable, .. } => {
                let mut text = String::from_str("Tried accessing the variable `");
                text.append(variable.as_str());
                text.append("` which is undefined.");
                pieces.push(piece(Style::Plain, text));
            },
            LoxError::InvalidCall { .. } => {
                pieces.push(piece(Style::Plain, String::from_str("Can only call functions.")));
            },
            LoxError::LimitExceeded { .. } => {
                pieces.push(
                    piece(
                        Style::Plain,
                        String::from_str("Evaluation went beyond the limit of the interpreter."),
                    ),
                );
            },
        }
        assert(pieces_model(pieces@) =~= message(self@));
        pieces
    }

    /// The diagnostic of the error in the program `source_code`.
    pub fn raise(&self, source_code: &str) -> (r: Vec<Piece>)
        ensures
            pieces_model(r@) == diagnostic(self@, source_code@),
    {
        let mut pieces: Vec<Piece> = Vec::new();
        pieces.push(piece(Style::Error, String::from_str("error")));
        pieces.push(piece(Style::Plain, String::from_str(": ")));
        let ghost head = pieces_model(pieces@);
        let mut said = self.message();
        let ghost middle = pieces_model(said@);
        pieces.append(&mut said);
        let mut newline = String::new();
        newline.push('\n');
        assert(newline@ =~= seq!['\n']);
        pieces.push(piece(Style::Plain, newline));
        let location = self.location();
        let mut shown = highlight_location(source_code, &location);
        let ghost tail = pieces_model(shown@);
        pieces.append(&mut shown);
        assert(pieces_model(pieces@) =~= head + middle + seq![plain(seq!['\n'])] + tail);
        assert(head =~= seq![PieceView { style: Style::Error, text: "error"@ }, plain(": "@)]);
        pieces
    }
}

} // verus!
