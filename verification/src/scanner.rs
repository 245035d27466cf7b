//! The lexer: program text to tokens.

use crate::error::{ErrorView, LoxError, LoxResult};
use crate::number::{decimal_bits, is_digit, Number};
use crate::object::{LoxObject, ObjectView};
use crate::source_location::SourceLocation;
use crate::text::{distance, is_letter, is_letter_or_number, minus_or_zero, substring, to_chars};
use crate::token::{keyword_kind, tokens_model, Token, TokenType, TokenView};
use vstd::prelude::*;

verus! {

/// A lexer at work: the text, how far it has read, where the token in hand
/// began, the line it is on, where that line began, and the tokens so far.
pub struct Scanner {
    source: Vec<char>,
    current: usize,
    start: usize,
    line: usize,
    // the index of the first character after the last line break, by which
    // the columns of a token are counted
    last_line: usize,
    tokens: Vec<Token>,
}

/// The state of a scanner, with the text as a sequence of characters and
/// the tokens as their views.
pub struct ScannerView {
    pub source: Seq<char>,
    pub current: usize,
    pub start: usize,
    pub line: usize,
    pub last_line: usize,
    pub tokens: Seq<TokenView>,
}

/// The character at index `i`, or NUL past the end of the text.
pub open spec fn char_at(text: Seq<char>, i: int) -> char {
    if 0 <= i < text.len() {
        text[i]
    } else {
        '\0'
    }
}

/// The stretches of text that the scanner reads in one go.
pub enum Run {
    /// Digits.
    Digits,
    /// Characters that continue an identifier.
    Word,
    /// Anything up to the end of the line.
    Comment,
    /// Anything up to the next double quote.
    Quoted,
}

/// Whether `c` belongs to a run of kind `run`.
pub open spec fn keeps(run: Run, c: char) -> bool {
    match run {
        Run::Digits => is_digit(c),
        Run::Word => continues_word(c),
        Run::Comment => c != '\n',
        Run::Quoted => c != '"',
    }
}

/// Where the longest run of kind `run` that begins at `from` ends: the
/// index of the first character that does not belong to it, or the length
/// of the text.
pub open spec fn run_end(text: Seq<char>, from: int, run: Run) -> int
    decreases text.len() - from,
{
    if 0 <= from < text.len() && keeps(run, text[from]) {
        run_end(text, from + 1, run)
    } else {
        from
    }
}

/// How many line breaks there are in `text` from index `from` up to `to`.
pub open spec fn line_breaks(text: Seq<char>, from: int, to: int) -> int
    decreases to - from,
{
    if 0 <= from < to <= text.len() {
        line_breaks(text, from, to - 1) + if text[to - 1] == '\n' {
            1int
        } else {
            0int
        }
    } else {
        0
    }
}

/// Whether `c` may continue an identifier.
pub open spec fn continues_word(c: char) -> bool {
    is_letter_or_number(c) || c == '_'
}

/// The span of the text in hand, on the line the scanner is on: its columns
/// are counted from the start of the line, the last one included.
pub open spec fn span_in_hand(s: ScannerView) -> SourceLocation {
    SourceLocation {
        line_start: s.line,
        line_end: s.line,
        start: distance(s.start, s.last_line),
        end: distance(distance(s.current, 1), s.last_line),
    }
}

/// The text in hand: from where the token began up to where the scanner is.
pub open spec fn text_in_hand(s: ScannerView) -> Seq<char> {
    s.source.subrange(s.start as int, s.current as int)
}

/// The state after a token of kind `kind` was made of the text in hand.
pub open spec fn with_token(
    s: ScannerView,
    kind: TokenType,
    literal: Option<ObjectView>,
) -> ScannerView {
    ScannerView {
        tokens: s.tokens.push(
            TokenView { kind, location: span_in_hand(s), lexeme: text_in_hand(s), literal },
        ),
        ..s
    }
}

/// The state with the scanner moved on to index `current`.
pub open spec fn moved_to(s: ScannerView, current: int) -> ScannerView {
    ScannerView { current: current as usize, ..s }
}

/// A one-character token, or the two-character one where `second` follows.
pub open spec fn one_or_two(
    s: ScannerView,
    second: char,
    two: TokenType,
    one: TokenType,
) -> ScannerView {
    if char_at(s.source, s.current as int) == second {
        with_token(moved_to(s, s.current + 1), two, None)
    } else {
        with_token(s, one, None)
    }
}

/// Scans the rest of a number whose first digit was read: the digits that
/// follow and, where a dot is followed by a digit, the dot and the digits
/// after it. The token's value is the number nearest to the numeral.
pub open spec fn after_number(s: ScannerView) -> Result<ScannerView, ErrorView> {
    let whole = run_end(s.source, s.current as int, Run::Digits);
    let end = if char_at(s.source, whole) == '.' && is_digit(char_at(s.source, whole + 1)) {
        run_end(s.source, whole + 1, Run::Digits)
    } else {
        whole
    };
    let read = moved_to(s, end);
    match decimal_bits(text_in_hand(read)) {
        Some(bits) => Ok(
            with_token(
                read,
                TokenType::Number,
                Some(
                    ObjectView::Number {
                        location: SourceLocation {
                            line_start: s.line,
                            line_end: s.line,
                            start: distance(s.start, s.last_line),
                            end: distance(read.current, s.last_line),
                        },
                        value: Number { bits },
                    },
                ),
            ),
        ),
        None => Err(
            ErrorView::UnexpectedChar {
                location: span_in_hand(read),
                char: char_at(s.source, s.start as int),
            },
        ),
    }
}

/// Scans the rest of a word whose first character was read, and makes it a
/// keyword's token or an identifier.
pub open spec fn after_word(s: ScannerView) -> ScannerView {
    let read = moved_to(s, run_end(s.source, s.current as int, Run::Word));
    with_token(read, keyword_kind(text_in_hand(read)), None)
}

/// Scans the rest of a string whose opening quote was read. The string runs
/// to the next quote, over line breaks too, and holds the characters
/// between the quotes as they stand. Without a closing quote it is an error.
pub open spec fn after_quote(s: ScannerView) -> Result<ScannerView, ErrorView> {
    let close = run_end(s.source, s.current as int, Run::Quoted);
    let line_end = (s.line + line_breaks(s.source, s.current as int, close)) as usize;
    let location = SourceLocation {
        line_start: s.line,
        line_end,
        start: distance(s.start, s.last_line),
        end: distance(distance(close as usize, 1), s.last_line),
    };
    if close >= s.source.len() {
        Err(ErrorView::UnterminatedString { location })
    } else {
        let read = ScannerView { current: (close + 1) as usize, line: line_end, ..s };
        Ok(
            with_token(
                read,
                TokenType::String,
                Some(
                    ObjectView::String {
                        location,
                        value: s.source.subrange(s.start + 1, close),
                    },
                ),
            ),
        )
    }
}

/// Scans one token, a comment or a stretch of white space, beginning with
/// the character under the scanner.
pub open spec fn token_step(s: ScannerView) -> Result<ScannerView, ErrorView> {
    let c = char_at(s.source, s.current as int);
    let read = moved_to(s, s.current + 1);
    if c == ';' {
        Ok(with_token(read, TokenType::Semicolon, None))
    } else if c == ',' {
        Ok(with_token(read, TokenType::Comma, None))
    } else if c == '.' {
        Ok(with_token(read, TokenType::Dot, None))
    } else if c == '*' {
        Ok(with_token(read, TokenType::Star, None))
    } else if c == '+' {
        Ok(with_token(read, TokenType::Plus, None))
    } else if c == '-' {
        Ok(with_token(read, TokenType::Minus, None))
    } else if c == '(' {
        Ok(with_token(read, TokenType::LeftParen, None))
    } else if c == ')' {
        Ok(with_token(read, TokenType::RightParen, None))
    } else if c == '}' {
        Ok(with_token(read, TokenType::RightBrace, None))
    } else if c == '{' {
        Ok(with_token(read, TokenType::LeftBrace, None))
    } else if c == '/' {
        if char_at(s.source, read.current as int) == '/' {
            Ok(moved_to(read, run_end(s.source, read.current + 1, Run::Comment)))
        } else {
            Ok(with_token(read, TokenType::Slash, None))
        }
    } else if c == '=' {
        Ok(one_or_two(read, '=', TokenType::EqualEqual, TokenType::Equal))
    } else if c == '!' {
        Ok(one_or_two(read, '=', TokenType::BangEqual, TokenType::Bang))
    } else if c == '>' {
        Ok(one_or_two(read, '=', TokenType::GreaterEqual, TokenType::Greater))
    } else if c == '<' {
        Ok(one_or_two(read, '=', TokenType::LessEqual, TokenType::Less))
    } else if c == ' ' || c == '\t' || c == '\r' {
        Ok(read)
    } else if c == '\n' {
        if read.current < s.source.len() {
            Ok(ScannerView { last_line: read.current, line: (s.line + 1) as usize, ..read })
        } else {
            Ok(read)
        }
    } else if c == '"' {
        after_quote(read)
    } else if is_digit(c) {
        after_number(read)
    } else if is_letter(c) || c == '_' {
        Ok(after_word(read))
    } else {
        Err(ErrorView::UnexpectedChar { location: span_in_hand(read), char: c })
    }
}

/// The tokens of the text from where the scanner is, after those it has:
/// token by token to the end of the text, then the end-of-input token.
/// The first character that begins no token, or a string without its
/// closing quote, ends the scan with an error.
pub open spec fn scan_rest(s: ScannerView) -> Result<Seq<TokenView>, ErrorView>
    decreases s.source.len() - s.current,
{
    if s.current >= s.source.len() {
        Ok(with_token(s, TokenType::EOF, None).tokens)
    } else {
        match token_step(ScannerView { start: s.current, ..s }) {
            Ok(next) => if s.current < next.current <= s.source.len() && next.source == s.source {
                scan_rest(next)
            } else {
                Ok(next.tokens)
            },
            Err(error) => Err(error),
        }
    }
}

/// The state of a scanner that has read nothing of `text` yet.
pub open spec fn scanner_at_start(text: Seq<char>) -> ScannerView {
    ScannerView { source: text, current: 0, start: 0, line: 1, last_line: 0, tokens: Seq::empty() }
}

/// The tokens of a program text, or the first lexical error in it.
pub open spec fn scan_text(text: Seq<char>) -> Result<Seq<TokenView>, ErrorView> {
    scan_rest(scanner_at_start(text))
}

/// What a scan gives back, as views.
pub open spec fn scan_model(result: Result<Vec<Token>, LoxError>) -> Result<
    Seq<TokenView>,
    ErrorView,
> {
    match result {
        Ok(tokens) => Ok(tokens_model(tokens@)),
        Err(error) => Err(error@),
    }
}

/// What a step of the scanner gives back, with the state it leaves.
pub open spec fn step_model(result: Result<(), LoxError>, after: ScannerView) -> Result<
    ScannerView,
    ErrorView,
> {
    match result {
        Ok(_) => Ok(after),
        Err(error) => Err(error@),
    }
}

impl View for Scanner {
    type V = ScannerView;

    closed spec fn view(&self) -> ScannerView {
        ScannerView {
            source: self.source@,
            current: self.current,
            start: self.start,
            line: self.line,
            last_line: self.last_line,
            tokens: tokens_model(self.tokens@),
        }
    }
}

/// The scanner is within its text, and on a line that the text can have.
pub open spec fn in_bounds(s: ScannerView) -> bool {
    &&& s.start <= s.current <= s.source.len()
    &&& s.line <= s.current + 1
}

/// A run ends at or after its start, within the text, at a character that
/// does not continue it.
pub proof fn lemma_run_end(text: Seq<char>, from: int, run: Run)
    requires
        0 <= from <= text.len(),
    ensures
        from <= run_end(text, from, run) <= text.len(),
        run_end(text, from, run) < text.len() ==> !keeps(run, text[run_end(text, from, run)]),
        forall|i: int| from <= i < run_end(text, from, run) ==> keeps(run, #[trigger] text[i]),
    decreases text.len() - from,
{
    if from < text.len() && keeps(run, text[from]) {
        lemma_run_end(text, from + 1, run);
    }
}

/// A step of the scanner moves on, within the same text.
pub proof fn lemma_step_moves_on(s: ScannerView)
    requires
        s.start == s.current,
        s.current < s.source.len() <= usize::MAX,
    ensures
        token_step(s) matches Ok(next) ==> s.current < next.current <= s.source.len()
            && next.source == s.source,
{
    let after = s.current + 1;
    lemma_run_end(s.source, after, Run::Digits);
    lemma_run_end(s.source, after, Run::Word);
    lemma_run_end(s.source, after, Run::Quoted);
    if after < s.source.len() {
        lemma_run_end(s.source, after + 1, Run::Comment);
    }
    let whole = run_end(s.source, after, Run::Digits);
    if whole < s.source.len() {
        lemma_run_end(s.source, whole + 1, Run::Digits);
    }
}

/// A scan always ends the stream of tokens with the end-of-input token.
pub proof fn scan_ends_with_end_of_input(s: ScannerView)
    requires
        s.current <= s.source.len() <= usize::MAX,
    ensures
        scan_rest(s) matches Ok(tokens) ==> tokens.len() > 0 && tokens.last().kind
            == TokenType::EOF,
    decreases s.source.len() - s.current,
{
    if s.current < s.source.len() {
        let begun = ScannerView { start: s.current, ..s };
        lemma_step_moves_on(begun);
        if let Ok(next) = token_step(begun) {
            scan_ends_with_end_of_input(next);
        }
    }
}

/// The tokens of a program text end with the end-of-input token.
pub proof fn tokens_end_with_end_of_input(text: Seq<char>)
    requires
        text.len() <= usize::MAX,
    ensures
        scan_text(text) matches Ok(tokens) ==> tokens.len() > 0 && tokens.last().kind
            == TokenType::EOF,
{
    scan_ends_with_end_of_input(scanner_at_start(text));
}

impl Scanner {
    /// A scanner at the start of `source_code`.
    pub fn new(source_code: &str) -> (r: Self)
        ensures
            r@ == scanner_at_start(source_code@),
            in_bounds(r@),
    {
        let r = Scanner {
            source: to_chars(source_code),
            current: 0,
            start: 0,
            line: 1,
            last_line: 0,
            tokens: Vec::new(),
        };
        assert(r@.tokens =~= Seq::empty());
        r
    }

    /// Scans the text from where the scanner is to its end, and hands out
    /// all tokens made, the end-of-input token last. On a fresh scanner
    /// that is the scan of the whole text.
    pub fn scan(&mut self) -> (r: LoxResult<Vec<Token>>)
        requires
            in_bounds(old(self)@),
        ensures
            scan_model(r) == scan_rest(old(self)@),
            old(self)@ == scanner_at_start(old(self)@.source) ==> scan_model(r) == scan_text(
                old(self)@.source,
            ),
            final(self)@.source == old(self)@.source,
            r is Ok ==> final(self)@.current == final(self)@.source.len() && final(self)@.tokens
                == Seq::<TokenView>::empty() && in_bounds(final(self)@),
    {
        while !self.is_at_end()
            invariant
                self.start <= self.current <= self.source.len(),
                self.line <= self.current + 1,
                self@.source == old(self)@.source,
                scan_rest(self@) == scan_rest(old(self)@),
            decreases self.source.len() - self.current,
        {
            let ghost before = self@;
            self.start = self.current;
            assert(self@ == (ScannerView { start: before.current, ..before }));
            match self.scan_token() {
                Ok(_) => {},
                Err(error) => {
                    return Err(error);
                },
            }
        }
        self.add_token(TokenType::EOF, None);
        let mut tokens: Vec<Token> = Vec::new();
        std::mem::swap(&mut tokens, &mut self.tokens);
        assert(self@.tokens =~= Seq::<TokenView>::empty());
        Ok(tokens)
    }

    /// Scans one token, a comment or a stretch of white space.
    fn scan_token(&mut self) -> (r: LoxResult<()>)
        requires
            old(self).start == old(self).current,
            old(self).current < old(self).source.len(),
            old(self).line <= old(self).current + 1,
        ensures
            step_model(r, final(self)@) == token_step(old(self)@),
            final(self)@.source == old(self)@.source,
            r is Ok ==> old(self).current < final(self).current <= final(self).source.len(),
            r is Ok ==> final(self).line <= final(self).current + 1,
            r is Ok ==> final(self).start == old(self).start,
    {
        let c = self.advance();
        if c == ';' {
            self.add_token(TokenType::Semicolon, None);
        } else if c == ',' {
            self.add_token(TokenType::Comma, None);
        } else if c == '.' {
            self.add_token(TokenType::Dot, None);
        } else if c == '*' {
            self.add_token(TokenType::Star, None);
        } else if c == '+' {
            self.add_token(TokenType::Plus, None);
        } else if c == '-' {
            self.add_token(TokenType::Minus, None);
        } else if c == '(' {
            self.add_token(TokenType::LeftParen, None);
        } else if c == ')' {
            self.add_token(TokenType::RightParen, None);
        } else if c == '}' {
            self.add_token(TokenType::RightBrace, None);
        } else if c == '{' {
            self.add_token(TokenType::LeftBrace, None);
        } else if c == '/' {
            if self.match_char('/') {
                self.skip_comment();
            } else {
                self.add_token(TokenType::Slash, None);
            }
        } else if c == '=' {
            if self.match_char('=') {
                self.add_token(TokenType::EqualEqual, None);
            } else {
                self.add_token(TokenType::Equal, None);
            }
        } else if c == '!' {
            if self.match_char('=') {
                self.add_token(TokenType::BangEqual, None);
            } else {
                self.add_token(TokenType::Bang, None);
            }
        } else if c == '>' {
            if self.match_char('=') {
                self.add_token(TokenType::GreaterEqual, None);
            } else {
                self.add_token(TokenType::Greater, None);
            }
        } else if c == '<' {
            if self.match_char('=') {
                self.add_token(TokenType::LessEqual, None);
            } else {
                self.add_token(TokenType::Less, None);
            }
        } else if c == ' ' || c == '\t' || c == '\r' {
        } else if c == '\n' {
            if !self.is_at_end() {
                self.last_line = self.current;
                self.line += 1;
            }
        } else if c == '"' {
            return self.scan_string();
        } else if c >= '0' && c <= '9' {
            return self.scan_number();
        } else if c.is_alphabetic() || c == '_' {
            self.scan_identifier();
        } else {
            return Err(
                LoxError::UnexpectedChar {
                    char: c,
                    location: self.compute_location_relative_to_line(),
                },
            );
        }
        Ok(())
    }

    /// Reads a comment to the end of its line.
    fn skip_comment(&mut self)
        requires
            old(self).current <= old(self).source.len(),
        ensures
            final(self)@ == moved_to(
                old(self)@,
                run_end(old(self)@.source, old(self).current as int, Run::Comment),
            ),
            final(self).current == run_end(
                old(self)@.source,
                old(self).current as int,
                Run::Comment,
            ),
            old(self).current <= final(self).current <= final(self).source.len(),
    {
        let ghost from = self.current as int;
        while self.current < self.source.len() && self.source[self.current] != '\n'
            invariant
                from <= self.current <= self.source.len(),
                self@ == moved_to(old(self)@, self.current as int),
                run_end(self.source@, self.current as int, Run::Comment) == run_end(
                    self.source@,
                    from,
                    Run::Comment,
                ),
            decreases self.source.len() - self.current,
        {
            assert(keeps(Run::Comment, self.source@[self.current as int]));
            assert(run_end(self.source@, self.current as int, Run::Comment) == run_end(
                self.source@,
                self.current + 1,
                Run::Comment,
            ));
            self.current += 1;
        }
    }

    /// Reads digits for as long as there are any.
    fn read_digits(&mut self)
        requires
            old(self).current <= old(self).source.len(),
        ensures
            final(self)@ == moved_to(
                old(self)@,
                run_end(old(self)@.source, old(self).current as int, Run::Digits),
            ),
            final(self).current == run_end(
                old(self)@.source,
                old(self).current as int,
                Run::Digits,
            ),
            old(self).current <= final(self).current <= final(self).source.len(),
    {
        let ghost from = self.current as int;
        while self.current < self.source.len() && self.source[self.current] >= '0'
            && self.source[self.current] <= '9'
            invariant
                from <= self.current <= self.source.len(),
                self@ == moved_to(old(self)@, self.current as int),
                run_end(self.source@, self.current as int, Run::Digits) == run_end(
                    self.source@,
                    from,
                    Run::Digits,
                ),
            decreases self.source.len() - self.current,
        {
            assert(keeps(Run::Digits, self.source@[self.current as int]));
            assert(run_end(self.source@, self.current as int, Run::Digits) == run_end(
                self.source@,
                self.current + 1,
                Run::Digits,
            ));
            self.current += 1;
        }
    }

    fn scan_number(&mut self) -> (r: LoxResult<()>)
        requires
            old(self).start <= old(self).current <= old(self).source.len(),
        ensures
            step_model(r, final(self)@) == after_number(old(self)@),
            final(self)@.source == old(self)@.source,
            final(self).line == old(self).line,
            old(self).current <= final(self).current <= final(self).source.len(),
    {
        self.read_digits();
        let next = self.peek_next();
        if self.peek() == '.' && next >= '0' && next <= '9' {
            self.current += 1;
            self.read_digits();
        }
        let text = substring(&self.source, self.start, self.current);
        match Number::parse(text.as_str()) {
            Some(value) => {
                let location = SourceLocation::new_single_line(
                    self.line,
                    minus_or_zero(self.start, self.last_line),
                    minus_or_zero(self.current, self.last_line),
                );
                self.add_token(TokenType::Number, Some(LoxObject::Number { location, value }));
                Ok(())
            },
            None => Err(
                LoxError::UnexpectedChar {
                    char: self.char_at_start(),
                    location: self.compute_location_relative_to_line(),
                },
            ),
        }
    }

    /// The first character of the text in hand, or NUL where there is none.
    fn char_at_start(&self) -> (r: char)
        ensures
            r == char_at(self.source@, self.start as int),
    {
        if self.start < self.source.len() {
            self.source[self.start]
        } else {
            '\0'
        }
    }

    fn scan_identifier(&mut self)
        requires
            old(self).start <= old(self).current <= old(self).source.len(),
        ensures
            final(self)@ == after_word(old(self)@),
            final(self).line == old(self).line,
            old(self).current <= final(self).current <= final(self).source.len(),
    {
        let ghost from = self.current as int;
        while self.current < self.source.len() && (self.source[self.current].is_alphanumeric()
            || self.source[self.current] == '_')
            invariant
                from <= self.current <= self.source.len(),
                self@ == moved_to(old(self)@, self.current as int),
                run_end(self.source@, self.current as int, Run::Word) == run_end(
                    self.source@,
                    from,
                    Run::Word,
                ),
            decreases self.source.len() - self.current,
        {
            assert(keeps(Run::Word, self.source@[self.current as int]));
            assert(run_end(self.source@, self.current as int, Run::Word) == run_end(
                self.source@,
                self.current + 1,
                Run::Word,
            ));
            self.current += 1;
        }
        let word = substring(&self.source, self.start, self.current);
        let token_type = Token::keyword(word.as_str());
        self.add_token(token_type, None);
    }

    fn scan_string(&mut self) -> (r: LoxResult<()>)
        requires
            old(self).start < old(self).current <= old(self).source.len(),
            old(self).line <= old(self).current,
        ensures
            step_model(r, final(self)@) == after_quote(old(self)@),
            final(self)@.source == old(self)@.source,
            r is Ok ==> old(self).current < final(self).current <= final(self).source.len(),
            r is Ok ==> final(self).line <= final(self).current,
    {
        let line_start = self.line;
        let ghost from = self.current as int;
        while self.current < self.source.len() && self.source[self.current] != '"'
            invariant
                from <= self.current <= self.source.len(),
                line_start <= from,
                self.line == line_start + line_breaks(self.source@, from, self.current as int),
                self.line <= self.current,
                self@ == (ScannerView {
                    current: self.current,
                    line: self.line,
                    ..old(self)@
                }),
                run_end(self.source@, self.current as int, Run::Quoted) == run_end(
                    self.source@,
                    from,
                    Run::Quoted,
                ),
            decreases self.source.len() - self.current,
        {
            if self.source[self.current] == '\n' {
                self.line += 1;
            }
            self.current += 1;
        }
        let line_end = self.line;
        let location = SourceLocation::new_multiple_line(
            line_start,
            line_end,
            minus_or_zero(self.start, self.last_line),
            minus_or_zero(minus_or_zero(self.current, 1), self.last_line),
        );
        if self.is_at_end() {
            return Err(LoxError::UnterminatedString { location });
        }
        let close = self.current;
        // consume the closing quote
        self.current += 1;
        let string = substring(&self.source, self.start + 1, close);
        self.add_token(TokenType::String, Some(LoxObject::String { location, value: string }));
        Ok(())
    }

    /// The character under the scanner, or NUL at the end of the text.
    fn peek(&self) -> (r: char)
        ensures
            r == char_at(self.source@, self.current as int),
    {
        if self.current < self.source.len() {
            self.source[self.current]
        } else {
            '\0'
        }
    }

    /// The character after the one under the scanner, or NUL past the end.
    fn peek_next(&self) -> (r: char)
        ensures
            r == char_at(self.source@, self.current + 1),
    {
        if self.current < self.source.len() && self.current + 1 < self.source.len() {
            self.source[self.current + 1]
        } else {
            '\0'
        }
    }

    /// Moves past the character under the scanner and hands it out.
    fn advance(&mut self) -> (r: char)
        requires
            old(self).current < old(self).source.len(),
        ensures
            r == char_at(old(self).source@, old(self).current as int),
            final(self)@ == moved_to(old(self)@, old(self).current + 1),
            final(self).current == old(self).current + 1,
    {
        self.current += 1;
        self.source[self.current - 1]
    }

    /// Makes a token of the text in hand.
    fn add_token(&mut self, kind: TokenType, literal: Option<LoxObject>)
        requires
            old(self).start <= old(self).current <= old(self).source.len(),
        ensures
            final(self)@ == with_token(
                old(self)@,
                kind,
                match literal {
                    Some(object) => Some(object@),
                    None => None,
                },
            ),
            final(self).current == old(self).current,
            final(self).line == old(self).line,
    {
        let lexeme = substring(&self.source, self.start, self.current);
        let location = self.compute_location_relative_to_line();
        let ghost before = self.tokens@;
        let token = Token::new(kind, location, lexeme, literal);
        self.tokens.push(token);
        assert(tokens_model(self.tokens@) =~= tokens_model(before).push(token@));
    }

    /// Whether the scanner has read all of its text.
    fn is_at_end(&self) -> (r: bool)
        ensures
            r == (self.current >= self.source.len()),
    {
        self.current >= self.source.len()
    }

    /// Moves past the character under the scanner if it is `expected`.
    fn match_char(&mut self, expected: char) -> (r: bool)
        requires
            old(self).current <= old(self).source.len(),
        ensures
            r == (char_at(old(self).source@, old(self).current as int) == expected
                && old(self).current < old(self).source.len()),
            r ==> final(self)@ == moved_to(old(self)@, old(self).current + 1),
            !r ==> final(self)@ == old(self)@,
            final(self).current <= final(self).source.len(),
    {
        if self.is_at_end() {
            return false;
        }
        if self.source[self.current] != expected {
            return false;
        }
        self.current += 1;
        true
    }

    fn compute_location_relative_to_line(&self) -> (r: SourceLocation)
        ensures
            r == span_in_hand(self@),
    {
        SourceLocation {
            line_start: self.line,
            line_end: self.line,
            start: minus_or_zero(self.start, self.last_line),
            end: minus_or_zero(minus_or_zero(self.current, 1), self.last_line),
        }
    }
}

} // verus!
