//! Tokens: the lexical categories, and a token with its text and span.

use crate::object::{LoxObject, ObjectView};
use crate::source_location::SourceLocation;
use vstd::prelude::*;

verus! {

/// The lexical categories.
#[derive(PartialEq, Eq, Structural, Debug, Clone, Copy)]
pub enum TokenType {
    // Single character tokens
    LeftBrace,
    RightBrace,
    LeftParen,
    RightParen,
    // One or two character tokens
    Comma,
    Minus,
    Plus,
    Semicolon,
    Slash,
    Star,
    Dot,
    Bang,
    BangEqual,
    Equal,
    EqualEqual,
    Greater,
    GreaterEqual,
    Less,
    LessEqual,
    // Literals
    Identifier,
    String,
    Number,
    // Keywords
    Class,
    Function,
    Else,
    False,
    For,
    If,
    Nil,
    Or,
    And,
    Print,
    Return,
    Super,
    This,
    True,
    Var,
    While,
    EOF,
}

impl Default for TokenType {
    fn default() -> (r: Self)
        ensures
            r == TokenType::EOF,
    {
        TokenType::EOF
    }
}

/// A token: its category, where it stands, the text it was scanned from and,
/// for a string or a number, the value it denotes.
#[derive(Debug, PartialEq)]
pub struct Token {
    pub kind: TokenType,
    pub location: SourceLocation,
    pub lexeme: String,
    pub literal: Option<LoxObject>,
}

/// What a token is, with its text as a sequence of characters.
pub struct TokenView {
    pub kind: TokenType,
    pub location: SourceLocation,
    pub lexeme: Seq<char>,
    pub literal: Option<ObjectView>,
}

/// The category of the word `text`: one of the sixteen keywords, or an
/// identifier.
pub open spec fn keyword_kind(text: Seq<char>) -> TokenType {
    if text == "and"@ {
        TokenType::And
    } else if text == "class"@ {
        TokenType::Class
    } else if text == "else"@ {
        TokenType::Else
    } else if text == "false"@ {
        TokenType::False
    } else if text == "for"@ {
        TokenType::For
    } else if text == "fun"@ {
        TokenType::Function
    } else if text == "if"@ {
        TokenType::If
    } else if text == "nil"@ {
        TokenType::Nil
    } else if text == "or"@ {
        TokenType::Or
    } else if text == "print"@ {
        TokenType::Print
    } else if text == "return"@ {
        TokenType::Return
    } else if text == "super"@ {
        TokenType::Super
    } else if text == "this"@ {
        TokenType::This
    } else if text == "true"@ {
        TokenType::True
    } else if text == "var"@ {
        TokenType::Var
    } else if text == "while"@ {
        TokenType::While
    } else {
        TokenType::Identifier
    }
}

/// Whether `word` and `other` are the same text.
pub fn same_text(word: &String, other: &str) -> (r: bool)
    ensures
        r == (word@ == other@),
{
    let owned = other.to_owned();
    *word == owned
}

impl Token {
    /// What the token is.
    pub open spec fn model(&self) -> TokenView
        decreases self,
    {
        TokenView {
            kind: self.kind,
            location: self.location,
            lexeme: self.lexeme@,
            literal: match self.literal {
                Some(object) => Some(object.model()),
                None => None,
            },
        }
    }

    /// A token made of its four parts.
    pub fn new(
        kind: TokenType,
        location: SourceLocation,
        lexeme: String,
        literal: Option<LoxObject>,
    ) -> (r: Self)
        ensures
            r == (Token { kind, location, lexeme, literal }),
    {
        Token { kind, location, lexeme, literal }
    }

    /// The category of a word: a keyword's own, or `Identifier`.
    pub fn keyword(keyword: &str) -> (r: TokenType)
        ensures
            r == keyword_kind(keyword@),
    {
        let word = keyword.to_owned();
        if same_text(&word, "and") {
            TokenType::And
        } else if same_text(&word, "class") {
            TokenType::Class
        } else if same_text(&word, "else") {
            TokenType::Else
        } else if same_text(&word, "false") {
            TokenType::False
        } else if same_text(&word, "for") {
            TokenType::For
        } else if same_text(&word, "fun") {
            TokenType::Function
        } else if same_text(&word, "if") {
            TokenType::If
        } else if same_text(&word, "nil") {
            TokenType::Nil
        } else if same_text(&word, "or") {
            TokenType::Or
        } else if same_text(&word, "print") {
            TokenType::Print
        } else if same_text(&word, "return") {
            TokenType::Return
        } else if same_text(&word, "super") {
            TokenType::Super
        } else if same_text(&word, "this") {
            TokenType::This
        } else if same_text(&word, "true") {
            TokenType::True
        } else if same_text(&word, "var") {
            TokenType::Var
        } else if same_text(&word, "while") {
            TokenType::While
        } else {
            TokenType::Identifier
        }
    }

    /// A copy of this token.
    pub fn duplicate(&self) -> (r: Token)
        ensures
            r@ == self@,
        decreases self,
    {
        Token {
            kind: self.kind,
            location: self.location,
            lexeme: self.lexeme.clone(),
            literal: match &self.literal {
                Some(object) => Some(object.duplicate()),
                None => None,
            },
        }
    }
}

impl Clone for Token {
    fn clone(&self) -> (r: Self)
        ensures
            r@ == self@,
    {
        self.duplicate()
    }
}

impl View for Token {
    type V = TokenView;

    open spec fn view(&self) -> TokenView {
        self.model()
    }
}

/// The tokens of `tokens`, each as its view.
pub open spec fn tokens_model(tokens: Seq<Token>) -> Seq<TokenView>
    decreases tokens,
{
    Seq::new(
        tokens.len(),
        |i: int|
            if 0 <= i < tokens.len() {
                tokens[i].model()
            } else {
                arbitrary()
            },
    )
}

/// A copy of a list of tokens.
pub fn duplicate_tokens(tokens: &Vec<Token>) -> (r: Vec<Token>)
    ensures
        tokens_model(r@) == tokens_model(tokens@),
    decreases tokens,
{
    let mut out: Vec<Token> = Vec::new();
    let mut i: usize = 0;
    while i < tokens.len()
        invariant
            i <= tokens.len(),
            out.len() == i,
            forall|j: int| 0 <= j < i ==> out[j]@ == tokens[j]@,
        decreases tokens.len() - i,
    {
        out.push(tokens[i].duplicate());
        i += 1;
    }
    assert(tokens_model(out@) =~= tokens_model(tokens@));
    out
}

} // verus!
