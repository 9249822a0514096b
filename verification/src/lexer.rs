//! The tokenizer: source text in, one token per call out.
//!
//! Each character is consumed at most once and nothing is pushed back. The end
//! of the text is a token of its own, [`Token::EOF`]. A character that starts
//! no token and a number literal beyond the 32-bit range are failures,
//! [`LexError`], and are kept apart from the end of the text.

use crate::lexical::{
    checked_i32, decimal_value, digit_value, is_decimal_digit, is_word_start, lemma_run_end,
    lemma_token_at_advances, lex_all, punctuation_token, run_end, token_at, word_token, CharClass,
};
use vstd::prelude::*;

verus! {

/// What sort of token a [`Token`] is, without the text or value it carries.
#[derive(Debug, Clone, Copy, PartialEq, Eq, Structural)]
pub enum TokenKind {
    Int,
    Return,
    Identifier,
    Number,
    LeftParen,
    RightParen,
    LeftBrace,
    RightBrace,
    Semicolon,
    EOF,
}

/// One lexical unit of the source text.
#[derive(Debug)]
pub enum Token {
    /// The keyword `int`.
    Int,
    /// The keyword `return`.
    Return,
    /// A name, with its text.
    Identifier(String),
    /// A decimal literal, with its value.
    Number(i32),
    LeftParen,
    RightParen,
    LeftBrace,
    RightBrace,
    Semicolon,
    /// The end of the input.
    EOF,
}

/// The mathematical value of a [`Token`]: an identifier carries its name as a
/// sequence of characters.
pub enum TokenView {
    Int,
    Return,
    Identifier(Seq<char>),
    Number(i32),
    LeftParen,
    RightParen,
    LeftBrace,
    RightBrace,
    Semicolon,
    EOF,
}

impl TokenView {
    pub open spec fn kind(self) -> TokenKind {
        match self {
            TokenView::Int => TokenKind::Int,
            TokenView::Return => TokenKind::Return,
            TokenView::Identifier(_) => TokenKind::Identifier,
            TokenView::Number(_) => TokenKind::Number,
            TokenView::LeftParen => TokenKind::LeftParen,
            TokenView::RightParen => TokenKind::RightParen,
            TokenView::LeftBrace => TokenKind::LeftBrace,
            TokenView::RightBrace => TokenKind::RightBrace,
            TokenView::Semicolon => TokenKind::Semicolon,
            TokenView::EOF => TokenKind::EOF,
        }
    }
}

impl View for Token {
    type V = TokenView;

    open spec fn view(&self) -> TokenView {
        match self {
            Token::Int => TokenView::Int,
            Token::Return => TokenView::Return,
            Token::Identifier(name) => TokenView::Identifier(name@),
            Token::Number(value) => TokenView::Number(*value),
            Token::LeftParen => TokenView::LeftParen,
            Token::RightParen => TokenView::RightParen,
            Token::LeftBrace => TokenView::LeftBrace,
            Token::RightBrace => TokenView::RightBrace,
            Token::Semicolon => TokenView::Semicolon,
            Token::EOF => TokenView::EOF,
        }
    }
}

impl Token {
    /// The sort of this token.
    pub fn kind(&self) -> (kind: TokenKind)
        ensures
            kind == self@.kind(),
    {
        match self {
            Token::Int => TokenKind::Int,
            Token::Return => TokenKind::Return,
            Token::Identifier(_) => TokenKind::Identifier,
            Token::Number(_) => TokenKind::Number,
            Token::LeftParen => TokenKind::LeftParen,
            Token::RightParen => TokenKind::RightParen,
            Token::LeftBrace => TokenKind::LeftBrace,
            Token::RightBrace => TokenKind::RightBrace,
            Token::Semicolon => TokenKind::Semicolon,
            Token::EOF => TokenKind::EOF,
        }
    }
}

impl Clone for Token {
    fn clone(&self) -> (token: Token)
        ensures
            token == *self,
    {
        match self {
            Token::Int => Token::Int,
            Token::Return => Token::Return,
            Token::Identifier(name) => Token::Identifier(name.clone()),
            Token::Number(value) => Token::Number(*value),
            Token::LeftParen => Token::LeftParen,
            Token::RightParen => Token::RightParen,
            Token::LeftBrace => Token::LeftBrace,
            Token::RightBrace => Token::RightBrace,
            Token::Semicolon => Token::Semicolon,
            Token::EOF => Token::EOF,
        }
    }
}

/// Tokens are compared by what they are and what they carry: two identifiers
/// are equal exactly when their names are.
impl PartialEq for Token {
    fn eq(&self, other: &Token) -> (equal: bool) {
        match (self, other) {
            (Token::Int, Token::Int) => true,
            (Token::Return, Token::Return) => true,
            (Token::Identifier(a), Token::Identifier(b)) => *a == *b,
            (Token::Number(a), Token::Number(b)) => *a == *b,
            (Token::LeftParen, Token::LeftParen) => true,
            (Token::RightParen, Token::RightParen) => true,
            (Token::LeftBrace, Token::LeftBrace) => true,
            (Token::RightBrace, Token::RightBrace) => true,
            (Token::Semicolon, Token::Semicolon) => true,
            (Token::EOF, Token::EOF) => true,
            _ => false,
        }
    }
}

impl vstd::std_specs::cmp::PartialEqSpecImpl for Token {
    open spec fn obeys_eq_spec() -> bool {
        true
    }

    open spec fn eq_spec(&self, other: &Token) -> bool {
        self@ == other@
    }
}

/// Why the tokenizer could not produce a token. Positions count characters
/// from the start of the source text.
#[derive(Debug, Clone, Copy, PartialEq, Eq, Structural)]
pub enum LexError {
    /// A character that starts no token.
    UnrecognizedCharacter { position: usize, character: char },
    /// A number literal whose value does not fit in a signed 32-bit integer.
    IntegerOverflow { position: usize },
}

/// What one call of the tokenizer yields, as a mathematical value.
pub type LexItem = Result<TokenView, LexError>;

/// The mathematical value of a tokenizer result.
pub open spec fn lex_item_view(result: Result<Token, LexError>) -> LexItem {
    match result {
        Ok(token) => Ok(token@),
        Err(error) => Err(error),
    }
}

/// The punctuation token that `c` is on its own, if it is one.
pub fn punctuation(c: char) -> (token: Option<Token>)
    ensures
        match token {
            Some(t) => punctuation_token(c) == Some(t@),
            None => punctuation_token(c) is None,
        },
{
    if c == '(' {
        Some(Token::LeftParen)
    } else if c == ')' {
        Some(Token::RightParen)
    } else if c == '{' {
        Some(Token::LeftBrace)
    } else if c == '}' {
        Some(Token::RightBrace)
    } else if c == ';' {
        Some(Token::Semicolon)
    } else {
        None
    }
}

/// The token for a whole word: the keyword `int` or `return` if the word is
/// exactly that, and otherwise an identifier named by the word.
pub fn keyword_or_identifier(word: String) -> (token: Token)
    ensures
        token@ == word_token(word@),
{
    if word == "int".to_owned() {
        Token::Int
    } else if word == "return".to_owned() {
        Token::Return
    } else {
        Token::Identifier(word)
    }
}

/// Whether `c` is one of the decimal digits `0` to `9`.
pub fn is_digit(c: char) -> (digit: bool)
    ensures
        digit == is_decimal_digit(c),
{
    '0' <= c && c <= '9'
}

/// The value of a number after one more decimal digit is written behind it, or
/// `None` if that value does not fit in a signed 32-bit integer.
pub fn append_digit(value: i32, digit: char) -> (extended: Option<i32>)
    requires
        0 <= value,
        is_decimal_digit(digit),
    ensures
        extended == checked_i32(10 * value + digit_value(digit)),
{
    let d: u32 = digit as u32 - '0' as u32;
    match value.checked_mul(10) {
        Some(shifted) => shifted.checked_add(d as i32),
        None => None,
    }
}

/// Whether `c` belongs to `class`. The digits and the underscore of a word are
/// tested for outright, so that they are word characters whatever the Unicode
/// tables hold.
fn belongs_to(c: char, class: CharClass) -> (belongs: bool)
    ensures
        belongs == class.contains(c),
{
    match class {
        CharClass::Whitespace => c.is_whitespace(),
        CharClass::WordPart => is_digit(c) || c == '_' || c.is_alphanumeric(),
        CharClass::Digit => is_digit(c),
    }
}

/// Whether `c` may start an identifier or keyword.
fn starts_word(c: char) -> (starts: bool)
    ensures
        starts == is_word_start(c),
{
    c.is_alphabetic() || c == '_'
}

/// A tokenizer over one source text. It holds the text and a cursor, which
/// only ever moves forward.
pub struct Lexer {
    input: Vec<char>,
    pos: usize,
}

impl Lexer {
    #[verifier::type_invariant]
    spec fn cursor_in_text(self) -> bool {
        self.pos <= self.input.len()
    }

    /// The source text, as characters.
    pub closed spec fn source(&self) -> Seq<char> {
        self.input@
    }

    /// The cursor: the number of characters consumed so far.
    pub closed spec fn position(&self) -> int {
        self.pos as int
    }

    /// The tokens that are still to come, up to and including the end-of-input
    /// token or the first failure.
    pub open spec fn remaining(&self) -> Seq<LexItem> {
        lex_all(self.source(), self.position())
    }

    /// A tokenizer at the start of `input`.
    pub fn new(input: &str) -> (lexer: Lexer)
        ensures
            lexer.source() == input@,
            lexer.position() == 0,
    {
        let mut chars: Vec<char> = Vec::new();
        for c in it: input.chars()
            invariant
                chars@ == it.seq().take(it.index() as int),
        {
            chars.push(c);
        }
        Lexer { input: chars, pos: 0 }
    }

    /// The character under the cursor, if the cursor is not at the end.
    fn peek(&self) -> (c: Option<char>)
        ensures
            c == if self.position() < self.source().len() {
                Some(self.source()[self.position()])
            } else {
                None
            },
    {
        if self.pos < self.input.len() {
            Some(self.input[self.pos])
        } else {
            None
        }
    }

    /// Takes the character under the cursor, if there is one, and moves the
    /// cursor past it.
    fn consume(&mut self) -> (c: Option<char>)
        ensures
            final(self).source() == old(self).source(),
            c == if old(self).position() < old(self).source().len() {
                Some(old(self).source()[old(self).position()])
            } else {
                None
            },
            final(self).position() == if c is Some {
                old(self).position() + 1
            } else {
                old(self).position()
            },
    {
        proof {
            use_type_invariant(&*self);
        }
        let c = self.peek();
        if c.is_some() {
            self.pos += 1;
        }
        c
    }

    /// Whether the cursor stands on a character of `class`.
    fn at(&self, class: CharClass) -> (at: bool)
        ensures
            at == (self.position() < self.source().len() && class.contains(
                self.source()[self.position()],
            )),
    {
        match self.peek() {
            Some(c) => belongs_to(c, class),
            None => false,
        }
    }

    /// Moves the cursor to the end of the run of `class` that it stands in.
    fn skip_run(&mut self, class: CharClass)
        ensures
            final(self).source() == old(self).source(),
            final(self).position() == run_end(old(self).source(), old(self).position(), class),
    {
        proof {
            use_type_invariant(&*self);
        }
        while self.at(class)
            invariant
                self.source() == old(self).source(),
                0 <= self.position() <= self.source().len(),
                run_end(self.source(), self.position(), class) == run_end(
                    old(self).source(),
                    old(self).position(),
                    class,
                ),
            decreases self.source().len() - self.position(),
        {
            self.consume();
        }
    }

    /// Moves the cursor past any white space.
    fn skip_whitespace(&mut self)
        ensures
            final(self).source() == old(self).source(),
            final(self).position() == run_end(
                old(self).source(),
                old(self).position(),
                CharClass::Whitespace,
            ),
    {
        self.skip_run(CharClass::Whitespace)
    }

    /// The characters from `start` up to the cursor, as a string.
    fn text_since(&self, start: usize) -> (text: String)
        requires
            start <= self.position(),
        ensures
            text@ == self.source().subrange(start as int, self.position()),
    {
        proof {
            use_type_invariant(self);
        }
        let mut text = String::new();
        let mut i: usize = start;
        while i < self.pos
            invariant
                start <= i <= self.pos <= self.input.len(),
                text@ == self.input@.subrange(start as int, i as int),
            decreases self.pos - i,
        {
            text.push(self.input[i]);
            i += 1;
        }
        text
    }

    /// The value of the digits from `start` up to the cursor, or `None` if it
    /// does not fit in a signed 32-bit integer.
    fn number_since(&self, start: usize) -> (value: Option<i32>)
        requires
            start <= self.position(),
            forall|i: int| start <= i < self.position() ==> is_decimal_digit(self.source()[i]),
        ensures
            value == checked_i32(
                decimal_value(self.source().subrange(start as int, self.position())),
            ),
    {
        proof {
            use_type_invariant(self);
        }
        let mut value: Option<i32> = Some(0);
        let mut i: usize = start;
        while i < self.pos
            invariant
                start <= i <= self.pos <= self.input.len(),
                forall|j: int| start <= j < self.pos ==> is_decimal_digit(self.input@[j]),
                value == checked_i32(decimal_value(self.input@.subrange(start as int, i as int))),
                decimal_value(self.input@.subrange(start as int, i as int)) >= 0,
            decreases self.pos - i,
        {
            proof {
                let longer = self.input@.subrange(start as int, i + 1);
                assert(longer.drop_last() == self.input@.subrange(start as int, i as int));
                assert(longer.last() == self.input@[i as int]);
            }
            value = match value {
                Some(v) => append_digit(v, self.input[i]),
                None => None,
            };
            i += 1;
        }
        value
    }

    /// Yields the next token and moves the cursor past it.
    ///
    /// White space before the token is skipped. At the end of the text the
    /// result is [`Token::EOF`], on this call and on every later one. A
    /// character that starts no token and a number literal that is out of
    /// range are failures; the cursor moves past them as it does past a token.
    pub fn next_token(&mut self) -> (result: Result<Token, LexError>)
        ensures
            final(self).source() == old(self).source(),
            lex_item_view(result) == token_at(old(self).source(), old(self).position()).item,
            final(self).position() == token_at(old(self).source(), old(self).position()).end,
            old(self).position() <= final(self).position() <= final(self).source().len(),
    {
        proof {
            use_type_invariant(&*self);
            lemma_token_at_advances(self.source(), self.position());
        }
        self.skip_whitespace();
        let start: usize = self.pos;
        let first = match self.consume() {
            Some(c) => c,
            None => {
                return Ok(Token::EOF);
            },
        };
        if let Some(token) = punctuation(first) {
            Ok(token)
        } else if is_digit(first) {
            self.skip_run(CharClass::Digit);
            proof {
                lemma_run_end(self.source(), start + 1, CharClass::Digit);
            }
            match self.number_since(start) {
                Some(value) => Ok(Token::Number(value)),
                None => Err(LexError::IntegerOverflow { position: start }),
            }
        } else if starts_word(first) {
            self.skip_run(CharClass::WordPart);
            proof {
                lemma_run_end(self.source(), start + 1, CharClass::WordPart);
            }
            Ok(keyword_or_identifier(self.text_since(start)))
        } else {
            Err(LexError::UnrecognizedCharacter { position: start, character: first })
        }
    }
}

} // verus!
