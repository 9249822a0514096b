//! The lexical rules: which token starts at a given place in the source text,
//! and where it ends.
//!
//! Everything here is a mathematical definition over sequences of characters.
//! [`token_at`] is what one call of the tokenizer computes and [`tokenize`] is
//! the whole token stream of a text.

use crate::lexer::{LexError, LexItem, TokenView};
use crate::text::{unicode_alphabetic, unicode_alphanumeric, unicode_whitespace};
use vstd::prelude::*;

verus! {

/// The sets of characters of which the tokenizer consumes maximal runs.
#[derive(Debug, Clone, Copy, PartialEq, Eq, Structural)]
pub enum CharClass {
    /// Insignificant white space between tokens.
    Whitespace,
    /// Characters that continue an identifier or keyword.
    WordPart,
    /// Decimal digits.
    Digit,
}

/// A character that may start an identifier or keyword.
pub open spec fn is_word_start(c: char) -> bool {
    unicode_alphabetic(c) || c == '_'
}

/// One of the ten decimal digits `0` to `9`.
pub open spec fn is_decimal_digit(c: char) -> bool {
    '0' <= c <= '9'
}

/// A character that may continue an identifier or keyword: a decimal digit,
/// the underscore, or any other alphanumeric character.
pub open spec fn is_word_part(c: char) -> bool {
    is_decimal_digit(c) || c == '_' || unicode_alphanumeric(c)
}

impl CharClass {
    /// Whether `c` belongs to this class.
    pub open spec fn contains(self, c: char) -> bool {
        match self {
            CharClass::Whitespace => unicode_whitespace(c),
            CharClass::WordPart => is_word_part(c),
            CharClass::Digit => is_decimal_digit(c),
        }
    }
}

/// Where the longest run of characters of `class` that starts at `from` ends:
/// the first index at or after `from` that holds no character of the class.
pub open spec fn run_end(s: Seq<char>, from: int, class: CharClass) -> int
    decreases s.len() - from,
{
    if 0 <= from < s.len() && class.contains(s[from]) {
        run_end(s, from + 1, class)
    } else {
        from
    }
}

/// The number that a decimal digit stands for.
pub open spec fn digit_value(c: char) -> int {
    c as int - '0' as int
}

/// The number that a sequence of decimal digits denotes, most significant digit
/// first. The empty sequence denotes zero.
pub open spec fn decimal_value(digits: Seq<char>) -> int
    decreases digits.len(),
{
    if digits.len() == 0 {
        0
    } else {
        10 * decimal_value(digits.drop_last()) + digit_value(digits.last())
    }
}

/// A non-negative number as a signed 32-bit integer, if it fits.
pub open spec fn checked_i32(value: int) -> Option<i32> {
    if 0 <= value <= i32::MAX {
        Some(value as i32)
    } else {
        None
    }
}

/// The token for a number literal that starts at `position`, or the overflow
/// failure if its value is out of range.
pub open spec fn number_item(digits: Seq<char>, position: int) -> LexItem {
    match checked_i32(decimal_value(digits)) {
        Some(value) => Ok(TokenView::Number(value)),
        None => Err(LexError::IntegerOverflow { position: position as usize }),
    }
}

/// The token for a whole word: a keyword if the word is exactly `int` or
/// `return`, and otherwise an identifier with the word as its name.
pub open spec fn word_token(word: Seq<char>) -> TokenView {
    if word == "int"@ {
        TokenView::Int
    } else if word == "return"@ {
        TokenView::Return
    } else {
        TokenView::Identifier(word)
    }
}

/// The token that a punctuation character is on its own, if it is one.
pub open spec fn punctuation_token(c: char) -> Option<TokenView> {
    if c == '(' {
        Some(TokenView::LeftParen)
    } else if c == ')' {
        Some(TokenView::RightParen)
    } else if c == '{' {
        Some(TokenView::LeftBrace)
    } else if c == '}' {
        Some(TokenView::RightBrace)
    } else if c == ';' {
        Some(TokenView::Semicolon)
    } else {
        None
    }
}

/// A token or failure together with the position just behind it.
pub struct Lexeme {
    pub item: LexItem,
    pub end: int,
}

/// What the tokenizer yields when its cursor stands at `pos` in `s`.
///
/// White space is skipped first. At the end of the text the result is the
/// end-of-input token. Otherwise the first character decides: punctuation
/// stands for itself; a digit begins the longest run of digits, which is a
/// number or an overflow; a word start begins the longest run of word
/// characters, which is a keyword or an identifier; any other character is
/// reported as unrecognized and skipped.
pub open spec fn token_at(s: Seq<char>, pos: int) -> Lexeme {
    let start = run_end(s, pos, CharClass::Whitespace);
    if !(0 <= start < s.len()) {
        Lexeme { item: Ok(TokenView::EOF), end: start }
    } else if punctuation_token(s[start]) is Some {
        Lexeme { item: Ok(punctuation_token(s[start])->0), end: start + 1 }
    } else if is_decimal_digit(s[start]) {
        let end = run_end(s, start + 1, CharClass::Digit);
        Lexeme { item: number_item(s.subrange(start, end), start), end }
    } else if is_word_start(s[start]) {
        let end = run_end(s, start + 1, CharClass::WordPart);
        Lexeme { item: Ok(word_token(s.subrange(start, end))), end }
    } else {
        Lexeme {
            item: Err(
                LexError::UnrecognizedCharacter { position: start as usize, character: s[start] },
            ),
            end: start + 1,
        }
    }
}

/// An item after which a token stream holds nothing more: the end-of-input
/// token or a failure.
pub open spec fn is_terminal(item: LexItem) -> bool {
    item is Err || item == Ok::<TokenView, LexError>(TokenView::EOF)
}

/// The token stream of `s` from `pos` on: every token up to and including the
/// end-of-input token or the first failure.
pub open spec fn lex_all(s: Seq<char>, pos: int) -> Seq<LexItem>
    decreases s.len() - pos,
    via lex_all_decreases
{
    let lexeme = token_at(s, pos);
    if is_terminal(lexeme.item) {
        seq![lexeme.item]
    } else {
        seq![lexeme.item] + lex_all(s, lexeme.end)
    }
}

#[via_fn]
proof fn lex_all_decreases(s: Seq<char>, pos: int) {
    if 0 <= pos <= s.len() {
        lemma_token_at_advances(s, pos);
    }
}

/// The token stream of a whole source text.
pub open spec fn tokenize(source: Seq<char>) -> Seq<LexItem> {
    lex_all(source, 0)
}

/// A run ends within the text, holds only characters of its class, and cannot
/// be extended.
pub proof fn lemma_run_end(s: Seq<char>, from: int, class: CharClass)
    requires
        0 <= from <= s.len(),
    ensures
        from <= run_end(s, from, class) <= s.len(),
        forall|i: int| from <= i < run_end(s, from, class) ==> class.contains(#[trigger] s[i]),
        run_end(s, from, class) < s.len() ==> !class.contains(s[run_end(s, from, class)]),
    decreases s.len() - from,
{
    if from < s.len() && class.contains(s[from]) {
        lemma_run_end(s, from + 1, class);
    }
}

/// The end of a run is the only place at which a run of that class, started at
/// `from`, can be said to stop.
pub proof fn lemma_run_end_unique(s: Seq<char>, from: int, class: CharClass, end: int)
    requires
        0 <= from <= end <= s.len(),
        forall|i: int| from <= i < end ==> class.contains(#[trigger] s[i]),
        end < s.len() ==> !class.contains(s[end]),
    ensures
        run_end(s, from, class) == end,
    decreases end - from,
{
    if from < end {
        lemma_run_end_unique(s, from + 1, class, end);
    }
}

/// The cursor never moves backwards and never leaves the text; it moves forward
/// for every item but the end-of-input token, which is only met at the end of
/// the text.
pub proof fn lemma_token_at_advances(s: Seq<char>, pos: int)
    requires
        0 <= pos <= s.len(),
    ensures
        pos <= token_at(s, pos).end <= s.len(),
        token_at(s, pos).item != Ok::<TokenView, LexError>(TokenView::EOF) ==> pos < token_at(
            s,
            pos,
        ).end,
        token_at(s, pos).item == Ok::<TokenView, LexError>(TokenView::EOF) ==> token_at(s, pos).end
            == s.len(),
{
    let start = run_end(s, pos, CharClass::Whitespace);
    lemma_run_end(s, pos, CharClass::Whitespace);
    if start < s.len() {
        lemma_run_end(s, start + 1, CharClass::WordPart);
        lemma_run_end(s, start + 1, CharClass::Digit);
    }
}

/// Once the end of the input has been yielded it is yielded again, from where
/// the cursor was left, and the cursor stays there.
pub proof fn lemma_end_of_input_repeats(s: Seq<char>, pos: int)
    requires
        token_at(s, pos).item == Ok::<TokenView, LexError>(TokenView::EOF),
    ensures
        token_at(s, token_at(s, pos).end) == token_at(s, pos),
{
}

/// The empty text holds the end-of-input token and nothing else.
pub proof fn lemma_empty_text()
    ensures
        token_at(Seq::empty(), 0) == (Lexeme { item: Ok(TokenView::EOF), end: 0 }),
        tokenize(Seq::empty()) == seq![Ok::<TokenView, LexError>(TokenView::EOF)],
{
}

/// Keywords are matched exactly and as whole words: a word is the keyword
/// `int` or `return` only if it is that word letter for letter, in lower case,
/// with nothing before or behind. Every other word is an identifier named by
/// the word itself.
pub proof fn lemma_keywords_are_exact(word: Seq<char>)
    ensures
        word_token(word) == TokenView::Int <==> word == seq!['i', 'n', 't'],
        word_token(word) == TokenView::Return <==> word == seq!['r', 'e', 't', 'u', 'r', 'n'],
        word != seq!['i', 'n', 't'] && word != seq!['r', 'e', 't', 'u', 'r', 'n'] ==> word_token(
            word,
        ) == TokenView::Identifier(word),
{
    reveal_strlit("int");
    reveal_strlit("return");
    assert("int"@ == seq!['i', 'n', 't']);
    assert("return"@ == seq!['r', 'e', 't', 'u', 'r', 'n']);
    assert("int"@.len() != "return"@.len());
}

/// Identifiers take their name from the text as it stands, so names that
/// differ in case differ. A name starts with a word start that is no digit and
/// goes on with word characters, of which the decimal digits are some; it ends
/// where the text ends or a character that is no word character stands.
pub proof fn lemma_identifier_names(s: Seq<char>, pos: int)
    requires
        0 <= pos <= s.len(),
    ensures
        forall|c: char| is_decimal_digit(c) ==> CharClass::WordPart.contains(c),
        token_at(s, pos).item matches Ok(TokenView::Identifier(name)) ==> {
            let start = run_end(s, pos, CharClass::Whitespace);
            let end = token_at(s, pos).end;
            &&& pos <= start < end <= s.len()
            &&& name == s.subrange(start, end)
            &&& is_word_start(s[start]) && !is_decimal_digit(s[start])
            &&& forall|i: int| start < i < end ==> is_word_part(#[trigger] s[i])
            &&& end < s.len() ==> !is_word_part(s[end])
        },
{
    let start = run_end(s, pos, CharClass::Whitespace);
    lemma_run_end(s, pos, CharClass::Whitespace);
    if start < s.len() {
        lemma_run_end(s, start + 1, CharClass::WordPart);
        lemma_run_end(s, start + 1, CharClass::Digit);
    }
}

/// A decimal digit at the start of a token starts a number literal: the token
/// is a number or the literal overflows, whatever follows the digit.
pub proof fn lemma_digit_starts_number(s: Seq<char>, pos: int)
    requires
        0 <= run_end(s, pos, CharClass::Whitespace) < s.len(),
        is_decimal_digit(s[run_end(s, pos, CharClass::Whitespace)]),
    ensures
        token_at(s, pos).item matches Ok(token) ==> token is Number,
        token_at(s, pos).item matches Err(error) ==> error is IntegerOverflow,
{
}

} // verus!
