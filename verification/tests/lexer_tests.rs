use c_parser::lexer::{
    append_digit, is_digit, keyword_or_identifier, punctuation, LexError, Lexer, Token, TokenKind,
};

fn tokens_of(source: &str) -> Vec<Result<Token, LexError>> {
    let mut lexer = Lexer::new(source);
    let mut tokens = Vec::new();
    loop {
        let item = lexer.next_token();
        let done = item == Ok(Token::EOF);
        tokens.push(item);
        if done {
            return tokens;
        }
    }
}

fn identifier(name: &str) -> Result<Token, LexError> {
    Ok(Token::Identifier(name.to_string()))
}

#[test]
fn test_lexer() {
    let input = "int main() { return 0; }";
    let mut lexer = Lexer::new(input);
    assert_eq!(lexer.next_token(), Ok(Token::Int));
    assert_eq!(lexer.next_token(), Ok(Token::Identifier("main".to_string())));
    assert_eq!(lexer.next_token(), Ok(Token::LeftParen));
    assert_eq!(lexer.next_token(), Ok(Token::RightParen));
    assert_eq!(lexer.next_token(), Ok(Token::LeftBrace));
    assert_eq!(lexer.next_token(), Ok(Token::Return));
    assert_eq!(lexer.next_token(), Ok(Token::Number(0)));
    assert_eq!(lexer.next_token(), Ok(Token::Semicolon));
    assert_eq!(lexer.next_token(), Ok(Token::RightBrace));
    assert_eq!(lexer.next_token(), Ok(Token::EOF));
}

#[test]
fn spaced_source_yields_each_token_and_end_of_input_repeats() {
    let mut lexer = Lexer::new("int main ( ) { return 0 ; }");
    assert_eq!(lexer.next_token(), Ok(Token::Int));
    assert_eq!(lexer.next_token(), identifier("main"));
    assert_eq!(lexer.next_token(), Ok(Token::LeftParen));
    assert_eq!(lexer.next_token(), Ok(Token::RightParen));
    assert_eq!(lexer.next_token(), Ok(Token::LeftBrace));
    assert_eq!(lexer.next_token(), Ok(Token::Return));
    assert_eq!(lexer.next_token(), Ok(Token::Number(0)));
    assert_eq!(lexer.next_token(), Ok(Token::Semicolon));
    assert_eq!(lexer.next_token(), Ok(Token::RightBrace));
    assert_eq!(lexer.next_token(), Ok(Token::EOF));
    assert_eq!(lexer.next_token(), Ok(Token::EOF));
    assert_eq!(lexer.next_token(), Ok(Token::EOF));
}

#[test]
fn empty_source_is_end_of_input_at_once() {
    let mut lexer = Lexer::new("");
    assert_eq!(lexer.next_token(), Ok(Token::EOF));
    assert_eq!(lexer.next_token(), Ok(Token::EOF));
}

#[test]
fn white_space_alone_is_end_of_input() {
    let mut lexer = Lexer::new(" \t\r\n  ");
    assert_eq!(lexer.next_token(), Ok(Token::EOF));
    assert_eq!(lexer.next_token(), Ok(Token::EOF));
}

#[test]
fn every_kind_of_white_space_separates_tokens() {
    assert_eq!(
        tokens_of("int\tmain\n(\r\n)\u{a0}{\u{2003}}\u{0c};"),
        vec![
            Ok(Token::Int),
            identifier("main"),
            Ok(Token::LeftParen),
            Ok(Token::RightParen),
            Ok(Token::LeftBrace),
            Ok(Token::RightBrace),
            Ok(Token::Semicolon),
            Ok(Token::EOF),
        ]
    );
}

#[test]
fn punctuation_needs_no_white_space() {
    assert_eq!(
        tokens_of("(){};"),
        vec![
            Ok(Token::LeftParen),
            Ok(Token::RightParen),
            Ok(Token::LeftBrace),
            Ok(Token::RightBrace),
            Ok(Token::Semicolon),
            Ok(Token::EOF),
        ]
    );
}

#[test]
fn identifiers_may_hold_digits_and_underscores_behind_the_first_character() {
    assert_eq!(
        tokens_of("x1 _a9 a_b2 _ __ main2main"),
        vec![
            identifier("x1"),
            identifier("_a9"),
            identifier("a_b2"),
            identifier("_"),
            identifier("__"),
            identifier("main2main"),
            Ok(Token::EOF),
        ]
    );
}

#[test]
fn a_digit_does_not_start_an_identifier() {
    assert_eq!(
        tokens_of("123abc 9_"),
        vec![
            Ok(Token::Number(123)),
            identifier("abc"),
            Ok(Token::Number(9)),
            identifier("_"),
            Ok(Token::EOF),
        ]
    );
}

#[test]
fn keywords_are_whole_words_in_lower_case() {
    assert_eq!(
        tokens_of("int return Int INT Return RETURN inT int1 intx returns _int in ret"),
        vec![
            Ok(Token::Int),
            Ok(Token::Return),
            identifier("Int"),
            identifier("INT"),
            identifier("Return"),
            identifier("RETURN"),
            identifier("inT"),
            identifier("int1"),
            identifier("intx"),
            identifier("returns"),
            identifier("_int"),
            identifier("in"),
            identifier("ret"),
            Ok(Token::EOF),
        ]
    );
}

#[test]
fn identifier_names_are_case_sensitive() {
    assert_ne!(tokens_of("Main"), tokens_of("main"));
    assert_eq!(tokens_of("Main"), vec![identifier("Main"), Ok(Token::EOF)]);
}

#[test]
fn letters_beyond_ascii_make_identifiers() {
    assert_eq!(
        tokens_of("\u{e9}t\u{e9} \u{3b1}1"),
        vec![identifier("\u{e9}t\u{e9}"), identifier("\u{3b1}1"), Ok(Token::EOF)]
    );
}

#[test]
fn a_numeric_character_continues_an_identifier_but_starts_none() {
    // U+0663 is a digit of another script: numeric, not alphabetic, not 0 to 9.
    assert_eq!(tokens_of("a\u{663}"), vec![identifier("a\u{663}"), Ok(Token::EOF)]);
    assert_eq!(
        tokens_of("\u{663}a"),
        vec![
            Err(LexError::UnrecognizedCharacter { position: 0, character: '\u{663}' }),
            identifier("a"),
            Ok(Token::EOF),
        ]
    );
}

#[test]
fn number_literals_have_their_decimal_value() {
    assert_eq!(
        tokens_of("0 7 42 007 1234567890 2147483647"),
        vec![
            Ok(Token::Number(0)),
            Ok(Token::Number(7)),
            Ok(Token::Number(42)),
            Ok(Token::Number(7)),
            Ok(Token::Number(1234567890)),
            Ok(Token::Number(2147483647)),
            Ok(Token::EOF),
        ]
    );
}

#[test]
fn leading_zeros_do_not_overflow() {
    assert_eq!(
        tokens_of("000000000000000000000000000000000001"),
        vec![Ok(Token::Number(1)), Ok(Token::EOF)]
    );
    assert_eq!(
        tokens_of("00000000002147483647"),
        vec![Ok(Token::Number(i32::MAX)), Ok(Token::EOF)]
    );
}

#[test]
fn a_literal_above_the_32_bit_range_is_an_overflow() {
    assert_eq!(
        tokens_of("2147483648"),
        vec![Err(LexError::IntegerOverflow { position: 0 }), Ok(Token::EOF)]
    );
    assert_eq!(
        tokens_of("  99999999999999999999999999"),
        vec![Err(LexError::IntegerOverflow { position: 2 }), Ok(Token::EOF)]
    );
    assert_eq!(
        tokens_of("4294967296"),
        vec![Err(LexError::IntegerOverflow { position: 0 }), Ok(Token::EOF)]
    );
}

#[test]
fn the_cursor_moves_past_an_overflowing_literal() {
    assert_eq!(
        tokens_of("1 3000000000; 2"),
        vec![
            Ok(Token::Number(1)),
            Err(LexError::IntegerOverflow { position: 2 }),
            Ok(Token::Semicolon),
            Ok(Token::Number(2)),
            Ok(Token::EOF),
        ]
    );
}

#[test]
fn a_character_that_starts_no_token_is_reported_with_its_position() {
    let mut lexer = Lexer::new("int $x");
    assert_eq!(lexer.next_token(), Ok(Token::Int));
    assert_eq!(
        lexer.next_token(),
        Err(LexError::UnrecognizedCharacter { position: 4, character: '$' })
    );
    assert_eq!(lexer.next_token(), identifier("x"));
    assert_eq!(lexer.next_token(), Ok(Token::EOF));
}

#[test]
fn a_sign_is_no_part_of_a_number() {
    assert_eq!(
        tokens_of("-1 +2"),
        vec![
            Err(LexError::UnrecognizedCharacter { position: 0, character: '-' }),
            Ok(Token::Number(1)),
            Err(LexError::UnrecognizedCharacter { position: 3, character: '+' }),
            Ok(Token::Number(2)),
            Ok(Token::EOF),
        ]
    );
}

#[test]
fn positions_count_characters() {
    // The first two characters take two bytes each.
    assert_eq!(
        tokens_of("\u{e9}\u{e9} @"),
        vec![
            identifier("\u{e9}\u{e9}"),
            Err(LexError::UnrecognizedCharacter { position: 3, character: '@' }),
            Ok(Token::EOF),
        ]
    );
    assert_eq!(
        tokens_of("\u{e9} 9999999999"),
        vec![
            identifier("\u{e9}"),
            Err(LexError::IntegerOverflow { position: 2 }),
            Ok(Token::EOF),
        ]
    );
}

#[test]
fn a_failure_is_not_the_end_of_input() {
    assert_ne!(Lexer::new("@").next_token(), Ok(Token::EOF));
    assert_ne!(Lexer::new("2147483648").next_token(), Ok(Token::EOF));
}

#[test]
fn tokens_are_equal_when_what_they_carry_is_equal() {
    assert_eq!(Token::Identifier("a".to_string()), Token::Identifier("a".to_string()));
    assert_ne!(Token::Identifier("a".to_string()), Token::Identifier("b".to_string()));
    assert_ne!(Token::Identifier("a".to_string()), Token::Identifier("A".to_string()));
    assert_eq!(Token::Number(5), Token::Number(5));
    assert_ne!(Token::Number(5), Token::Number(6));
    assert_ne!(Token::Int, Token::Return);
    assert_ne!(Token::LeftParen, Token::RightParen);
    assert_ne!(Token::LeftBrace, Token::RightBrace);
    assert_ne!(Token::Semicolon, Token::EOF);
    assert_ne!(Token::Identifier("int".to_string()), Token::Int);
    assert_eq!(Token::EOF, Token::EOF);
}

#[test]
fn a_cloned_token_equals_its_source() {
    let tokens = vec![
        Token::Int,
        Token::Return,
        Token::Identifier("main".to_string()),
        Token::Number(-3),
        Token::LeftParen,
        Token::RightParen,
        Token::LeftBrace,
        Token::RightBrace,
        Token::Semicolon,
        Token::EOF,
    ];
    for token in &tokens {
        assert_eq!(&token.clone(), token);
    }
}

#[test]
fn each_token_has_its_kind() {
    assert_eq!(Token::Int.kind(), TokenKind::Int);
    assert_eq!(Token::Return.kind(), TokenKind::Return);
    assert_eq!(Token::Identifier("x".to_string()).kind(), TokenKind::Identifier);
    assert_eq!(Token::Number(1).kind(), TokenKind::Number);
    assert_eq!(Token::LeftParen.kind(), TokenKind::LeftParen);
    assert_eq!(Token::RightParen.kind(), TokenKind::RightParen);
    assert_eq!(Token::LeftBrace.kind(), TokenKind::LeftBrace);
    assert_eq!(Token::RightBrace.kind(), TokenKind::RightBrace);
    assert_eq!(Token::Semicolon.kind(), TokenKind::Semicolon);
    assert_eq!(Token::EOF.kind(), TokenKind::EOF);
}

#[test]
fn punctuation_characters_stand_for_their_tokens() {
    assert_eq!(punctuation('('), Some(Token::LeftParen));
    assert_eq!(punctuation(')'), Some(Token::RightParen));
    assert_eq!(punctuation('{'), Some(Token::LeftBrace));
    assert_eq!(punctuation('}'), Some(Token::RightBrace));
    assert_eq!(punctuation(';'), Some(Token::Semicolon));
    assert_eq!(punctuation('['), None);
    assert_eq!(punctuation(','), None);
    assert_eq!(punctuation('a'), None);
    assert_eq!(punctuation(' '), None);
}

#[test]
fn words_are_keywords_only_when_they_match_exactly() {
    assert_eq!(keyword_or_identifier("int".to_string()), Token::Int);
    assert_eq!(keyword_or_identifier("return".to_string()), Token::Return);
    assert_eq!(keyword_or_identifier("Int".to_string()), Token::Identifier("Int".to_string()));
    assert_eq!(keyword_or_identifier("in".to_string()), Token::Identifier("in".to_string()));
    assert_eq!(
        keyword_or_identifier("return_".to_string()),
        Token::Identifier("return_".to_string())
    );
    assert_eq!(keyword_or_identifier(String::new()), Token::Identifier(String::new()));
}

#[test]
fn decimal_digits_are_zero_to_nine() {
    for c in "0123456789".chars() {
        assert!(is_digit(c));
    }
    assert!(!is_digit('/'));
    assert!(!is_digit(':'));
    assert!(!is_digit('a'));
    assert!(!is_digit('\u{663}'));
}

#[test]
fn appending_a_digit_multiplies_by_ten_and_adds() {
    assert_eq!(append_digit(0, '0'), Some(0));
    assert_eq!(append_digit(0, '9'), Some(9));
    assert_eq!(append_digit(12, '3'), Some(123));
    assert_eq!(append_digit(214748364, '7'), Some(2147483647));
    assert_eq!(append_digit(214748364, '8'), None);
    assert_eq!(append_digit(214748365, '0'), None);
    assert_eq!(append_digit(2147483647, '0'), None);
}
