//! The parser: pulls tokens from a tokenizer, one token of lookahead at a
//! time, and builds the syntax tree.
//!
//! Parsing stops at the first failure and returns it; no partial tree is
//! handed out. A program is one function definition, and text that ends before
//! its closing brace is a failure. What follows the closing brace is not looked
//! at: the parser stops there, with the token behind the brace as its
//! lookahead.

use crate::ast::{Expr, Function, FunctionView, Program, ProgramView, Statement};
use crate::grammar;
use crate::grammar::{lemma_program_sound, lemma_statement_consumes};
use crate::lexer::{lex_item_view, LexError, LexItem, Lexer, Token, TokenKind, TokenView};
use crate::lexical::is_terminal;
use vstd::prelude::*;

verus! {

/// Why a token stream is not a program. Parsing stops at the first failure.
#[derive(Debug, PartialEq)]
pub enum ParseError {
    /// The tokenizer failed on the token that the parser needed next.
    Lexical(LexError),
    /// A token of kind `expected` is required and `found` stands there.
    UnexpectedToken { expected: TokenKind, found: Token },
    /// The input ends before the function body begins, where a token of kind
    /// `expected` is required.
    UnexpectedEndOfInput { expected: TokenKind },
    /// The input ends inside the function body, before its closing brace.
    UnterminatedFunctionBody,
}

/// The mathematical value of a [`ParseError`].
pub enum ParseErrorView {
    Lexical(LexError),
    UnexpectedToken { expected: TokenKind, found: TokenView },
    UnexpectedEndOfInput { expected: TokenKind },
    UnterminatedFunctionBody,
}

impl View for ParseError {
    type V = ParseErrorView;

    open spec fn view(&self) -> ParseErrorView {
        match self {
            ParseError::Lexical(error) => ParseErrorView::Lexical(*error),
            ParseError::UnexpectedToken { expected, found } => ParseErrorView::UnexpectedToken {
                expected: *expected,
                found: found@,
            },
            ParseError::UnexpectedEndOfInput { expected } => ParseErrorView::UnexpectedEndOfInput {
                expected: *expected,
            },
            ParseError::UnterminatedFunctionBody => ParseErrorView::UnterminatedFunctionBody,
        }
    }
}

/// A result whose value is its own mathematical value, with the mathematical
/// value of its failure.
pub open spec fn error_view<T>(result: Result<T, ParseError>) -> Result<T, ParseErrorView> {
    match result {
        Ok(value) => Ok(value),
        Err(error) => Err(error@),
    }
}

/// The mathematical value of the result of parsing a program.
pub open spec fn program_result_view(result: Result<Program, ParseError>) -> Result<
    ProgramView,
    ParseErrorView,
> {
    match result {
        Ok(program) => Ok(program@),
        Err(error) => Err(error@),
    }
}

/// A parser over one tokenizer. It owns the tokenizer and holds the one token
/// of lookahead that it has pulled and not yet consumed.
pub struct Parser {
    lexer: Lexer,
    current_token: Result<Token, LexError>,
}

impl Parser {
    /// The token stream that is still to be parsed: the lookahead and what the
    /// tokenizer holds behind it, up to and including the end-of-input token
    /// or the first failure.
    pub closed spec fn remaining(&self) -> Seq<LexItem> {
        let head = lex_item_view(self.current_token);
        if is_terminal(head) {
            seq![head]
        } else {
            seq![head] + self.lexer.remaining()
        }
    }

    /// A parser over the tokens that `lexer` has not yet yielded. The first of
    /// them is pulled at once.
    pub fn new(lexer: Lexer) -> (parser: Parser)
        ensures
            parser.remaining() == lexer.remaining(),
    {
        let mut lexer = lexer;
        let current_token = lexer.next_token();
        Parser { lexer, current_token }
    }

    /// The lookahead.
    fn peek(&self) -> (item: &Result<Token, LexError>)
        ensures
            lex_item_view(*item) == grammar::lookahead(self.remaining()),
    {
        &self.current_token
    }

    /// Whether the lookahead is a token of the given kind.
    fn at(&self, kind: TokenKind) -> (at: bool)
        ensures
            at == grammar::accepts(self.remaining(), kind),
    {
        match self.peek() {
            Ok(token) => token.kind() == kind,
            Err(_) => false,
        }
    }

    /// Replaces the lookahead by the next token, unless it is the end of the
    /// input or a failure.
    fn advance(&mut self)
        ensures
            final(self).remaining() == grammar::advance(old(self).remaining()),
    {
        let passable = match self.peek() {
            Ok(token) => token.kind() != TokenKind::EOF,
            Err(_) => false,
        };
        if passable {
            self.current_token = self.lexer.next_token();
            assert(self.remaining() == old(self).remaining().skip(1));
        }
    }

    /// The failure to report when the lookahead is not of kind `expected`,
    /// inside the function body or before it.
    fn mismatch(&self, expected: TokenKind, in_body: bool) -> (error: ParseError)
        ensures
            error@ == grammar::mismatch(expected, grammar::lookahead(self.remaining()), in_body),
    {
        match self.peek() {
            Err(error) => ParseError::Lexical(*error),
            Ok(Token::EOF) => if in_body {
                ParseError::UnterminatedFunctionBody
            } else {
                ParseError::UnexpectedEndOfInput { expected }
            },
            Ok(token) => ParseError::UnexpectedToken { expected, found: token.clone() },
        }
    }

    /// Passes the lookahead if it is of kind `expected` and fails otherwise,
    /// reporting what was expected and what was found. `in_body` says whether
    /// the function body has been opened, which decides how the end of the
    /// input is reported. Every rule of the grammar moves through the stream
    /// by this function.
    fn consume(&mut self, expected: TokenKind, in_body: bool) -> (result: Result<(), ParseError>)
        ensures
            error_view(result) == grammar::expect(old(self).remaining(), expected, in_body).result,
            final(self).remaining() == grammar::expect(
                old(self).remaining(),
                expected,
                in_body,
            ).rest,
    {
        if self.at(expected) {
            self.advance();
            Ok(())
        } else {
            Err(self.mismatch(expected, in_body))
        }
    }

    /// Passes an identifier and gives its name.
    fn parse_identifier(&mut self) -> (result: Result<String, ParseError>)
        ensures
            match result {
                Ok(name) => grammar::identifier(old(self).remaining()).result == Ok::<
                    Seq<char>,
                    ParseErrorView,
                >(name@),
                Err(error) => grammar::identifier(old(self).remaining()).result == Err::<
                    Seq<char>,
                    ParseErrorView,
                >(error@),
            },
            final(self).remaining() == grammar::identifier(old(self).remaining()).rest,
    {
        let name = match self.peek() {
            Ok(Token::Identifier(name)) => Some(name.clone()),
            _ => None,
        };
        match name {
            Some(name) => {
                self.consume(TokenKind::Identifier, false)?;
                Ok(name)
            },
            None => Err(self.mismatch(TokenKind::Identifier, false)),
        }
    }

    /// Parses an expression: a number literal.
    fn parse_expr(&mut self) -> (result: Result<Expr, ParseError>)
        ensures
            error_view(result) == grammar::expression(old(self).remaining()).result,
            final(self).remaining() == grammar::expression(old(self).remaining()).rest,
    {
        let value = match self.peek() {
            Ok(Token::Number(value)) => Some(*value),
            _ => None,
        };
        match value {
            Some(value) => {
                self.consume(TokenKind::Number, true)?;
                Ok(Expr::Number(value))
            },
            None => Err(self.mismatch(TokenKind::Number, true)),
        }
    }

    /// Parses a statement: `return`, an expression and a semicolon.
    fn parse_statement(&mut self) -> (result: Result<Statement, ParseError>)
        ensures
            error_view(result) == grammar::statement(old(self).remaining()).result,
            final(self).remaining() == grammar::statement(old(self).remaining()).rest,
    {
        self.consume(TokenKind::Return, true)?;
        let value = self.parse_expr()?;
        self.consume(TokenKind::Semicolon, true)?;
        Ok(Statement::Return(value))
    }

    /// Parses a function definition: `int`, the name, `(`, `)`, `{`, the
    /// statements up to the closing brace, and that brace.
    fn parse_function(&mut self) -> (result: Result<Function, ParseError>)
        ensures
            match result {
                Ok(function) => grammar::function(old(self).remaining()).result == Ok::<
                    FunctionView,
                    ParseErrorView,
                >(function@),
                Err(error) => grammar::function(old(self).remaining()).result == Err::<
                    FunctionView,
                    ParseErrorView,
                >(error@),
            },
            final(self).remaining() == grammar::function(old(self).remaining()).rest,
    {
        self.consume(TokenKind::Int, false)?;
        let name = self.parse_identifier()?;
        self.consume(TokenKind::LeftParen, false)?;
        self.consume(TokenKind::RightParen, false)?;
        self.consume(TokenKind::LeftBrace, false)?;
        let ghost opened = self.remaining();
        let mut body: Vec<Statement> = Vec::new();
        while !self.at(TokenKind::RightBrace)
            invariant
                grammar::function(old(self).remaining()) == grammar::function_body(
                    name@,
                    grammar::statements(opened),
                ),
                grammar::statements(opened) == grammar::prepend(
                    body@,
                    grammar::statements(self.remaining()),
                ),
            decreases self.remaining().len(),
        {
            proof {
                lemma_statement_consumes(self.remaining());
            }
            let ghost before = self.remaining();
            let statement = self.parse_statement()?;
            proof {
                let later = grammar::statements(self.remaining());
                assert(grammar::statements(before) == grammar::prepend(seq![statement], later));
                if later.result is Ok {
                    assert(body@.push(statement) + later.result->Ok_0 == body@ + (seq![statement]
                        + later.result->Ok_0));
                }
            }
            body.push(statement);
        }
        proof {
            assert(body@ + Seq::<Statement>::empty() == body@);
        }
        self.consume(TokenKind::RightBrace, true)?;
        Ok(Function { name, body })
    }

    /// Parses a whole program: one function definition.
    ///
    /// The result is the tree if the tokens that remain start with a function
    /// definition, and otherwise the first failure met. No partial tree is
    /// returned. Tokens behind the closing brace are not looked at, whatever
    /// they are. The parser is left at the first token that it did not
    /// consume: after a program, at the token behind the closing brace.
    pub fn parse_program(&mut self) -> (result: Result<Program, ParseError>)
        ensures
            program_result_view(result) == grammar::program(old(self).remaining()).result,
            final(self).remaining() == grammar::program(old(self).remaining()).rest,
            result matches Ok(program) ==> old(self).remaining() == grammar::program_tokens(
                program@,
            ) + final(self).remaining(),
    {
        proof {
            lemma_program_sound(self.remaining());
        }
        let function = self.parse_function()?;
        Ok(Program::Function(function))
    }
}

} // verus!
