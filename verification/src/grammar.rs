//! The grammar, as mathematical functions over token streams.
//!
//! ```text
//! Program    := Function
//! Function   := "int" Identifier "(" ")" "{" Statement* "}"
//! Statement  := "return" Expression ";"
//! Expression := Number
//! ```
//!
//! A token stream is a sequence of tokenizer results. Each function below
//! reads one construct from the front of a stream and gives the tree or the
//! failure together with the stream that is left. A stream that has run out
//! reads as the end of the input. What follows a whole function definition is
//! left in the stream and plays no part in the result.

use crate::ast::{Expr, FunctionView, ProgramView, Statement};
use crate::lexer::{LexError, LexItem, TokenKind, TokenView};
use crate::lexical::is_terminal;
use crate::parser::ParseErrorView;
use vstd::prelude::*;

verus! {

/// What reading one construct from a token stream gives: the construct or the
/// failure, and the stream from the first token that was not consumed.
pub struct Outcome<T> {
    pub result: Result<T, ParseErrorView>,
    pub rest: Seq<LexItem>,
}

/// The item at the front of the stream.
pub open spec fn lookahead(items: Seq<LexItem>) -> LexItem {
    if items.len() > 0 {
        items[0]
    } else {
        Ok(TokenView::EOF)
    }
}

/// The stream behind its first item. The end of the input and a failure are
/// never passed.
pub open spec fn advance(items: Seq<LexItem>) -> Seq<LexItem> {
    if is_terminal(lookahead(items)) {
        items
    } else {
        items.skip(1)
    }
}

/// Whether the stream starts with a token of the given kind.
pub open spec fn accepts(items: Seq<LexItem>, kind: TokenKind) -> bool {
    lookahead(items) matches Ok(token) && token.kind() == kind
}

/// The failure to report when a token of kind `expected` is required and
/// `found` stands there instead: the tokenizer's own failure if it had one; the
/// end of the input inside a function body as an unterminated body and
/// elsewhere as an unexpected end; any other token as unexpected.
pub open spec fn mismatch(expected: TokenKind, found: LexItem, in_body: bool) -> ParseErrorView {
    match found {
        Err(error) => ParseErrorView::Lexical(error),
        Ok(TokenView::EOF) => if in_body {
            ParseErrorView::UnterminatedFunctionBody
        } else {
            ParseErrorView::UnexpectedEndOfInput { expected }
        },
        Ok(token) => ParseErrorView::UnexpectedToken { expected, found: token },
    }
}

/// Reads one token of the given kind.
pub open spec fn expect(items: Seq<LexItem>, kind: TokenKind, in_body: bool) -> Outcome<()> {
    if accepts(items, kind) {
        Outcome { result: Ok(()), rest: advance(items) }
    } else {
        Outcome { result: Err(mismatch(kind, lookahead(items), in_body)), rest: items }
    }
}

/// Reads an identifier and gives its name.
pub open spec fn identifier(items: Seq<LexItem>) -> Outcome<Seq<char>> {
    match lookahead(items) {
        Ok(TokenView::Identifier(name)) => Outcome { result: Ok(name), rest: advance(items) },
        found => Outcome {
            result: Err(mismatch(TokenKind::Identifier, found, false)),
            rest: items,
        },
    }
}

/// `Expression := Number`
pub open spec fn expression(items: Seq<LexItem>) -> Outcome<Expr> {
    match lookahead(items) {
        Ok(TokenView::Number(value)) => Outcome {
            result: Ok(Expr::Number(value)),
            rest: advance(items),
        },
        found => Outcome { result: Err(mismatch(TokenKind::Number, found, true)), rest: items },
    }
}

/// `Statement := "return" Expression ";"`
pub open spec fn statement(items: Seq<LexItem>) -> Outcome<Statement> {
    let keyword = expect(items, TokenKind::Return, true);
    let value = expression(keyword.rest);
    let semicolon = expect(value.rest, TokenKind::Semicolon, true);
    if keyword.result is Err {
        Outcome { result: Err(keyword.result->Err_0), rest: keyword.rest }
    } else if value.result is Err {
        Outcome { result: Err(value.result->Err_0), rest: value.rest }
    } else if semicolon.result is Err {
        Outcome { result: Err(semicolon.result->Err_0), rest: semicolon.rest }
    } else {
        Outcome { result: Ok(Statement::Return(value.result->Ok_0)), rest: semicolon.rest }
    }
}

/// `Statement*`, up to a closing brace, which is left in the stream.
pub open spec fn statements(items: Seq<LexItem>) -> Outcome<Seq<Statement>>
    decreases items.len(),
    via statements_decreases
{
    if accepts(items, TokenKind::RightBrace) {
        Outcome { result: Ok(Seq::empty()), rest: items }
    } else {
        let first = statement(items);
        if first.result is Err {
            Outcome { result: Err(first.result->Err_0), rest: first.rest }
        } else {
            prepend(seq![first.result->Ok_0], statements(first.rest))
        }
    }
}

#[via_fn]
proof fn statements_decreases(items: Seq<LexItem>) {
    lemma_statement_consumes(items);
}

/// The outcome `later` with the statements `earlier` put before its own.
pub open spec fn prepend(earlier: Seq<Statement>, later: Outcome<Seq<Statement>>) -> Outcome<
    Seq<Statement>,
> {
    match later.result {
        Ok(body) => Outcome { result: Ok(earlier + body), rest: later.rest },
        Err(error) => Outcome { result: Err(error), rest: later.rest },
    }
}

/// `"int" Identifier "(" ")" "{"`: a function definition up to the start of
/// its body. Gives the function's name.
pub open spec fn function_header(items: Seq<LexItem>) -> Outcome<Seq<char>> {
    let keyword = expect(items, TokenKind::Int, false);
    let name = identifier(keyword.rest);
    let left_paren = expect(name.rest, TokenKind::LeftParen, false);
    let right_paren = expect(left_paren.rest, TokenKind::RightParen, false);
    let left_brace = expect(right_paren.rest, TokenKind::LeftBrace, false);
    if keyword.result is Err {
        Outcome { result: Err(keyword.result->Err_0), rest: keyword.rest }
    } else if name.result is Err {
        Outcome { result: Err(name.result->Err_0), rest: name.rest }
    } else if left_paren.result is Err {
        Outcome { result: Err(left_paren.result->Err_0), rest: left_paren.rest }
    } else if right_paren.result is Err {
        Outcome { result: Err(right_paren.result->Err_0), rest: right_paren.rest }
    } else if left_brace.result is Err {
        Outcome { result: Err(left_brace.result->Err_0), rest: left_brace.rest }
    } else {
        Outcome { result: Ok(name.result->Ok_0), rest: left_brace.rest }
    }
}

/// The function called `name`, given the outcome of reading its statements: the
/// closing brace that the statements stop at is passed.
pub open spec fn function_body(name: Seq<char>, body: Outcome<Seq<Statement>>) -> Outcome<
    FunctionView,
> {
    match body.result {
        Ok(statements) => Outcome {
            result: Ok(FunctionView { name, body: statements }),
            rest: advance(body.rest),
        },
        Err(error) => Outcome { result: Err(error), rest: body.rest },
    }
}

/// `Function := "int" Identifier "(" ")" "{" Statement* "}"`
pub open spec fn function(items: Seq<LexItem>) -> Outcome<FunctionView> {
    let header = function_header(items);
    match header.result {
        Ok(name) => function_body(name, statements(header.rest)),
        Err(error) => Outcome { result: Err(error), rest: header.rest },
    }
}

/// `Program := Function`. What follows the function's closing brace is not
/// looked at: it is left in the stream, whatever it is.
pub open spec fn program(items: Seq<LexItem>) -> Outcome<ProgramView> {
    let definition = function(items);
    match definition.result {
        Ok(read) => Outcome { result: Ok(ProgramView::Function(read)), rest: definition.rest },
        Err(error) => Outcome { result: Err(error), rest: definition.rest },
    }
}

/// The tokens that a statement is written with.
pub open spec fn statement_tokens(statement: Statement) -> Seq<LexItem> {
    match statement {
        Statement::Return(Expr::Number(value)) => seq![
            Ok(TokenView::Return),
            Ok(TokenView::Number(value)),
            Ok(TokenView::Semicolon),
        ],
    }
}

/// The tokens that a sequence of statements is written with, in order.
pub open spec fn body_tokens(body: Seq<Statement>) -> Seq<LexItem>
    decreases body.len(),
{
    if body.len() == 0 {
        Seq::empty()
    } else {
        statement_tokens(body[0]) + body_tokens(body.skip(1))
    }
}

/// The tokens that a function definition is written with, from `int` to the
/// closing brace.
pub open spec fn function_tokens(function: FunctionView) -> Seq<LexItem> {
    seq![
        Ok(TokenView::Int),
        Ok(TokenView::Identifier(function.name)),
        Ok(TokenView::LeftParen),
        Ok(TokenView::RightParen),
        Ok(TokenView::LeftBrace),
    ] + body_tokens(function.body) + seq![Ok(TokenView::RightBrace)]
}

/// The tokens that a program is written with.
pub open spec fn program_tokens(program: ProgramView) -> Seq<LexItem> {
    match program {
        ProgramView::Function(function) => function_tokens(function),
    }
}

/// A statement that is read takes three tokens from the stream.
pub proof fn lemma_statement_consumes(items: Seq<LexItem>)
    ensures
        statement(items).result is Ok ==> items.len() >= 3 && statement(items).rest == items.skip(
            3,
        ),
{
    if statement(items).result is Ok {
        assert(items.skip(1).skip(1).skip(1) == items.skip(3));
    }
}

/// The tokens of a statement, whatever follows them, are read as that
/// statement, and what follows is left.
pub proof fn lemma_statement_round_trip(written: Statement, tail: Seq<LexItem>)
    ensures
        statement(statement_tokens(written) + tail) == (Outcome {
            result: Ok(written),
            rest: tail,
        }),
{
    let items = statement_tokens(written) + tail;
    assert(items.skip(1).skip(1).skip(1) == tail);
}

/// Reading statements from the tokens of `body` followed by `tail` gives the
/// statements of `body`, in their order, followed by whatever reading
/// statements from `tail` gives.
pub proof fn lemma_statements_round_trip(body: Seq<Statement>, tail: Seq<LexItem>)
    ensures
        statements(body_tokens(body) + tail) == prepend(body, statements(tail)),
    decreases body.len(),
{
    let later = statements(tail);
    if body.len() == 0 {
        assert(body_tokens(body) + tail == tail);
        if later.result is Ok {
            assert(body + later.result->Ok_0 == later.result->Ok_0);
        }
    } else {
        let first = body[0];
        let others = body.skip(1);
        let items = body_tokens(body) + tail;
        assert(items == statement_tokens(first) + (body_tokens(others) + tail));
        lemma_statement_round_trip(first, body_tokens(others) + tail);
        lemma_statements_round_trip(others, tail);
        assert(seq![first] + others == body);
        if later.result is Ok {
            assert(seq![first] + (others + later.result->Ok_0) == body + later.result->Ok_0);
        }
    }
}

/// Statements that are read were written in the stream, in the order in which
/// they are given, and a closing brace follows them.
pub proof fn lemma_statements_sound(items: Seq<LexItem>)
    ensures
        statements(items).result matches Ok(body) ==> items == body_tokens(body) + statements(
            items,
        ).rest && accepts(statements(items).rest, TokenKind::RightBrace),
    decreases items.len(),
{
    if statements(items).result is Ok {
        let body = statements(items).result->Ok_0;
        if accepts(items, TokenKind::RightBrace) {
            assert(body_tokens(body) + items == items);
        } else {
            let first = statement(items);
            lemma_statement_consumes(items);
            lemma_statements_sound(first.rest);
            let later = statements(first.rest);
            let others = later.result->Ok_0;
            assert(body == seq![first.result->Ok_0] + others);
            assert(body.skip(1) == others);
            assert(items == statement_tokens(body[0]) + items.skip(3));
        }
    }
}

/// Reading back what was written: the tokens of any function definition,
/// whatever follows them, are read as that function, with its name and with its
/// statements in their order, and what follows is left.
pub proof fn lemma_function_round_trip(written: FunctionView, tail: Seq<LexItem>)
    ensures
        function(function_tokens(written) + tail) == (Outcome {
            result: Ok(written),
            rest: tail,
        }),
{
    let items = function_tokens(written) + tail;
    let closing = seq![Ok::<TokenView, LexError>(TokenView::RightBrace)] + tail;
    let inner = body_tokens(written.body) + closing;
    assert(items.skip(1).skip(1).skip(1).skip(1).skip(1) == inner);
    assert(function_header(items) == (Outcome { result: Ok(written.name), rest: inner }));
    lemma_statements_round_trip(written.body, closing);
    assert(written.body + Seq::<Statement>::empty() == written.body);
    assert(closing.skip(1) == tail);
}

/// Reading back what was written: the tokens of any program, whatever
/// follows them, are read as that program, with the function's name and with
/// its statements in the order in which they were written: none is dropped,
/// repeated or moved. What follows is left in the stream.
pub proof fn lemma_program_round_trip(written: ProgramView, tail: Seq<LexItem>)
    ensures
        program(program_tokens(written) + tail) == (Outcome { result: Ok(written), rest: tail }),
{
    lemma_function_round_trip(written->0, tail);
}

/// Only what was written is read: a stream is read as a program only if it
/// starts with the tokens of that program, and what is left of the stream is
/// what follows them.
pub proof fn lemma_program_sound(items: Seq<LexItem>)
    ensures
        program(items).result matches Ok(read) ==> items == program_tokens(read) + program(
            items,
        ).rest,
{
    if program(items).result is Ok {
        let header = function_header(items);
        let body = statements(header.rest);
        lemma_statements_sound(header.rest);
        let read = function(items).result->Ok_0;
        let opening = seq![
            Ok::<TokenView, LexError>(TokenView::Int),
            Ok(TokenView::Identifier(read.name)),
            Ok(TokenView::LeftParen),
            Ok(TokenView::RightParen),
            Ok(TokenView::LeftBrace),
        ];
        let closing = seq![Ok::<TokenView, LexError>(TokenView::RightBrace)];
        assert(items.skip(1).skip(1).skip(1).skip(1).skip(1) == header.rest);
        assert(items.skip(1)[0] == items[1]);
        assert(items.skip(1).skip(1)[0] == items[2]);
        assert(items.skip(1).skip(1).skip(1)[0] == items[3]);
        assert(items.skip(1).skip(1).skip(1).skip(1)[0] == items[4]);
        assert(items == opening + header.rest);
        assert(body.rest == closing + body.rest.skip(1));
        assert(program(items).rest == body.rest.skip(1));
        assert(items == opening + body_tokens(read.body) + closing + program(items).rest);
    }
}

/// A stream is read as a given program exactly if it starts with the tokens of
/// that program.
pub proof fn lemma_program_accepts_exactly(items: Seq<LexItem>, written: ProgramView)
    ensures
        program(items).result == Ok::<ProgramView, ParseErrorView>(written) <==> program_tokens(
            written,
        ).is_prefix_of(items),
{
    let tokens = program_tokens(written);
    if tokens.is_prefix_of(items) {
        assert(items == tokens + items.skip(tokens.len() as int));
        lemma_program_round_trip(written, items.skip(tokens.len() as int));
    }
    if program(items).result == Ok::<ProgramView, ParseErrorView>(written) {
        lemma_program_sound(items);
        assert(tokens == items.subrange(0, tokens.len() as int));
    }
}

/// Where each statement is written: the tokens of a body are three for each
/// statement, and those of the statement at index `i` stand at the indices
/// `3 * i` to `3 * i + 2`, so the tokens keep the order of the statements.
pub proof fn lemma_body_tokens_layout(body: Seq<Statement>, i: int)
    requires
        0 <= i < body.len(),
    ensures
        body_tokens(body).len() == 3 * body.len(),
        body_tokens(body).subrange(3 * i, 3 * i + 3) == statement_tokens(body[i]),
    decreases body.len(),
{
    lemma_body_tokens_len(body);
    let others = body.skip(1);
    lemma_body_tokens_len(others);
    if i > 0 {
        lemma_body_tokens_layout(others, i - 1);
        assert(others[i - 1] == body[i]);
        assert(body_tokens(body).subrange(3 * i, 3 * i + 3) == body_tokens(others).subrange(
            3 * (i - 1),
            3 * (i - 1) + 3,
        ));
    }
}

/// The tokens of a body are three for each statement.
pub proof fn lemma_body_tokens_len(body: Seq<Statement>)
    ensures
        body_tokens(body).len() == 3 * body.len(),
    decreases body.len(),
{
    if body.len() > 0 {
        lemma_body_tokens_len(body.skip(1));
    }
}

/// A function definition that lacks its closing brace is not read as a
/// program: where the input ends in place of the brace, the failure is an
/// unterminated function body.
pub proof fn lemma_missing_closing_brace(written: FunctionView)
    ensures
        program(function_tokens(written).drop_last() + seq![Ok(TokenView::EOF)]).result == Err::<
            ProgramView,
            ParseErrorView,
        >(ParseErrorView::UnterminatedFunctionBody),
{
    let end = seq![Ok::<TokenView, LexError>(TokenView::EOF)];
    let items = function_tokens(written).drop_last() + end;
    let inner = body_tokens(written.body) + end;
    assert(items.skip(1).skip(1).skip(1).skip(1).skip(1) == inner);
    assert(function_header(items) == (Outcome { result: Ok(written.name), rest: inner }));
    lemma_statements_round_trip(written.body, end);
}

} // verus!
