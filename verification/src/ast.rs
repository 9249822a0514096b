//! The syntax tree that the parser builds.
//!
//! The tree is a pure tree: a [`Program`] owns its [`Function`], which owns its
//! [`Statement`]s, which own their [`Expr`]s. Only well-formed programs of the
//! supported grammar can be written down in these types.

use vstd::prelude::*;

verus! {

/// An expression: an integer literal.
#[derive(Debug, PartialEq, Eq, Structural)]
pub enum Expr {
    Number(i32),
}

/// A statement: `return` with the expression it returns.
#[derive(Debug, PartialEq, Eq, Structural)]
pub enum Statement {
    Return(Expr),
}

/// A function definition: its name and its statements in execution order.
#[derive(Debug, PartialEq)]
pub struct Function {
    pub name: String,
    pub body: Vec<Statement>,
}

/// The mathematical value of a [`Function`].
pub struct FunctionView {
    pub name: Seq<char>,
    pub body: Seq<Statement>,
}

impl View for Function {
    type V = FunctionView;

    open spec fn view(&self) -> FunctionView {
        FunctionView { name: self.name@, body: self.body@ }
    }
}

/// A program: exactly one function.
#[derive(Debug, PartialEq)]
pub enum Program {
    Function(Function),
}

/// The mathematical value of a [`Program`].
pub enum ProgramView {
    Function(FunctionView),
}

impl View for Program {
    type V = ProgramView;

    open spec fn view(&self) -> ProgramView {
        match self {
            Program::Function(function) => ProgramView::Function(function@),
        }
    }
}

} // verus!
