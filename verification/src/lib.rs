//! A single-pass compiler for a small BASIC-like language, translating it to
//! C source text.  The pipeline has three stages that run interleaved: a lexer
//! that classifies characters into tokens, a recursive-descent parser that
//! checks the token stream against the grammar and tracks symbol and label
//! tables, and an emitter that accumulates the translated output.

use vstd::prelude::*;

pub mod emitter;
pub mod error;
pub mod lexer;
pub mod parser;
pub mod token;

use crate::emitter::Emitter;
use crate::error::CompileError;
use crate::lexer::{scan, LexStep, Lexer};
use crate::parser::{
    continues_expression, epilogue_text, first_past_newlines, is_cmp_op, lemma_prefix_concat,
    lemma_prefix_trans, lemma_suffix_extend, prologue_text, Parser,
};
use crate::token::TokenType;

verus! {

/// Compiles one whole source program and returns the generated target text,
/// or the first failure met.  The output always opens with the program
/// prologue and closes with the epilogue; between them stand the
/// declarations and the translated statements.  On a program of nothing but
/// blank lines before the end of input, success is owed and the output is
/// exactly the prologue and the epilogue.
pub fn compile(source: Vec<char>) -> (r: Result<String, CompileError>)
    ensures
        (match r {
            Ok(out) => prologue_text().is_prefix_of(out@) && epilogue_text().is_suffix_of(out@),
            Err(_) => true,
        }),
        (match scan(source@ + seq!['\n'], 0) {
            LexStep::Fail { .. } => true,
            LexStep::Tok { text: t1, ttype: y1, next: n1 } => (match scan(
                source@ + seq!['\n'],
                n1,
            ) {
                LexStep::Fail { .. } => true,
                LexStep::Tok { text: t2, ttype: y2, next: n2 } => {
                    &&& (first_past_newlines(source@ + seq!['\n'], y1, y2, n2)
                        == Ok::<TokenType, CompileError>(TokenType::EOF) ==> (r matches Ok(out)
                        && out@ == prologue_text() + epilogue_text()))
                    &&& (((y1 == TokenType::PRINT || y1 == TokenType::IF || y1 == TokenType::WHILE)
                        && y2 == TokenType::IDENT) ==> (match scan(source@ + seq!['\n'], n2) {
                        LexStep::Fail { err } => r == Result::<String, CompileError>::Err(err),
                        LexStep::Tok { .. } => r == Result::<String, CompileError>::Err(
                            CompileError::UndeclaredVariable,
                        ),
                    }))
                    &&& (((y1 == TokenType::IF || y1 == TokenType::WHILE) && y2
                        == TokenType::NUMBER) ==> (match scan(source@ + seq!['\n'], n2) {
                        LexStep::Fail { err } => r == Result::<String, CompileError>::Err(err),
                        LexStep::Tok { text: x3, ttype: y3, next: n3 } => (!continues_expression(
                            y3,
                        ) && !is_cmp_op(y3)) ==> (match scan(source@ + seq!['\n'], n3) {
                            LexStep::Fail { err } => r == Result::<String, CompileError>::Err(err),
                            LexStep::Tok { .. } => r == Result::<String, CompileError>::Err(
                                CompileError::MissingComparisonOperator,
                            ),
                        }),
                    }))
                },
            }),
        }),
{
    let lexer = Lexer::new(source);
    let emitter = Emitter::new();
    let mut parser = match Parser::new(lexer, emitter) {
        Ok(p) => p,
        Err(e) => return Err(e),
    };
    proof {
        assert(forall|l: Seq<char>| !parser.used().contains(l));
        assert(forall|l: Seq<char>| !parser.syms().contains(l));
        assert(Seq::<char>::empty() + epilogue_text() =~= epilogue_text());
    }
    match parser.program() {
        Err(e) => return Err(e),
        Ok(_) => {},
    }
    let out = parser.output();
    proof {
        assert(Seq::<char>::empty() + prologue_text() =~= prologue_text());
        lemma_prefix_concat(parser.header_text(), parser.body_text());
        lemma_prefix_trans(
            prologue_text(),
            parser.header_text(),
            parser.header_text() + parser.body_text(),
        );
        lemma_suffix_extend(epilogue_text(), parser.header_text(), parser.body_text());
    }
    Ok(out)
}

} // verus!
