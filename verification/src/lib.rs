//! Quince: a dynamically typed scripting language.
//!
//! The pipeline runs left to right: `syntax` turns a source text into tokens and
//! then into a tree, `runtime` is the object model, and `interp` is the tree-walking
//! evaluator over it. Every stage is stated twice, as an executable function and as
//! a mathematical one, and the two are proved to agree.

use crate::error::{errs_v, ErrV, QuinceError};
use crate::syntax::ast::{stmts_v, Stmt, StmtV};
use crate::syntax::lexer::{tokens_of, Lexer};
use crate::syntax::parser::{law_reading_on_agrees_with_reading, program_of, recovered_of, Parser};
use crate::syntax::resolve::{refuse, refused, resolve, resolved};
use crate::syntax::token::{tokens_view, Token, TokenV};
use vstd::prelude::*;

pub mod big;
pub mod error;
pub mod float;
pub mod interp;
pub mod lsp;
pub mod runtime;
pub mod syntax;
pub mod text;

verus! {

/// What is left of a program once what is refused of it is found.
pub open spec fn compiled_tokens(tokens: Seq<TokenV>) -> Result<Seq<StmtV>, ErrV> {
    match program_of(tokens) {
        Err(e) => Err(e),
        Ok(program) => resolved(program),
    }
}

/// The program a source text writes, or the first error in it: in a token, in a statement,
/// or in what a statement does to a name.
pub open spec fn compiled(source: Seq<char>) -> Result<Seq<StmtV>, ErrV> {
    match tokens_of(source) {
        Err(e) => Err(e),
        Ok(tokens) => compiled_tokens(tokens),
    }
}

/// What can be read of a source text, and every error in it. A text with an error in a token
/// is not read at all.
pub open spec fn recovered(source: Seq<char>) -> (Seq<StmtV>, Seq<ErrV>) {
    match tokens_of(source) {
        Err(e) => (Seq::empty(), seq![e]),
        Ok(tokens) => {
            let (program, errors) = recovered_of(tokens);
            (program, errors + refused(program))
        },
    }
}

/// Lexes and parses a whole source file, and refuses what no run of it could do.
pub fn compile(source: &str) -> (r: Result<Vec<Stmt>, QuinceError>)
    ensures
        match r {
            Ok(program) => compiled(source@) == Ok::<Seq<StmtV>, ErrV>(stmts_v(program@)),
            Err(e) => compiled(source@) == Err::<Seq<StmtV>, ErrV>(e@),
        },
{
    let tokens = Lexer::new(source).tokenize()?;
    compile_tokens(tokens)
}

/// Everything after lexing.
///
/// Split out so that a token stream can be looked at without reproducing the rest
/// of the pipeline.
pub fn compile_tokens(tokens: Vec<Token>) -> (r: Result<Vec<Stmt>, QuinceError>)
    ensures
        match r {
            Ok(program) => compiled_tokens(tokens_view(tokens@)) == Ok::<Seq<StmtV>, ErrV>(
                stmts_v(program@),
            ),
            Err(e) => compiled_tokens(tokens_view(tokens@)) == Err::<Seq<StmtV>, ErrV>(e@),
        },
{
    match Parser::new(tokens).parse() {
        Ok(program) => resolve(program),
        Err(e) => Err(e),
    }
}

/// Reads a source text on past its errors, for an editor: the statements that can be read,
/// and every error.
pub fn compile_recovering(source: &str) -> (r: (Vec<Stmt>, Vec<QuinceError>))
    ensures
        (stmts_v(r.0@), errs_v(r.1@)) == recovered(source@),
{
    match Lexer::new(source).tokenize() {
        Err(e) => {
            let errors = vec![e];
            let program: Vec<Stmt> = Vec::new();
            assert(errs_v(errors@) =~= seq![e@]);
            assert(stmts_v(program@) =~= Seq::empty());
            (program, errors)
        },
        Ok(tokens) => {
            let (program, mut errors) = Parser::new(tokens).parse_recovering();
            let ghost before = errs_v(errors@);
            let mut more = refuse(&program);
            let ghost added = errs_v(more@);
            errors.append(&mut more);
            assert(errs_v(errors@) =~= before + added);
            (program, errors)
        },
    }
}

/// Reading on past errors finds errors just where there are some, the first one first, and
/// the whole program where there is none.
pub proof fn law_reading_on_agrees_with_compiling(source: Seq<char>)
    ensures
        match compiled(source) {
            Ok(program) => recovered(source) == (program, Seq::<ErrV>::empty()),
            Err(e) => recovered(source).1.len() > 0 && recovered(source).1[0] == e,
        },
{
    if let Ok(tokens) = tokens_of(source) {
        law_reading_on_agrees_with_reading(tokens);
        let (program, errors) = recovered_of(tokens);
        assert(errors.len() == 0 ==> errors + refused(program) =~= refused(program));
        assert(refused(program).len() == 0 ==> refused(program) =~= Seq::empty());
    }
}

} // verus!
