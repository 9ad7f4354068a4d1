//! How often each declaration of a document is used.

use crate::lsp::document::DocumentState;
use crate::lsp::navigate::{
    all_references, get_references, locations_v, name_range, name_range_in, Document, Location,
    LocationV,
};
use crate::lsp::position::{range_of, span_to_range, Range};
use crate::syntax::ast::{Stmt, StmtKind};
use crate::text::{cat2, chars_of, digits, digits_of, same};
use vstd::prelude::*;

verus! {

/// A line above a declaration that says how often it is used.
#[derive(Debug)]
pub struct CodeLens {
    pub range: Range,
    pub title: String,
}

/// The model of a [`CodeLens`].
pub struct CodeLensV {
    pub range: Range,
    pub title: Seq<char>,
}

impl View for CodeLens {
    type V = CodeLensV;

    open spec fn view(&self) -> CodeLensV {
        CodeLensV { range: self.range, title: self.title@ }
    }
}

pub open spec fn lenses_v(s: Seq<CodeLens>) -> Seq<CodeLensV> {
    Seq::new(s.len(), |i: int| s[i]@)
}

/// The name a statement declares a function or a class under.
pub open spec fn counted_name(s: Stmt) -> Option<Seq<char>> {
    match s.kind {
        StmtKind::Fn(decl) => Some(decl.name@),
        StmtKind::Class(decl) => Some(decl.name@),
        _ => None,
    }
}

/// How many of the first `n` places are not this one of this document.
pub open spec fn others(refs: Seq<LocationV>, uri: Seq<char>, own: Range, n: int) -> nat
    decreases n,
{
    if 0 < n <= refs.len() {
        others(refs, uri, own, n - 1) + if refs[n - 1] != (LocationV { uri, range: own }) {
            1nat
        } else {
            0
        }
    } else {
        0
    }
}

/// What a lens says of a number of uses.
pub open spec fn title(n: nat) -> Seq<char> {
    if n == 1 {
        "1 reference"@
    } else {
        digits(n) + " references"@
    }
}

/// Where a declaration's name stands; the whole statement where it stands nowhere in it.
pub open spec fn name_place(cs: Seq<char>, s: Stmt, name: Seq<char>) -> Range {
    match name_range(cs, s.span, name) {
        Some(range) => range,
        None => range_of(cs, s.span),
    }
}

/// The lens of one declaration.
pub open spec fn lens(uri: Seq<char>, state: DocumentState, docs: Seq<Document>, s: Stmt, name: Seq<char>) -> CodeLensV {
    let range = name_place(state.text@, s, name);
    let refs = all_references(uri, state, docs, range.start);
    CodeLensV { range, title: title(others(refs, uri, range, refs.len() as int)) }
}

/// The lenses of the first `n` statements.
pub open spec fn lenses(uri: Seq<char>, state: DocumentState, docs: Seq<Document>, ss: Seq<Stmt>, n: int) -> Seq<CodeLensV>
    decreases n,
{
    if 0 < n <= ss.len() {
        match counted_name(ss[n - 1]) {
            Some(name) => lenses(uri, state, docs, ss, n - 1).push(lens(uri, state, docs, ss[n - 1], name)),
            None => lenses(uri, state, docs, ss, n - 1),
        }
    } else {
        Seq::empty()
    }
}

/// The lenses of a document.
pub open spec fn all_lenses(uri: Seq<char>, state: DocumentState, docs: Seq<Document>) -> Seq<CodeLensV> {
    match state.ast {
        Some(ast) => lenses(uri, state, docs, ast@, ast@.len() as int),
        None => Seq::empty(),
    }
}

fn others_of(refs: &Vec<Location>, uri: &str, own: Range) -> (r: usize)
    ensures
        r == others(locations_v(refs@), uri@, own, refs@.len() as int),
{
    let ghost all = locations_v(refs@);
    let mut n: usize = 0;
    let mut i: usize = 0;
    while i < refs.len()
        invariant
            i <= refs@.len(),
            n <= i,
            all == locations_v(refs@),
            n == others(all, uri@, own, i as int),
        decreases refs@.len() - i,
    {
        assert(all[i as int] == refs@[i as int]@);
        if !same(refs[i].uri.as_str(), uri) || refs[i].range != own {
            n += 1;
        }
        i += 1;
    }
    n
}

fn lens_of(uri: &str, state: &DocumentState, documents: &Vec<Document>, s: &Stmt, name: &str) -> (r: CodeLens)
    ensures
        r@ == lens(uri@, *state, documents@, *s, name@),
{
    let cs = chars_of(state.text.as_str());
    let range = match name_range_in(&cs, s.span, name) {
        Some(range) => range,
        None => span_to_range(state.text.as_str(), s.span),
    };
    let refs = get_references(uri, Some(state), documents, range.start);
    assert(locations_v(refs@).len() == refs@.len());
    let n = others_of(&refs, uri, range);
    let title = if n == 1 {
        "1 reference".to_owned()
    } else {
        cat2(digits_of(n as u64).as_str(), " references")
    };
    CodeLens { range, title }
}

/// For each function and class a document declares, how often it is used in all documents.
pub fn get_code_lenses(uri: &str, state: Option<&DocumentState>, documents: &Vec<Document>) -> (r: Vec<CodeLens>)
    ensures
        lenses_v(r@) == match state {
            Some(state) => all_lenses(uri@, *state, documents@),
            None => Seq::empty(),
        },
{
    let mut out: Vec<CodeLens> = Vec::new();
    assert(lenses_v(out@) =~= Seq::empty());
    let state = match state {
        Some(state) => state,
        None => return out,
    };
    let ast = match &state.ast {
        Some(ast) => ast,
        None => return out,
    };
    let mut i: usize = 0;
    while i < ast.len()
        invariant
            i <= ast@.len(),
            lenses_v(out@) == lenses(uri@, *state, documents@, ast@, i as int),
        decreases ast@.len() - i,
    {
        let ghost before = lenses_v(out@);
        let stmt = &ast[i];
        match &stmt.kind {
            StmtKind::Fn(decl) => {
                out.push(lens_of(uri, state, documents, stmt, decl.name.as_str()));
                assert(lenses_v(out@) =~= before.push(lens(uri@, *state, documents@, *stmt, decl.name@)));
            },
            StmtKind::Class(decl) => {
                out.push(lens_of(uri, state, documents, stmt, decl.name.as_str()));
                assert(lenses_v(out@) =~= before.push(lens(uri@, *state, documents@, *stmt, decl.name@)));
            },
            _ => {},
        }
        i += 1;
    }
    out
}

} // verus!
