//! The outline of a document as a tree: its declarations, and the members of its classes.

use crate::lsp::document::DocumentState;
use crate::lsp::position::{range_of, span_to_range, Range};
use crate::syntax::ast::{ClassDecl, FieldDecl, FnDecl, Stmt, StmtKind};
use std::rc::Rc;
use vstd::prelude::*;

verus! {

/// What kind of thing an outline shows.
#[derive(Clone, Copy, Debug, PartialEq, Eq, Structural)]
pub enum NodeKind {
    Function,
    Class,
    Method,
    Field,
    Variable,
}

/// A member of a class in an outline.
#[derive(Debug)]
pub struct Leaf {
    pub name: String,
    pub kind: NodeKind,
    pub range: Range,
}

/// The model of a [`Leaf`].
pub struct LeafV {
    pub name: Seq<char>,
    pub kind: NodeKind,
    pub range: Range,
}

impl View for Leaf {
    type V = LeafV;

    open spec fn view(&self) -> LeafV {
        LeafV { name: self.name@, kind: self.kind, range: self.range }
    }
}

pub open spec fn leaves_v(s: Seq<Leaf>) -> Seq<LeafV> {
    Seq::new(s.len(), |i: int| s[i]@)
}

/// A declaration in an outline, with the members of a class below it.
#[derive(Debug)]
pub struct DocumentSymbol {
    pub name: String,
    pub kind: NodeKind,
    pub range: Range,
    pub children: Vec<Leaf>,
}

/// The model of a [`DocumentSymbol`].
pub struct DocumentSymbolV {
    pub name: Seq<char>,
    pub kind: NodeKind,
    pub range: Range,
    pub children: Seq<LeafV>,
}

impl View for DocumentSymbol {
    type V = DocumentSymbolV;

    open spec fn view(&self) -> DocumentSymbolV {
        DocumentSymbolV {
            name: self.name@,
            kind: self.kind,
            range: self.range,
            children: leaves_v(self.children@),
        }
    }
}

pub open spec fn nodes_v(s: Seq<DocumentSymbol>) -> Seq<DocumentSymbolV> {
    Seq::new(s.len(), |i: int| s[i]@)
}

/// A field in an outline.
pub open spec fn field_leaf(cs: Seq<char>, f: FieldDecl) -> LeafV {
    LeafV { name: f.name@, kind: NodeKind::Field, range: range_of(cs, f.name_span) }
}

/// A method in an outline.
pub open spec fn method_leaf(cs: Seq<char>, m: Rc<FnDecl>) -> LeafV {
    LeafV { name: m.name@, kind: NodeKind::Method, range: range_of(cs, m.body.span) }
}

/// The members of a class: its fields, then its methods.
pub open spec fn class_leaves(cs: Seq<char>, d: Rc<ClassDecl>) -> Seq<LeafV> {
    Seq::new(d.fields@.len(), |i: int| field_leaf(cs, d.fields@[i])) + Seq::new(
        d.methods@.len(),
        |i: int| method_leaf(cs, d.methods@[i]),
    )
}

/// What a statement shows in an outline.
pub open spec fn node(cs: Seq<char>, s: Stmt) -> Option<DocumentSymbolV> {
    let range = range_of(cs, s.span);
    match s.kind {
        StmtKind::Fn(d) => Some(
            DocumentSymbolV { name: d.name@, kind: NodeKind::Function, range, children: Seq::empty() },
        ),
        StmtKind::Class(d) => Some(
            DocumentSymbolV { name: d.name@, kind: NodeKind::Class, range, children: class_leaves(cs, d) },
        ),
        StmtKind::Let { name, .. } => Some(
            DocumentSymbolV { name: name@, kind: NodeKind::Variable, range, children: Seq::empty() },
        ),
        _ => None,
    }
}

/// What the first `n` statements show in an outline.
pub open spec fn nodes(cs: Seq<char>, ss: Seq<Stmt>, n: int) -> Seq<DocumentSymbolV>
    decreases n,
{
    if 0 < n <= ss.len() {
        match node(cs, ss[n - 1]) {
            Some(one) => nodes(cs, ss, n - 1).push(one),
            None => nodes(cs, ss, n - 1),
        }
    } else {
        Seq::empty()
    }
}

/// The outline of a document as a tree.
pub open spec fn tree(state: DocumentState) -> Seq<DocumentSymbolV> {
    match state.ast {
        Some(ast) => nodes(state.text@, ast@, ast@.len() as int),
        None => Seq::empty(),
    }
}

fn leaves_of(source: &str, d: &Rc<ClassDecl>) -> (r: Vec<Leaf>)
    ensures
        leaves_v(r@) == class_leaves(source@, *d),
{
    let mut out: Vec<Leaf> = Vec::new();
    let ghost goal = class_leaves(source@, *d);
    let n: usize = d.fields.len();
    let mut i: usize = 0;
    while i < n
        invariant
            i <= n,
            n == d.fields@.len(),
            goal == class_leaves(source@, *d),
            leaves_v(out@) =~= goal.take(i as int),
        decreases n - i,
    {
        let ghost before = leaves_v(out@);
        let f = &d.fields[i];
        out.push(
            Leaf {
                name: f.name.as_str().to_owned(),
                kind: NodeKind::Field,
                range: span_to_range(source, f.name_span),
            },
        );
        assert(leaves_v(out@) =~= before.push(goal[i as int]));
        i += 1;
    }
    let mut k: usize = 0;
    while k < d.methods.len()
        invariant
            k <= d.methods@.len(),
            n == d.fields@.len(),
            goal == class_leaves(source@, *d),
            leaves_v(out@) =~= goal.take(n + k),
        decreases d.methods@.len() - k,
    {
        let ghost before = leaves_v(out@);
        let m = &d.methods[k];
        out.push(
            Leaf {
                name: m.name.as_str().to_owned(),
                kind: NodeKind::Method,
                range: span_to_range(source, m.body.span),
            },
        );
        assert(leaves_v(out@) =~= before.push(goal[n + k]));
        k += 1;
    }
    assert(leaves_v(out@) =~= goal);
    out
}

fn node_of(source: &str, s: &Stmt) -> (r: Option<DocumentSymbol>)
    ensures
        (match r { Some(r) => Some(r@), None => None }) == node(source@, *s),
{
    let range = span_to_range(source, s.span);
    let none: Vec<Leaf> = Vec::new();
    assert(leaves_v(none@) =~= Seq::empty());
    match &s.kind {
        StmtKind::Fn(d) => Some(
            DocumentSymbol { name: d.name.as_str().to_owned(), kind: NodeKind::Function, range, children: none },
        ),
        StmtKind::Class(d) => Some(
            DocumentSymbol {
                name: d.name.as_str().to_owned(),
                kind: NodeKind::Class,
                range,
                children: leaves_of(source, d),
            },
        ),
        StmtKind::Let { name, .. } => Some(
            DocumentSymbol { name: name.as_str().to_owned(), kind: NodeKind::Variable, range, children: none },
        ),
        _ => None,
    }
}

/// The outline of a document as a tree.
pub fn get_hierarchical_document_symbols(state: Option<&DocumentState>) -> (r: Vec<DocumentSymbol>)
    ensures
        nodes_v(r@) == match state {
            Some(state) => tree(*state),
            None => Seq::empty(),
        },
{
    let mut out: Vec<DocumentSymbol> = Vec::new();
    assert(nodes_v(out@) =~= Seq::empty());
    let state = match state {
        Some(state) => state,
        None => return out,
    };
    let ast = match &state.ast {
        Some(ast) => ast,
        None => return out,
    };
    let mut i: usize = 0;
    while i < ast.len()
        invariant
            i <= ast@.len(),
            nodes_v(out@) == nodes(state.text@, ast@, i as int),
        decreases ast@.len() - i,
    {
        let ghost before = nodes_v(out@);
        if let Some(one) = node_of(state.text.as_str(), &ast[i]) {
            out.push(one);
            assert(nodes_v(out@) =~= before.push(one@));
        }
        i += 1;
    }
    out
}

} // verus!
