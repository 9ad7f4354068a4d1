//! The types a program did not say and that are known all the same.

use crate::lsp::document::{known, DocumentState};
use crate::lsp::infer::{expr_type, REACH, Types};
use crate::lsp::position::{offset_to_position, position_of, Position, Range};
use crate::lsp::symbols::{Type, TypeV};
use crate::syntax::ast::{Expr, FieldDecl, FnDecl, Stmt, StmtKind, TypeExpr};
use crate::text::cat2;
use std::rc::Rc;
use vstd::prelude::*;

verus! {

/// A type shown behind a name, at a byte.
pub struct Hint {
    pub at: usize,
    pub label: String,
}

/// The model of a [`Hint`].
pub struct HintV {
    pub at: usize,
    pub label: Seq<char>,
}

impl View for Hint {
    type V = HintV;

    open spec fn view(&self) -> HintV {
        HintV { at: self.at, label: self.label@ }
    }
}

pub open spec fn hints_v(s: Seq<Hint>) -> Seq<HintV> {
    Seq::new(s.len(), |i: int| s[i]@)
}

/// What is shown of a type: nothing of one that is not known.
pub open spec fn hint_text(t: TypeV) -> Option<Seq<char>> {
    match t {
        TypeV::Class(name) => Some(": "@ + name),
        _ => None,
    }
}

/// The hint behind a name whose value is known and whose type was not said.
pub open spec fn hint_for(p: Seq<Stmt>, at: usize, ty: Option<TypeExpr>, value: Option<Expr>) -> Seq<HintV> {
    match (ty, value) {
        (None, Some(e)) => match hint_text(expr_type(p, e, REACH as nat)) {
            Some(label) => seq![HintV { at, label }],
            None => Seq::empty(),
        },
        _ => Seq::empty(),
    }
}

pub open spec fn field_hints(p: Seq<Stmt>, fs: Seq<FieldDecl>, n: int) -> Seq<HintV>
    decreases n,
{
    if 0 < n <= fs.len() {
        field_hints(p, fs, n - 1) + hint_for(p, fs[n - 1].name_span.end, fs[n - 1].ty, fs[n - 1].value)
    } else {
        Seq::empty()
    }
}

pub open spec fn method_hints(p: Seq<Stmt>, ms: Seq<Rc<FnDecl>>, n: int) -> Seq<HintV>
    decreases ms, n,
{
    if 0 < n <= ms.len() {
        method_hints(p, ms, n - 1) + body_hints(p, ms[n - 1])
    } else {
        Seq::empty()
    }
}

pub open spec fn body_hints(p: Seq<Stmt>, d: Rc<FnDecl>) -> Seq<HintV>
    decreases d,
{
    stmt_hints(p, d.body.stmts@, d.body.stmts@.len() as int)
}

/// The hints of the first `n` statements.
pub open spec fn stmt_hints(p: Seq<Stmt>, ss: Seq<Stmt>, n: int) -> Seq<HintV>
    decreases ss, n,
{
    if 0 < n <= ss.len() {
        stmt_hints(p, ss, n - 1) + one_hints(p, ss[n - 1])
    } else {
        Seq::empty()
    }
}

/// The hints of a statement.
pub open spec fn one_hints(p: Seq<Stmt>, s: Stmt) -> Seq<HintV>
    decreases s,
{
    match s.kind {
        StmtKind::Let { name, name_span, ty, value, bind, visibility } => hint_for(p, name_span.end, ty, value),
        StmtKind::Class(d) => field_hints(p, d.fields@, d.fields@.len() as int) + method_hints(
            p,
            d.methods@,
            d.methods@.len() as int,
        ),
        StmtKind::Fn(d) => body_hints(p, d),
        StmtKind::Extend { target, target_span, methods } => method_hints(p, methods@, methods@.len() as int),
        StmtKind::If { cond, consequent, otherwise } => stmt_hints(p, consequent.stmts@, consequent.stmts@.len() as int)
            + match otherwise {
            Some(other) => one_hints(p, *other),
            None => Seq::empty(),
        },
        StmtKind::While { cond, body } => stmt_hints(p, body.stmts@, body.stmts@.len() as int),
        StmtKind::For { var, iter, body } => stmt_hints(p, body.stmts@, body.stmts@.len() as int),
        StmtKind::Try { body, binding, handler } => stmt_hints(p, body.stmts@, body.stmts@.len() as int) + stmt_hints(
            p,
            handler.stmts@,
            handler.stmts@.len() as int,
        ),
        StmtKind::Block(b) => stmt_hints(p, b.stmts@, b.stmts@.len() as int),
        _ => Seq::empty(),
    }
}

fn push_hint(types: &Types, at: usize, ty: &Option<TypeExpr>, value: &Option<Expr>, out: &mut Vec<Hint>)
    ensures
        hints_v(final(out)@) == hints_v(old(out)@) + hint_for(types.program@, at, *ty, *value),
{
    let ghost before = hints_v(out@);
    if ty.is_none() {
        if let Some(e) = value {
            if let Type::Class(name) = types.of_expr(e) {
                out.push(Hint { at, label: cat2(": ", name.as_str()) });
            }
        }
    }
    assert(hints_v(out@) =~= before + hint_for(types.program@, at, *ty, *value));
}

fn push_fields(types: &Types, fs: &Vec<FieldDecl>, out: &mut Vec<Hint>)
    ensures
        hints_v(final(out)@) == hints_v(old(out)@) + field_hints(types.program@, fs@, fs@.len() as int),
{
    let ghost before = hints_v(out@);
    let mut i: usize = 0;
    assert(before + Seq::<HintV>::empty() =~= before);
    while i < fs.len()
        invariant
            i <= fs@.len(),
            before == hints_v(old(out)@),
            hints_v(out@) == before + field_hints(types.program@, fs@, i as int),
        decreases fs@.len() - i,
    {
        push_hint(types, fs[i].name_span.end, &fs[i].ty, &fs[i].value, out);
        i += 1;
        assert(hints_v(out@) =~= before + field_hints(types.program@, fs@, i as int));
    }
}

fn push_methods(types: &Types, ms: &Vec<Rc<FnDecl>>, out: &mut Vec<Hint>)
    ensures
        hints_v(final(out)@) == hints_v(old(out)@) + method_hints(types.program@, ms@, ms@.len() as int),
    decreases ms@,
{
    let ghost before = hints_v(out@);
    let ghost p = types.program@;
    let mut i: usize = 0;
    assert(before + Seq::<HintV>::empty() =~= before);
    while i < ms.len()
        invariant
            i <= ms@.len(),
            p == types.program@,
            before == hints_v(old(out)@),
            hints_v(out@) == before + method_hints(p, ms@, i as int),
        decreases ms@.len() - i,
    {
        push_stmts(types, &ms[i].body.stmts, out);
        i += 1;
        assert(method_hints(p, ms@, i as int) == method_hints(p, ms@, i - 1) + body_hints(p, ms@[i - 1]));
        assert(hints_v(out@) =~= before + method_hints(p, ms@, i as int));
    }
}

fn push_stmts(types: &Types, ss: &Vec<Stmt>, out: &mut Vec<Hint>)
    ensures
        hints_v(final(out)@) == hints_v(old(out)@) + stmt_hints(types.program@, ss@, ss@.len() as int),
    decreases ss@,
{
    let ghost before = hints_v(out@);
    let ghost p = types.program@;
    let mut i: usize = 0;
    assert(before + Seq::<HintV>::empty() =~= before);
    while i < ss.len()
        invariant
            i <= ss@.len(),
            p == types.program@,
            before == hints_v(old(out)@),
            hints_v(out@) == before + stmt_hints(p, ss@, i as int),
        decreases ss@.len() - i,
    {
        push_one(types, &ss[i], out);
        i += 1;
        assert(stmt_hints(p, ss@, i as int) == stmt_hints(p, ss@, i - 1) + one_hints(p, ss@[i - 1]));
        assert(hints_v(out@) =~= before + stmt_hints(p, ss@, i as int));
    }
}

fn push_one(types: &Types, s: &Stmt, out: &mut Vec<Hint>)
    ensures
        hints_v(final(out)@) == hints_v(old(out)@) + one_hints(types.program@, *s),
    decreases s,
{
    let ghost before = hints_v(out@);
    let ghost p = types.program@;
    match &s.kind {
        StmtKind::Let { name, name_span, ty, value, bind, visibility } => push_hint(
            types,
            name_span.end,
            ty,
            value,
            out,
        ),
        StmtKind::Class(d) => {
            push_fields(types, &d.fields, out);
            push_methods(types, &d.methods, out);
            assert(hints_v(out@) =~= before + one_hints(p, *s));
        },
        StmtKind::Fn(d) => {
            push_stmts(types, &d.body.stmts, out);
            assert(hints_v(out@) =~= before + body_hints(p, *d));
        },
        StmtKind::Extend { target, target_span, methods } => push_methods(types, methods, out),
        StmtKind::If { cond, consequent, otherwise } => {
            push_stmts(types, &consequent.stmts, out);
            if let Some(other) = otherwise {
                push_one(types, other, out);
            }
            assert(hints_v(out@) =~= before + one_hints(p, *s));
        },
        StmtKind::While { cond, body } => push_stmts(types, &body.stmts, out),
        StmtKind::For { var, iter, body } => push_stmts(types, &body.stmts, out),
        StmtKind::Try { body, binding, handler } => {
            push_stmts(types, &body.stmts, out);
            push_stmts(types, &handler.stmts, out);
            assert(hints_v(out@) =~= before + one_hints(p, *s));
        },
        StmtKind::Block(b) => push_stmts(types, &b.stmts, out),
        _ => {},
    }
    assert(hints_v(out@) =~= before + one_hints(p, *s));
}

/// A type shown behind a name, at a place.
#[derive(Debug)]
pub struct InlayHint {
    pub position: Position,
    pub label: String,
}

/// The model of an [`InlayHint`].
pub struct InlayHintV {
    pub position: Position,
    pub label: Seq<char>,
}

impl View for InlayHint {
    type V = InlayHintV;

    open spec fn view(&self) -> InlayHintV {
        InlayHintV { position: self.position, label: self.label@ }
    }
}

pub open spec fn inlays_v(s: Seq<InlayHint>) -> Seq<InlayHintV> {
    Seq::new(s.len(), |i: int| s[i]@)
}

/// Those of the first `n` hints that stand on the lines of a range.
pub open spec fn shown_hints(cs: Seq<char>, hints: Seq<HintV>, range: Range, n: int) -> Seq<InlayHintV>
    decreases n,
{
    if 0 < n <= hints.len() {
        let before = shown_hints(cs, hints, range, n - 1);
        let position = position_of(cs, hints[n - 1].at as int);
        if range.start.line <= position.line <= range.end.line {
            before.push(InlayHintV { position, label: hints[n - 1].label })
        } else {
            before
        }
    } else {
        Seq::empty()
    }
}

/// The hints of a document on the lines of a range.
pub open spec fn inlay_hints(state: DocumentState, range: Range) -> Seq<InlayHintV> {
    match (state.ast, known(state.types)) {
        (Some(ast), Some(p)) => {
            let hints = stmt_hints(p, ast@, ast@.len() as int);
            shown_hints(state.text@, hints, range, hints.len() as int)
        },
        _ => Seq::empty(),
    }
}

/// The types that a document did not say, on the lines of a range.
pub fn get_inlay_hints(state: Option<&DocumentState>, range: Range) -> (r: Vec<InlayHint>)
    ensures
        inlays_v(r@) == match state {
            Some(state) => inlay_hints(*state, range),
            None => Seq::empty(),
        },
{
    let mut out: Vec<InlayHint> = Vec::new();
    assert(inlays_v(out@) =~= Seq::empty());
    let state = match state {
        Some(state) => state,
        None => return out,
    };
    let ast = match &state.ast {
        Some(ast) => ast,
        None => return out,
    };
    let types = match &state.types {
        Some(types) => types,
        None => return out,
    };
    let mut hints: Vec<Hint> = Vec::new();
    assert(hints_v(hints@) =~= Seq::empty());
    push_stmts(types, ast, &mut hints);
    let ghost all = stmt_hints(types.program@, ast@, ast@.len() as int);
    assert(hints_v(hints@) =~= all);
    let mut i: usize = 0;
    while i < hints.len()
        invariant
            i <= hints@.len(),
            hints_v(hints@) == all,
            inlays_v(out@) == shown_hints(state.text@, all, range, i as int),
        decreases hints@.len() - i,
    {
        let hint = &hints[i];
        assert(all[i as int] == hint@);
        let position = offset_to_position(state.text.as_str(), hint.at);
        if range.start.line <= position.line && position.line <= range.end.line {
            let ghost before = inlays_v(out@);
            out.push(InlayHint { position, label: hint.label.as_str().to_owned() });
            assert(inlays_v(out@) =~= before.push(InlayHintV { position, label: hint.label@ }));
        }
        i += 1;
    }
    assert(all.len() == hints@.len());
    out
}

/// A binding whose type was written is given no hint.
pub proof fn law_what_was_said_is_not_hinted(p: Seq<Stmt>, at: usize, ty: TypeExpr, value: Option<Expr>)
    ensures
        hint_for(p, at, Some(ty), value) == Seq::<HintV>::empty(),
{
}

} // verus!
