//! What is refused of a program that can be read, before any of it runs, and what is certain
//! to fail once it is reached.
//!
//! A name that a block, a function or a handler declares is known where it is written,
//! so a second assignment to one declared `final` or `const` is refused here, and so is
//! one to `self`. What is declared at the top level is known only as the program runs.

use crate::error::{err, errs_v, ErrV, ErrorKind, QuinceError};
use crate::syntax::ast::{
    block_v, call_args_v, class_decl_v, expr_v, exprs_v, field_decls_v, fn_decl_v, fn_decls_v,
    pairs_v, params_v, stmt_v, stmts_v, type_expr_v, Bind, Block, CallArgV, ClassDecl, ClassDeclV,
    Expr, ExprKind, ExprKindV, ExprV, FieldDeclV, FnDecl, FnDeclV, Op, PairV, ParamV, Stmt,
    StmtKind, StmtKindV, StmtV, TypeExpr, TypeExprV, TypeName, TypeNameV,
};
use crate::runtime::types::{an, with_article, written};
use crate::syntax::token::Span;
use crate::text::{cat3, cat5, cat6, same};
use std::rc::Rc;
use vstd::prelude::*;

verus! {

// -- what is refused -----------------------------------------------------------------------

/// A name that a scope declares, and how.
pub struct LocalV {
    pub name: Seq<char>,
    pub bind: Bind,
}

/// What a reader of a program notes of it.
pub enum NoteV {
    /// Something that is refused.
    Refused(ErrV),
    /// Something that is certain to fail once it is reached.
    Mistaken(ErrV),
    /// A mention of `super.init`.
    Init,
}

/// How the innermost of the first `n` locals of a name is declared.
pub open spec fn bound_as(ls: Seq<LocalV>, name: Seq<char>, n: int) -> Option<Bind>
    decreases n,
{
    if 0 < n <= ls.len() {
        if ls[n - 1].name == name {
            Some(ls[n - 1].bind)
        } else {
            bound_as(ls, name, n - 1)
        }
    } else {
        None
    }
}

/// What is noted of an assignment to a name.
pub open spec fn assigned(target: ExprV, ls: Seq<LocalV>) -> Seq<NoteV> {
    match target.kind {
        ExprKindV::Var(name) => match bound_as(ls, name, ls.len() as int) {
            Some(bind) => if bind.is_mutable() {
                Seq::empty()
            } else {
                seq![
                    NoteV::Refused(
                        err(
                            ErrorKind::Declaration,
                            "cannot reassign `"@ + name + "`"@,
                            target.span,
                        ),
                    ),
                ]
            },
            None => Seq::empty(),
        },
        _ => Seq::empty(),
    }
}

pub open spec fn exprs_notes(es: Seq<ExprV>, ls: Seq<LocalV>, n: int) -> Seq<NoteV>
    decreases es, n,
{
    if 0 < n <= es.len() {
        exprs_notes(es, ls, n - 1) + expr_notes(es[n - 1], ls)
    } else {
        Seq::empty()
    }
}

pub open spec fn pairs_notes(ps: Seq<PairV>, ls: Seq<LocalV>, n: int) -> Seq<NoteV>
    decreases ps, n,
{
    if 0 < n <= ps.len() {
        pairs_notes(ps, ls, n - 1) + expr_notes(ps[n - 1].key, ls) + expr_notes(ps[n - 1].value, ls)
    } else {
        Seq::empty()
    }
}

pub open spec fn args_notes(args: Seq<CallArgV>, ls: Seq<LocalV>, n: int) -> Seq<NoteV>
    decreases args, n,
{
    if 0 < n <= args.len() {
        args_notes(args, ls, n - 1) + expr_notes(args[n - 1].value, ls)
    } else {
        Seq::empty()
    }
}

/// What is noted of an expression among the names that are known there.
pub open spec fn expr_notes(e: ExprV, ls: Seq<LocalV>) -> Seq<NoteV>
    decreases e, 0int,
{
    match e.kind {
        ExprKindV::List(items) => exprs_notes(items, ls, items.len() as int),
        ExprKindV::Dict(pairs) => pairs_notes(pairs, ls, pairs.len() as int),
        ExprKindV::Unary { op, rhs } => expr_notes(*rhs, ls),
        ExprKindV::Binary { op, lhs, rhs } => expr_notes(*lhs, ls) + expr_notes(*rhs, ls),
        ExprKindV::Logical { op, lhs, rhs } => expr_notes(*lhs, ls) + expr_notes(*rhs, ls),
        ExprKindV::Call { callee, args } => expr_notes(*callee, ls) + args_notes(
            args,
            ls,
            args.len() as int,
        ),
        ExprKindV::Index { target, index } => expr_notes(*target, ls) + expr_notes(*index, ls),
        ExprKindV::TypeArgs { target, args } => expr_notes(*target, ls),
        ExprKindV::Slice { target, start, end } => expr_notes(*target, ls) + (match start {
            Some(start) => expr_notes(*start, ls),
            None => Seq::empty(),
        }) + (match end {
            Some(end) => expr_notes(*end, ls),
            None => Seq::empty(),
        }),
        ExprKindV::Field { target, name } => expr_notes(*target, ls),
        ExprKindV::Super { name } => if name == "init"@ {
            seq![NoteV::Init]
        } else {
            Seq::empty()
        },
        ExprKindV::Assign { target, value } => assigned(*target, ls) + expr_notes(*target, ls)
            + expr_notes(*value, ls),
        ExprKindV::AssignOp { op, target, value } => assigned(*target, ls) + expr_notes(*target, ls)
            + expr_notes(*value, ls),
        ExprKindV::Is { value, ty } => expr_notes(*value, ls),
        _ => Seq::empty(),
    }
}

/// The type that a value has whatever runs before it, where its text shows one.
pub open spec fn certain(e: ExprV) -> Option<Seq<char>>
    decreases e,
{
    match e.kind {
        ExprKindV::Int(_) => Some("int"@),
        ExprKindV::Float(_) => Some("float"@),
        ExprKindV::Str(_) => Some("string"@),
        ExprKindV::Bool(_) => Some("bool"@),
        ExprKindV::Nil => Some("nil"@),
        ExprKindV::List(_) => Some("list"@),
        ExprKindV::Dict(_) => Some("dict"@),
        _ => None,
    }
}

/// Whether a type certainly refuses a value of a kind. An int is taken for a float.
pub open spec fn refuses(ty: TypeExprV, kind: Seq<char>) -> bool {
    match ty.name {
        TypeNameV::Named(name) => !ty.nullable && holds_a_value(name) && name != kind && !(name
            == "float"@ && kind == "int"@),
        _ => false,
    }
}

/// The report of a value that its type certainly refuses.
pub open spec fn mistake(name: Seq<char>, ty: TypeExprV, kind: Seq<char>, span: Span) -> ErrV {
    ErrV {
        help: if kind == "nil"@ {
            Some("write `"@ + written(ty) + "?` if it may be absent"@)
        } else {
            None
        },
        ..err(
            ErrorKind::Type,
            "`"@ + name + "` is `"@ + written(ty) + "`, but this is "@ + an(kind),
            span,
        )
    }
}

/// What is noted of a value that is bound to a name with a type.
pub open spec fn bound_notes(name: Seq<char>, ty: Option<TypeExprV>, value: Option<ExprV>) -> Seq<NoteV> {
    match (ty, value) {
        (Some(ty), Some(e)) => match certain(e) {
            Some(kind) => if refuses(ty, kind) {
                seq![NoteV::Mistaken(mistake(name, ty, kind, e.span))]
            } else {
                Seq::empty()
            },
            None => Seq::empty(),
        },
        _ => Seq::empty(),
    }
}

pub open spec fn opt_notes(e: Option<ExprV>, ls: Seq<LocalV>) -> Seq<NoteV>
    decreases e,
{
    match e {
        Some(e) => expr_notes(e, ls),
        None => Seq::empty(),
    }
}

/// Names with the first `n` parameters of a function.
pub open spec fn with_params(ls: Seq<LocalV>, ps: Seq<ParamV>, n: int) -> Seq<LocalV>
    decreases n,
{
    if 0 < n <= ps.len() {
        with_params(ls, ps, n - 1).push(LocalV { name: ps[n - 1].name, bind: ps[n - 1].bind })
    } else {
        ls
    }
}

/// What is noted of the defaults of the first `n` parameters. Each knows those before it.
pub open spec fn params_notes(ps: Seq<ParamV>, ls: Seq<LocalV>, n: int) -> Seq<NoteV>
    decreases n,
{
    if 0 < n <= ps.len() {
        params_notes(ps, ls, n - 1) + opt_notes(ps[n - 1].default, with_params(ls, ps, n - 1))
            + bound_notes(ps[n - 1].name, ps[n - 1].ty, ps[n - 1].default)
    } else {
        Seq::empty()
    }
}

/// What is noted of a function's parameters and its body.
pub open spec fn fn_notes(d: FnDeclV, ls: Seq<LocalV>) -> Seq<NoteV>
    decreases d, 0int,
{
    params_notes(d.params, ls, d.params.len() as int) + stmts_notes(
        d.body.stmts,
        with_params(ls, d.params, d.params.len() as int),
        false,
        d.body.stmts.len() as int,
    )
}

pub open spec fn methods_notes(ms: Seq<FnDeclV>, ls: Seq<LocalV>, n: int) -> Seq<NoteV>
    decreases ms, n,
{
    if 0 < n <= ms.len() {
        methods_notes(ms, ls, n - 1) + fn_notes(ms[n - 1], ls)
    } else {
        Seq::empty()
    }
}

pub open spec fn fields_notes(fs: Seq<FieldDeclV>, ls: Seq<LocalV>, n: int) -> Seq<NoteV>
    decreases n,
{
    if 0 < n <= fs.len() {
        fields_notes(fs, ls, n - 1) + opt_notes(fs[n - 1].value, ls) + bound_notes(
            fs[n - 1].name,
            fs[n - 1].ty,
            fs[n - 1].value,
        )
    } else {
        Seq::empty()
    }
}

/// Whether a type holds a value of its own, which a class that extends it is given by
/// `super.init`.
pub open spec fn holds_a_value(name: Seq<char>) -> bool {
    name == "bool"@ || name == "int"@ || name == "float"@ || name == "string"@ || name == "list"@
        || name == "dict"@
}

/// The refusal of a constructor that never gives an instance the value its type holds.
pub open spec fn never_given(m: FnDeclV, class: Seq<char>, parent: Seq<char>) -> ErrV {
    err(
        ErrorKind::Declaration,
        "`op init` never calls `super.init`, and `"@ + class + "` extends `"@ + parent + "`"@,
        m.name_span,
    )
}

/// The refusals of those of the first `n` methods that are constructors of a class that
/// extends a type with a value, and never call `super.init`.
pub open spec fn inits_notes(ms: Seq<FnDeclV>, ls: Seq<LocalV>, class: Seq<char>, parent: Seq<char>, n: int) -> Seq<
    NoteV,
>
    decreases ms, n,
{
    if 0 < n <= ms.len() {
        let before = inits_notes(ms, ls, class, parent, n - 1);
        if ms[n - 1].op == Some(Op::Init) && !fn_notes(ms[n - 1], ls).contains(NoteV::Init) {
            before.push(NoteV::Refused(never_given(ms[n - 1], class, parent)))
        } else {
            before
        }
    } else {
        Seq::empty()
    }
}

/// What is noted of a class.
pub open spec fn class_notes(d: ClassDeclV, ls: Seq<LocalV>) -> Seq<NoteV>
    decreases d, 0int,
{
    fields_notes(d.fields, ls, d.fields.len() as int) + methods_notes(
        d.methods,
        ls,
        d.methods.len() as int,
    ) + match d.parent {
        Some(parent) => if holds_a_value(parent) {
            inits_notes(d.methods, ls, d.name, parent, d.methods.len() as int)
        } else {
            Seq::empty()
        },
        None => Seq::empty(),
    }
}

/// What is noted of a block, which knows the names around it.
pub open spec fn block_notes(ss: Seq<StmtV>, ls: Seq<LocalV>) -> Seq<NoteV>
    decreases ss, ss.len() + 1,
{
    stmts_notes(ss, ls, false, ss.len() as int)
}

/// What is noted of a statement.
pub open spec fn stmt_notes(s: StmtV, ls: Seq<LocalV>) -> Seq<NoteV>
    decreases s, 0int,
{
    match s.kind {
        StmtKindV::Expr(e) => expr_notes(e, ls),
        StmtKindV::Let { name, name_span, ty, value, bind, visibility } => opt_notes(value, ls) + bound_notes(
            name,
            ty,
            value,
        ),
        StmtKindV::Fn(d) => fn_notes(*d, ls),
        StmtKindV::Class(d) => class_notes(*d, ls),
        StmtKindV::Extend { target, target_span, methods } => methods_notes(
            methods,
            ls,
            methods.len() as int,
        ),
        StmtKindV::Import { module, module_span, names } => Seq::empty(),
        StmtKindV::If { cond, consequent, otherwise } => expr_notes(cond, ls) + block_notes(
            consequent.stmts,
            ls,
        ) + match otherwise {
            Some(other) => stmt_notes(*other, ls),
            None => Seq::empty(),
        },
        StmtKindV::While { cond, body } => expr_notes(cond, ls) + block_notes(body.stmts, ls),
        StmtKindV::For { var, iter, body } => expr_notes(iter, ls) + block_notes(
            body.stmts,
            ls.push(LocalV { name: var, bind: Bind::Let }),
        ),
        StmtKindV::Return(value) => opt_notes(value, ls),
        StmtKindV::Try { body, binding, handler } => block_notes(body.stmts, ls) + block_notes(
            handler.stmts,
            ls.push(LocalV { name: binding, bind: Bind::Let }),
        ),
        StmtKindV::Throw(e) => expr_notes(e, ls),
        StmtKindV::Block(block) => block_notes(block.stmts, ls),
    }
}

/// The names that are known behind a statement. The top level makes none known.
pub open spec fn known_after(s: StmtV, ls: Seq<LocalV>, top: bool) -> Seq<LocalV> {
    if top {
        ls
    } else {
        match s.kind {
            StmtKindV::Let { name, name_span, ty, value, bind, visibility } => ls.push(
                LocalV { name, bind },
            ),
            StmtKindV::Fn(d) => ls.push(LocalV { name: d.name, bind: Bind::Final }),
            StmtKindV::Class(d) => ls.push(LocalV { name: d.name, bind: Bind::Final }),
            _ => ls,
        }
    }
}

/// The names that are known behind the first `n` statements.
pub open spec fn all_known(ss: Seq<StmtV>, ls: Seq<LocalV>, top: bool, n: int) -> Seq<LocalV>
    decreases n,
{
    if 0 < n <= ss.len() {
        known_after(ss[n - 1], all_known(ss, ls, top, n - 1), top)
    } else {
        ls
    }
}

/// What is noted of the first `n` statements.
pub open spec fn stmts_notes(ss: Seq<StmtV>, ls: Seq<LocalV>, top: bool, n: int) -> Seq<NoteV>
    decreases ss, n,
{
    if 0 < n <= ss.len() {
        stmts_notes(ss, ls, top, n - 1) + stmt_notes(ss[n - 1], all_known(ss, ls, top, n - 1))
    } else {
        Seq::empty()
    }
}

/// What the first `n` notes refuse.
pub open spec fn refusals(notes: Seq<NoteV>, n: int) -> Seq<ErrV>
    decreases n,
{
    if 0 < n <= notes.len() {
        match notes[n - 1] {
            NoteV::Refused(e) => refusals(notes, n - 1).push(e),
            _ => refusals(notes, n - 1),
        }
    } else {
        Seq::empty()
    }
}

/// What the first `n` notes say is certain to fail.
pub open spec fn mistakes(notes: Seq<NoteV>, n: int) -> Seq<ErrV>
    decreases n,
{
    if 0 < n <= notes.len() {
        match notes[n - 1] {
            NoteV::Mistaken(e) => mistakes(notes, n - 1).push(e),
            _ => mistakes(notes, n - 1),
        }
    } else {
        Seq::empty()
    }
}

/// All that is certain to fail in a program once it is reached.
pub open spec fn mistaken(program: Seq<StmtV>) -> Seq<ErrV> {
    let notes = stmts_notes(program, Seq::empty(), true, program.len() as int);
    mistakes(notes, notes.len() as int)
}

/// All that is refused of a program.
pub open spec fn refused(program: Seq<StmtV>) -> Seq<ErrV> {
    let notes = stmts_notes(program, Seq::empty(), true, program.len() as int);
    refusals(notes, notes.len() as int)
}

/// The program itself, or the first thing that is refused of it.
pub open spec fn resolved(program: Seq<StmtV>) -> Result<Seq<StmtV>, ErrV> {
    if refused(program).len() == 0 {
        Ok(program)
    } else {
        Err(refused(program)[0])
    }
}

// -- finding it ------------------------------------------------------------------------------

/// [`LocalV`], held.
struct Local {
    name: String,
    bind: Bind,
}

/// [`NoteV`], held.
enum Note {
    Refused(QuinceError),
    Mistaken(QuinceError),
    Init,
}

spec fn local_v(l: Local) -> LocalV {
    LocalV { name: l.name@, bind: l.bind }
}

spec fn locals_v(s: Seq<Local>) -> Seq<LocalV> {
    s.map_values(|l: Local| local_v(l))
}

spec fn note_v(n: Note) -> NoteV {
    match n {
        Note::Refused(e) => NoteV::Refused(e@),
        Note::Mistaken(e) => NoteV::Mistaken(e@),
        Note::Init => NoteV::Init,
    }
}

spec fn notes_v(s: Seq<Note>) -> Seq<NoteV> {
    s.map_values(|n: Note| note_v(n))
}

/// The names that were known stay known, in front.
proof fn lemma_known(ss: Seq<StmtV>, ls: Seq<LocalV>, top: bool, n: int)
    ensures
        ls.len() <= all_known(ss, ls, top, n).len(),
        all_known(ss, ls, top, n).take(ls.len() as int) =~= ls,
    decreases n,
{
    if 0 < n <= ss.len() {
        lemma_known(ss, ls, top, n - 1);
    }
}

proof fn lemma_params(ls: Seq<LocalV>, ps: Seq<ParamV>, n: int)
    ensures
        ls.len() <= with_params(ls, ps, n).len(),
        with_params(ls, ps, n).take(ls.len() as int) =~= ls,
    decreases n,
{
    if 0 < n <= ps.len() {
        lemma_params(ls, ps, n - 1);
    }
}

fn bind_of(ls: &Vec<Local>, name: &str) -> (r: Option<Bind>)
    ensures
        r == bound_as(locals_v(ls@), name@, ls@.len() as int),
{
    let mut i: usize = ls.len();
    while i > 0
        invariant
            i <= ls@.len(),
            bound_as(locals_v(ls@), name@, ls@.len() as int) == bound_as(
                locals_v(ls@),
                name@,
                i as int,
            ),
        decreases i,
    {
        if same(ls[i - 1].name.as_str(), name) {
            return Some(ls[i - 1].bind);
        }
        i -= 1;
    }
    None
}

fn add_local(ls: &mut Vec<Local>, name: &str, bind: Bind)
    ensures
        locals_v(final(ls)@) == locals_v(old(ls)@).push(LocalV { name: name@, bind }),
{
    ls.push(Local { name: name.to_owned(), bind });
    assert(locals_v(ls@) =~= locals_v(old(ls)@).push(LocalV { name: name@, bind }));
}

/// Forgets all but the first `n` names.
fn forget(ls: &mut Vec<Local>, n: usize)
    requires
        n <= old(ls)@.len(),
    ensures
        locals_v(final(ls)@) == locals_v(old(ls)@).take(n as int),
{
    ls.truncate(n);
    assert(locals_v(ls@) =~= locals_v(old(ls)@).take(n as int));
}

fn note(out: &mut Vec<Note>, one: Note)
    ensures
        notes_v(final(out)@) == notes_v(old(out)@).push(note_v(one)),
{
    out.push(one);
    assert(notes_v(out@) =~= notes_v(old(out)@).push(note_v(one)));
}

fn note_assigned(target: &Expr, ls: &Vec<Local>, out: &mut Vec<Note>)
    ensures
        notes_v(final(out)@) == notes_v(old(out)@) + assigned(expr_v(*target), locals_v(ls@)),
{
    let ghost before = notes_v(out@);
    let ghost goal = assigned(expr_v(*target), locals_v(ls@));
    if let ExprKind::Var(name) = &target.kind {
        assert(expr_v(*target).kind == ExprKindV::Var(name@));
        if let Some(bind) = bind_of(ls, name.as_str()) {
            if !bind.mutable() {
                let e = QuinceError::new(
                    ErrorKind::Declaration,
                    cat3("cannot reassign `", name.as_str(), "`"),
                    target.span,
                );
                note(out, Note::Refused(e));
                assert(notes_v(out@) =~= before + goal);
                return ;
            }
        }
    }
    assert(goal =~= Seq::empty());
    assert(notes_v(out@) =~= before + goal);
}

#[verifier::spinoff_prover]
fn note_expr(e: &Expr, ls: &Vec<Local>, out: &mut Vec<Note>)
    ensures
        notes_v(final(out)@) == notes_v(old(out)@) + expr_notes(expr_v(*e), locals_v(ls@)),
    decreases e, 0int,
{
    let ghost before = notes_v(out@);
    let ghost l = locals_v(ls@);
    let ghost goal = expr_notes(expr_v(*e), l);
    match &e.kind {
        ExprKind::List(items) => {
            assert(expr_v(*e).kind == ExprKindV::List(exprs_v(items@)));
            assert(exprs_v(items@).len() == items@.len());
            let mut i: usize = 0;
            while i < items.len()
                invariant
                    i <= items@.len(),
                    l == locals_v(ls@),
                    decreases_to!(e => items@),
                    exprs_v(items@).len() == items@.len(),
                    notes_v(out@) =~= before + exprs_notes(exprs_v(items@), l, i as int),
                decreases items@.len() - i,
            {
                assert(exprs_v(items@)[i as int] == expr_v(items@[i as int]));
                note_expr(&items[i], ls, out);
                i += 1;
            }
        },
        ExprKind::Dict(pairs) => {
            assert(expr_v(*e).kind == ExprKindV::Dict(pairs_v(pairs@)));
            assert(pairs_v(pairs@).len() == pairs@.len());
            let mut i: usize = 0;
            while i < pairs.len()
                invariant
                    i <= pairs@.len(),
                    l == locals_v(ls@),
                    decreases_to!(e => pairs@),
                    pairs_v(pairs@).len() == pairs@.len(),
                    notes_v(out@) =~= before + pairs_notes(pairs_v(pairs@), l, i as int),
                decreases pairs@.len() - i,
            {
                assert(pairs_v(pairs@)[i as int].key == expr_v(pairs@[i as int].key));
                assert(pairs_v(pairs@)[i as int].value == expr_v(pairs@[i as int].value));
                note_expr(&pairs[i].key, ls, out);
                note_expr(&pairs[i].value, ls, out);
                i += 1;
            }
        },
        ExprKind::Unary { op, rhs } => {
            assert(expr_v(*e).kind == ExprKindV::Unary { op: *op, rhs: Box::new(expr_v(**rhs)) });
            note_expr(rhs, ls, out);
        },
        ExprKind::Binary { op, lhs, rhs } => {
            assert(expr_v(*e).kind == ExprKindV::Binary {
                op: *op,
                lhs: Box::new(expr_v(**lhs)),
                rhs: Box::new(expr_v(**rhs)),
            });
            note_expr(lhs, ls, out);
            note_expr(rhs, ls, out);
        },
        ExprKind::Logical { op, lhs, rhs } => {
            assert(expr_v(*e).kind == ExprKindV::Logical {
                op: *op,
                lhs: Box::new(expr_v(**lhs)),
                rhs: Box::new(expr_v(**rhs)),
            });
            note_expr(lhs, ls, out);
            note_expr(rhs, ls, out);
        },
        ExprKind::Call { callee, args } => {
            assert(expr_v(*e).kind == ExprKindV::Call {
                callee: Box::new(expr_v(**callee)),
                args: call_args_v(args@),
            });
            assert(call_args_v(args@).len() == args@.len());
            note_expr(callee, ls, out);
            let ghost so_far = notes_v(out@);
            let mut i: usize = 0;
            while i < args.len()
                invariant
                    i <= args@.len(),
                    l == locals_v(ls@),
                    decreases_to!(e => args@),
                    call_args_v(args@).len() == args@.len(),
                    notes_v(out@) =~= so_far + args_notes(call_args_v(args@), l, i as int),
                decreases args@.len() - i,
            {
                assert(call_args_v(args@)[i as int].value == expr_v(args@[i as int].value));
                note_expr(&args[i].value, ls, out);
                i += 1;
            }
        },
        ExprKind::Index { target, index } => {
            assert(expr_v(*e).kind == ExprKindV::Index {
                target: Box::new(expr_v(**target)),
                index: Box::new(expr_v(**index)),
            });
            note_expr(target, ls, out);
            note_expr(index, ls, out);
        },
        ExprKind::TypeArgs { target, args } => {
            assert(expr_v(*e).kind == ExprKindV::TypeArgs {
                target: Box::new(expr_v(**target)),
                args: exprs_v(args@),
            });
            note_expr(target, ls, out);
        },
        ExprKind::Slice { target, start, end } => {
            note_expr(target, ls, out);
            if let Some(start) = start {
                note_expr(start, ls, out);
            }
            if let Some(end) = end {
                note_expr(end, ls, out);
            }
        },
        ExprKind::Field { target, name } => {
            assert(expr_v(*e).kind == ExprKindV::Field {
                target: Box::new(expr_v(**target)),
                name: name@,
            });
            note_expr(target, ls, out);
        },
        ExprKind::Super { name } => {
            assert(expr_v(*e).kind == ExprKindV::Super { name: name@ });
            if same(name.as_str(), "init") {
                note(out, Note::Init);
            }
        },
        ExprKind::Assign { target, value } => {
            assert(expr_v(*e).kind == ExprKindV::Assign {
                target: Box::new(expr_v(**target)),
                value: Box::new(expr_v(**value)),
            });
            note_assigned(target, ls, out);
            note_expr(target, ls, out);
            note_expr(value, ls, out);
        },
        ExprKind::AssignOp { op, target, value } => {
            assert(expr_v(*e).kind == ExprKindV::AssignOp {
                op: *op,
                target: Box::new(expr_v(**target)),
                value: Box::new(expr_v(**value)),
            });
            note_assigned(target, ls, out);
            note_expr(target, ls, out);
            note_expr(value, ls, out);
        },
        ExprKind::Is { value, ty } => {
            note_expr(value, ls, out);
        },
        _ => {
            assert(goal =~= Seq::empty());
        },
    }
    assert(notes_v(out@) =~= before + goal);
}

spec fn opt_v(e: Option<Expr>) -> Option<ExprV> {
    match e {
        Some(e) => Some(expr_v(e)),
        None => None,
    }
}

fn note_opt(e: &Option<Expr>, ls: &Vec<Local>, out: &mut Vec<Note>)
    ensures
        notes_v(final(out)@) == notes_v(old(out)@) + opt_notes(opt_v(*e), locals_v(ls@)),
{
    match e {
        Some(e) => note_expr(e, ls, out),
        None => {
            assert(notes_v(out@) =~= notes_v(out@) + Seq::<NoteV>::empty());
        },
    }
}

spec fn opt_ty_v(ty: Option<TypeExpr>) -> Option<TypeExprV> {
    match ty {
        Some(ty) => Some(type_expr_v(ty)),
        None => None,
    }
}

fn certain_of(e: &Expr) -> (r: Option<&'static str>)
    ensures
        certain(expr_v(*e)) == match r {
            Some(kind) => Some(kind@),
            None => None,
        },
{
    match &e.kind {
        ExprKind::Int(_) => Some("int"),
        ExprKind::Float(_) => Some("float"),
        ExprKind::Str(_) => Some("string"),
        ExprKind::Bool(_) => Some("bool"),
        ExprKind::Nil => Some("nil"),
        ExprKind::List(_) => Some("list"),
        ExprKind::Dict(_) => Some("dict"),
        _ => None,
    }
}

fn does_refuse(ty: &TypeExpr, kind: &str) -> (r: bool)
    ensures
        r == refuses(type_expr_v(*ty), kind@),
{
    match &ty.name {
        TypeName::Named(name) => !ty.nullable && value_held(name.as_str()) && !same(
            name.as_str(),
            kind,
        ) && !(same(name.as_str(), "float") && same(kind, "int")),
        _ => false,
    }
}

fn note_bound(name: &str, ty: &Option<TypeExpr>, value: &Option<Expr>, out: &mut Vec<Note>)
    ensures
        notes_v(final(out)@) == notes_v(old(out)@) + bound_notes(name@, opt_ty_v(*ty), opt_v(*value)),
{
    let ghost before = notes_v(out@);
    let ghost goal = bound_notes(name@, opt_ty_v(*ty), opt_v(*value));
    if let Some(t) = ty {
        if let Some(e) = value {
            if let Some(kind) = certain_of(e) {
                if does_refuse(t, kind) {
                    let wanted = t.written();
                    let found = with_article(kind);
                    let plain = QuinceError::new(
                        ErrorKind::Type,
                        cat6("`", name, "` is `", wanted.as_str(), "`, but this is ", found.as_str()),
                        e.span,
                    );
                    let report = if same(kind, "nil") {
                        plain.with_help(
                            cat3("write `", wanted.as_str(), "?` if it may be absent"),
                        )
                    } else {
                        plain
                    };
                    note(out, Note::Mistaken(report));
                    assert(goal =~= seq![note_v(Note::Mistaken(report))]);
                    assert(notes_v(out@) =~= before + goal);
                    return ;
                }
            }
        }
    }
    assert(goal =~= Seq::empty());
    assert(notes_v(out@) =~= before + goal);
}

fn note_fn(d: &FnDecl, ls: &mut Vec<Local>, out: &mut Vec<Note>)
    ensures
        notes_v(final(out)@) == notes_v(old(out)@) + fn_notes(fn_decl_v(*d), locals_v(old(ls)@)),
        locals_v(final(ls)@) == locals_v(old(ls)@),
    decreases d, 0int,
{
    let ghost before = notes_v(out@);
    let ghost l = locals_v(ls@);
    let ghost ps = params_v(d.params@);
    let held: usize = ls.len();
    assert(ps.len() == d.params@.len());
    let mut i: usize = 0;
    while i < d.params.len()
        invariant
            i <= d.params@.len(),
            ps == params_v(d.params@),
            ps.len() == d.params@.len(),
            locals_v(ls@) == with_params(l, ps, i as int),
            notes_v(out@) =~= before + params_notes(ps, l, i as int),
        decreases d.params@.len() - i,
    {
        let p = &d.params[i];
        assert(ps[i as int].name == p.name@ && ps[i as int].bind == p.bind);
        assert(ps[i as int].default == opt_v(p.default));
        assert(ps[i as int].ty == opt_ty_v(p.ty));
        note_opt(&p.default, ls, out);
        note_bound(p.name.as_str(), &p.ty, &p.default, out);
        add_local(ls, p.name.as_str(), p.bind);
        i += 1;
    }
    let ghost inner = locals_v(ls@);
    note_stmts(&d.body.stmts, ls, false, out);
    proof {
        lemma_params(l, ps, ps.len() as int);
        lemma_known(stmts_v(d.body.stmts@), inner, false, d.body.stmts@.len() as int);
        let all = all_known(stmts_v(d.body.stmts@), inner, false, d.body.stmts@.len() as int);
        assert(all.take(l.len() as int) =~= all.take(inner.len() as int).take(l.len() as int));
        assert(l.len() == held);
        assert(ls@.len() == all.len());
        assert(fn_decl_v(*d).body.stmts == stmts_v(d.body.stmts@));
        assert(fn_decl_v(*d).params == ps);
    }
    forget(ls, held);
    assert(notes_v(out@) =~= before + fn_notes(fn_decl_v(*d), l));
}

fn note_methods(ms: &Vec<Rc<FnDecl>>, ls: &mut Vec<Local>, out: &mut Vec<Note>)
    ensures
        notes_v(final(out)@) == notes_v(old(out)@) + methods_notes(
            fn_decls_v(ms@),
            locals_v(old(ls)@),
            ms@.len() as int,
        ),
        locals_v(final(ls)@) == locals_v(old(ls)@),
    decreases ms@, 0int,
{
    let ghost before = notes_v(out@);
    let ghost l = locals_v(ls@);
    let ghost ds = fn_decls_v(ms@);
    assert(ds.len() == ms@.len());
    let mut i: usize = 0;
    while i < ms.len()
        invariant
            i <= ms@.len(),
            ds == fn_decls_v(ms@),
            ds.len() == ms@.len(),
            locals_v(ls@) == l,
            notes_v(out@) =~= before + methods_notes(ds, l, i as int),
        decreases ms@.len() - i,
    {
        let m: &Rc<FnDecl> = &ms[i];
        assert(ds[i as int] == fn_decl_v(*ms@[i as int]));
        note_fn(m, ls, out);
        i += 1;
    }
}

fn mentions_init(notes: &Vec<Note>) -> (r: bool)
    ensures
        r == notes_v(notes@).contains(NoteV::Init),
{
    let mut i: usize = 0;
    while i < notes.len()
        invariant
            i <= notes@.len(),
            forall|j: int| 0 <= j < i ==> #[trigger] notes_v(notes@)[j] != NoteV::Init,
        decreases notes@.len() - i,
    {
        assert(notes_v(notes@)[i as int] == note_v(notes@[i as int]));
        if let Note::Init = &notes[i] {
            return true;
        }
        i += 1;
    }
    false
}

fn value_held(name: &str) -> (r: bool)
    ensures
        r == holds_a_value(name@),
{
    same(name, "bool") || same(name, "int") || same(name, "float") || same(name, "string") || same(
        name,
        "list",
    ) || same(name, "dict")
}

fn note_inits(ms: &Vec<Rc<FnDecl>>, class: &str, parent: &str, ls: &mut Vec<Local>, out: &mut Vec<Note>)
    ensures
        notes_v(final(out)@) == notes_v(old(out)@) + inits_notes(
            fn_decls_v(ms@),
            locals_v(old(ls)@),
            class@,
            parent@,
            ms@.len() as int,
        ),
        locals_v(final(ls)@) == locals_v(old(ls)@),
    decreases ms@, 0int,
{
    let ghost before = notes_v(out@);
    let ghost l = locals_v(ls@);
    let ghost ds = fn_decls_v(ms@);
    assert(ds.len() == ms@.len());
    let mut i: usize = 0;
    while i < ms.len()
        invariant
            i <= ms@.len(),
            ds == fn_decls_v(ms@),
            ds.len() == ms@.len(),
            locals_v(ls@) == l,
            notes_v(out@) =~= before + inits_notes(ds, l, class@, parent@, i as int),
        decreases ms@.len() - i,
    {
        let m: &Rc<FnDecl> = &ms[i];
        assert(ds[i as int] == fn_decl_v(*ms@[i as int]));
        assert(ds[i as int].op == m.op && ds[i as int].name_span == m.name_span);
        let is_init = match m.op {
            Some(Op::Init) => true,
            _ => false,
        };
        if is_init {
            let mut own: Vec<Note> = Vec::new();
            note_fn(m, ls, &mut own);
            assert(notes_v(own@) =~= fn_notes(ds[i as int], l));
            if !mentions_init(&own) {
                let e = QuinceError::new(
                    ErrorKind::Declaration,
                    cat5(
                        "`op init` never calls `super.init`, and `",
                        class,
                        "` extends `",
                        parent,
                        "`",
                    ),
                    m.name_span,
                );
                note(out, Note::Refused(e));
            }
        }
        i += 1;
    }
}

#[verifier::spinoff_prover]
fn note_class(d: &ClassDecl, ls: &mut Vec<Local>, out: &mut Vec<Note>)
    ensures
        notes_v(final(out)@) == notes_v(old(out)@) + class_notes(class_decl_v(*d), locals_v(old(ls)@)),
        locals_v(final(ls)@) == locals_v(old(ls)@),
    decreases d, 0int,
{
    let ghost before = notes_v(out@);
    let ghost l = locals_v(ls@);
    let ghost fs = field_decls_v(d.fields@);
    assert(fs.len() == d.fields@.len());
    let mut i: usize = 0;
    while i < d.fields.len()
        invariant
            i <= d.fields@.len(),
            fs == field_decls_v(d.fields@),
            fs.len() == d.fields@.len(),
            locals_v(ls@) == l,
            notes_v(out@) =~= before + fields_notes(fs, l, i as int),
        decreases d.fields@.len() - i,
    {
        assert(fs[i as int].value == opt_v(d.fields@[i as int].value));
        assert(fs[i as int].ty == opt_ty_v(d.fields@[i as int].ty));
        assert(fs[i as int].name == d.fields@[i as int].name@);
        note_opt(&d.fields[i].value, ls, out);
        note_bound(d.fields[i].name.as_str(), &d.fields[i].ty, &d.fields[i].value, out);
        i += 1;
    }
    note_methods(&d.methods, ls, out);
    assert(fn_decls_v(d.methods@).len() == d.methods@.len());
    if let Some(parent) = &d.parent {
        assert(class_decl_v(*d).parent == Some(parent@));
        if value_held(parent.as_str()) {
            note_inits(&d.methods, d.name.as_str(), parent.as_str(), ls, out);
        }
    }
    assert(notes_v(out@) =~= before + class_notes(class_decl_v(*d), l));
}

fn note_block(b: &Block, ls: &mut Vec<Local>, out: &mut Vec<Note>)
    ensures
        notes_v(final(out)@) == notes_v(old(out)@) + block_notes(
            stmts_v(b.stmts@),
            locals_v(old(ls)@),
        ),
        locals_v(final(ls)@) == locals_v(old(ls)@),
    decreases b, 0int,
{
    let held: usize = ls.len();
    let ghost l = locals_v(ls@);
    note_stmts(&b.stmts, ls, false, out);
    proof {
        lemma_known(stmts_v(b.stmts@), l, false, b.stmts@.len() as int);
        assert(stmts_v(b.stmts@).len() == b.stmts@.len());
        assert(l.len() == held);
        assert(locals_v(ls@).len() == ls@.len());
    }
    forget(ls, held);
}

/// A block that knows one name more.
fn note_block_with(name: &str, b: &Block, ls: &mut Vec<Local>, out: &mut Vec<Note>)
    ensures
        notes_v(final(out)@) == notes_v(old(out)@) + block_notes(
            stmts_v(b.stmts@),
            locals_v(old(ls)@).push(LocalV { name: name@, bind: Bind::Let }),
        ),
        locals_v(final(ls)@) == locals_v(old(ls)@),
    decreases b, 1int,
{
    let held: usize = ls.len();
    let ghost l = locals_v(ls@);
    add_local(ls, name, Bind::Let);
    note_block(b, ls, out);
    assert(locals_v(ls@).len() == ls@.len() && l.len() == held);
    forget(ls, held);
    assert(locals_v(ls@) =~= l);
}

#[verifier::spinoff_prover]
fn note_stmt(s: &Stmt, ls: &mut Vec<Local>, out: &mut Vec<Note>)
    ensures
        notes_v(final(out)@) == notes_v(old(out)@) + stmt_notes(stmt_v(*s), locals_v(old(ls)@)),
        locals_v(final(ls)@) == locals_v(old(ls)@),
    decreases s, 0int,
{
    let ghost before = notes_v(out@);
    let ghost l = locals_v(ls@);
    let ghost goal = stmt_notes(stmt_v(*s), l);
    match &s.kind {
        StmtKind::Expr(e) => {
            assert(stmt_v(*s).kind == StmtKindV::Expr(expr_v(*e)));
            note_expr(e, ls, out);
        },
        StmtKind::Let { name, name_span, ty, value, bind, visibility } => {
            assert(goal == opt_notes(opt_v(*value), l) + bound_notes(
                name@,
                opt_ty_v(*ty),
                opt_v(*value),
            ));
            note_opt(value, ls, out);
            note_bound(name.as_str(), ty, value, out);
        },
        StmtKind::Fn(d) => {
            assert(stmt_v(*s).kind == StmtKindV::Fn(Box::new(fn_decl_v(**d))));
            note_fn(d, ls, out);
        },
        StmtKind::Class(d) => {
            assert(stmt_v(*s).kind == StmtKindV::Class(Box::new(class_decl_v(**d))));
            note_class(d, ls, out);
        },
        StmtKind::Extend { target, target_span, methods } => {
            let ghost ds = fn_decls_v(methods@);
            assert(ds.len() == methods@.len());
            assert(goal == methods_notes(ds, l, ds.len() as int));
            note_methods(methods, ls, out);
        },
        StmtKind::Import { module, module_span, names } => {
            assert(goal =~= Seq::empty());
        },
        StmtKind::If { cond, consequent, otherwise } => {
            note_expr(cond, ls, out);
            note_block(consequent, ls, out);
            let ghost so_far = expr_notes(expr_v(*cond), l) + block_notes(
                stmts_v(consequent.stmts@),
                l,
            );
            assert(stmt_v(*s).kind == StmtKindV::If {
                cond: expr_v(*cond),
                consequent: block_v(*consequent),
                otherwise: match *otherwise {
                    Some(other) => Some(Box::new(stmt_v(*other))),
                    None => None,
                },
            });
            assert(block_v(*consequent).stmts == stmts_v(consequent.stmts@));
            match otherwise {
                Some(other) => {
                    assert(goal == so_far + stmt_notes(stmt_v(**other), l));
                    note_stmt(other, ls, out);
                },
                None => {
                    assert(goal == so_far + Seq::<NoteV>::empty());
                },
            }
        },
        StmtKind::While { cond, body } => {
            assert(stmt_v(*s).kind == StmtKindV::While { cond: expr_v(*cond), body: block_v(*body) });
            note_expr(cond, ls, out);
            note_block(body, ls, out);
        },
        StmtKind::For { var, iter, body } => {
            assert(stmt_v(*s).kind == StmtKindV::For {
                var: var@,
                iter: expr_v(*iter),
                body: block_v(*body),
            });
            note_expr(iter, ls, out);
            note_block_with(var.as_str(), body, ls, out);
        },
        StmtKind::Return(value) => {
            assert(stmt_notes(stmt_v(*s), l) == opt_notes(opt_v(*value), l));
            note_opt(value, ls, out);
        },
        StmtKind::Try { body, binding, handler } => {
            assert(stmt_v(*s).kind == StmtKindV::Try {
                body: block_v(*body),
                binding: binding@,
                handler: block_v(*handler),
            });
            note_block(body, ls, out);
            note_block_with(binding.as_str(), handler, ls, out);
        },
        StmtKind::Throw(e) => {
            assert(stmt_v(*s).kind == StmtKindV::Throw(expr_v(*e)));
            note_expr(e, ls, out);
        },
        StmtKind::Block(block) => {
            assert(stmt_v(*s).kind == StmtKindV::Block(block_v(*block)));
            note_block(block, ls, out);
        },
    }
    assert(notes_v(out@) =~= before + goal);
}

fn note_stmts(ss: &Vec<Stmt>, ls: &mut Vec<Local>, top: bool, out: &mut Vec<Note>)
    ensures
        notes_v(final(out)@) == notes_v(old(out)@) + stmts_notes(
            stmts_v(ss@),
            locals_v(old(ls)@),
            top,
            ss@.len() as int,
        ),
        locals_v(final(ls)@) == all_known(stmts_v(ss@), locals_v(old(ls)@), top, ss@.len() as int),
    decreases ss@, 0int,
{
    let ghost before = notes_v(out@);
    let ghost l = locals_v(ls@);
    let ghost all = stmts_v(ss@);
    assert(all.len() == ss@.len());
    let mut i: usize = 0;
    while i < ss.len()
        invariant
            i <= ss@.len(),
            all == stmts_v(ss@),
            all.len() == ss@.len(),
            locals_v(ls@) == all_known(all, l, top, i as int),
            notes_v(out@) =~= before + stmts_notes(all, l, top, i as int),
        decreases ss@.len() - i,
    {
        let s = &ss[i];
        assert(all[i as int] == stmt_v(*s));
        note_stmt(s, ls, out);
        if !top {
            match &s.kind {
                StmtKind::Let { name, name_span, ty, value, bind, visibility } => {
                    add_local(ls, name.as_str(), *bind);
                },
                StmtKind::Fn(d) => {
                    assert(stmt_v(*s).kind == StmtKindV::Fn(Box::new(fn_decl_v(**d))));
                    add_local(ls, d.name.as_str(), Bind::Final);
                },
                StmtKind::Class(d) => {
                    assert(stmt_v(*s).kind == StmtKindV::Class(Box::new(class_decl_v(**d))));
                    add_local(ls, d.name.as_str(), Bind::Final);
                },
                _ => {},
            }
        }
        i += 1;
    }
}

/// What is noted of a whole program.
fn note_program(program: &Vec<Stmt>) -> (r: Vec<Note>)
    ensures
        notes_v(r@) == stmts_notes(
            stmts_v(program@),
            Seq::empty(),
            true,
            stmts_v(program@).len() as int,
        ),
{
    let mut ls: Vec<Local> = Vec::new();
    let mut notes: Vec<Note> = Vec::new();
    assert(locals_v(ls@) =~= Seq::empty());
    note_stmts(program, &mut ls, true, &mut notes);
    let ghost all = stmts_notes(
        stmts_v(program@),
        Seq::empty(),
        true,
        stmts_v(program@).len() as int,
    );
    assert(stmts_v(program@).len() == program@.len());
    assert(notes_v(notes@) =~= all);
    notes
}

/// What notes refuse, and what they say is certain to fail.
fn sorted_out(notes: Vec<Note>) -> (r: (Vec<QuinceError>, Vec<QuinceError>))
    ensures
        errs_v(r.0@) == refusals(notes_v(notes@), notes_v(notes@).len() as int),
        errs_v(r.1@) == mistakes(notes_v(notes@), notes_v(notes@).len() as int),
{
    let ghost all = notes_v(notes@);
    let mut notes = notes;
    let mut refused_ones: Vec<QuinceError> = Vec::new();
    let mut mistaken_ones: Vec<QuinceError> = Vec::new();
    let ghost mut i: int = 0;
    assert(errs_v(refused_ones@) =~= refusals(all, 0));
    assert(errs_v(mistaken_ones@) =~= mistakes(all, 0));
    while notes.len() > 0
        invariant
            0 <= i <= all.len(),
            notes_v(notes@) =~= all.skip(i),
            errs_v(refused_ones@) == refusals(all, i),
            errs_v(mistaken_ones@) == mistakes(all, i),
        decreases notes@.len(),
    {
        assert(notes_v(notes@)[0] == note_v(notes@[0]));
        assert(notes_v(notes@).len() == notes@.len());
        let ghost rest = notes_v(notes@).skip(1);
        let ghost refused_before = errs_v(refused_ones@);
        let ghost mistaken_before = errs_v(mistaken_ones@);
        match notes.remove(0) {
            Note::Refused(e) => {
                refused_ones.push(e);
                assert(errs_v(refused_ones@) =~= refused_before.push(e@));
            },
            Note::Mistaken(e) => {
                mistaken_ones.push(e);
                assert(errs_v(mistaken_ones@) =~= mistaken_before.push(e@));
            },
            Note::Init => {},
        }
        assert(notes_v(notes@) =~= rest);
        proof {
            i = i + 1;
        }
    }
    assert(notes_v(notes@).len() == notes@.len());
    (refused_ones, mistaken_ones)
}

/// All that is refused of a program.
pub fn refuse(program: &Vec<Stmt>) -> (r: Vec<QuinceError>)
    ensures
        errs_v(r@) == refused(stmts_v(program@)),
{
    sorted_out(note_program(program)).0
}

/// All that is certain to fail in a program once it is reached.
pub fn check(program: &Vec<Stmt>) -> (r: Vec<QuinceError>)
    ensures
        errs_v(r@) == mistaken(stmts_v(program@)),
{
    sorted_out(note_program(program)).1
}

/// A program that was read, or the first thing that is refused of it.
pub fn resolve(program: Vec<Stmt>) -> (r: Result<Vec<Stmt>, QuinceError>)
    ensures
        match r {
            Ok(same) => same@ == program@ && resolved(stmts_v(program@)) == Ok::<Seq<StmtV>, ErrV>(
                stmts_v(program@),
            ),
            Err(e) => resolved(stmts_v(program@)) == Err::<Seq<StmtV>, ErrV>(e@),
        },
{
    let mut errors = refuse(&program);
    assert(errs_v(errors@).len() == errors@.len());
    if errors.len() == 0 {
        Ok(program)
    } else {
        assert(errs_v(errors@)[0] == errors@[0]@);
        Err(errors.remove(0))
    }
}

} // verus!
