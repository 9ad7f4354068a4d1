//! Which declarations a place sees, and which members a class has.

use crate::lsp::selection::{inside, is_inside};
use crate::lsp::signature::{is_error_name, names_error};
use crate::runtime::value::{
    all_builtins, builtin_types, methods_born, native_methods, Builtin, Native,
};
use crate::syntax::ast::{
    Block, ClassDecl, Expr, ExprKind, FieldDecl, FnDecl, ImportName, Param, Stmt, StmtKind,
};
use crate::text::same;
use std::rc::Rc;
use vstd::prelude::*;

verus! {

/// A declaration: of a name that a place sees, or of a member of a class.
pub enum Decl<'a> {
    Let(&'a Stmt),
    Fn(&'a Rc<FnDecl>),
    Class(&'a Rc<ClassDecl>),
    Module(&'a str),
    /// A name imported from a module: the module, then the name.
    Imported(&'a str, &'a str),
    Param(&'a Param),
    /// `self` inside a class.
    SelfOf(&'a str),
    /// The variable of a loop.
    Loop(&'a str),
    /// The error a handler catches.
    Caught(&'a str),
    Field(&'a FieldDecl),
    /// A field that a method assigns.
    Assigned(&'a str, &'a Expr),
    Method(&'a Rc<FnDecl>),
    Native(Native),
    /// The message of an error.
    Message,
    /// The constructor of an error.
    MakesError,
}

/// The model of a [`Decl`].
pub enum DeclV {
    Let(Stmt),
    Fn(Rc<FnDecl>),
    Class(Rc<ClassDecl>),
    Module(Seq<char>),
    Imported(Seq<char>, Seq<char>),
    Param(Param),
    SelfOf(Seq<char>),
    Loop(Seq<char>),
    Caught(Seq<char>),
    Field(FieldDecl),
    Assigned(Seq<char>, Expr),
    Method(Rc<FnDecl>),
    Native(Native),
    Message,
    MakesError,
}

impl<'a> View for Decl<'a> {
    type V = DeclV;

    open spec fn view(&self) -> DeclV {
        match *self {
            Decl::Let(s) => DeclV::Let(*s),
            Decl::Fn(d) => DeclV::Fn(*d),
            Decl::Class(d) => DeclV::Class(*d),
            Decl::Module(m) => DeclV::Module(m@),
            Decl::Imported(m, n) => DeclV::Imported(m@, n@),
            Decl::Param(p) => DeclV::Param(*p),
            Decl::SelfOf(c) => DeclV::SelfOf(c@),
            Decl::Loop(n) => DeclV::Loop(n@),
            Decl::Caught(n) => DeclV::Caught(n@),
            Decl::Field(f) => DeclV::Field(*f),
            Decl::Assigned(n, e) => DeclV::Assigned(n@, *e),
            Decl::Method(d) => DeclV::Method(*d),
            Decl::Native(n) => DeclV::Native(n),
            Decl::Message => DeclV::Message,
            Decl::MakesError => DeclV::MakesError,
        }
    }
}

pub open spec fn decls_v<'a>(s: Seq<Decl<'a>>) -> Seq<DeclV> {
    Seq::new(s.len(), |i: int| s[i]@)
}

impl DeclV {
    /// The name a declaration declares.
    pub open spec fn name(self) -> Seq<char> {
        match self {
            DeclV::Let(s) => match s.kind {
                StmtKind::Let { name, .. } => name@,
                _ => Seq::empty(),
            },
            DeclV::Fn(d) => d.name@,
            DeclV::Class(d) => d.name@,
            DeclV::Module(m) => m,
            DeclV::Imported(_, n) => n,
            DeclV::Param(p) => p.name@,
            DeclV::SelfOf(_) => "self"@,
            DeclV::Loop(n) => n,
            DeclV::Caught(n) => n,
            DeclV::Field(f) => f.name@,
            DeclV::Assigned(n, _) => n,
            DeclV::Method(d) => d.name@,
            DeclV::Native(n) => n.spelled(),
            DeclV::Message => "message"@,
            DeclV::MakesError => "init"@,
        }
    }
}

impl<'a> Decl<'a> {
    /// The name a declaration declares.
    pub fn name(&self) -> (r: &str)
        ensures
            r@ == self@.name(),
    {
        match self {
            Decl::Let(s) => match &s.kind {
                StmtKind::Let { name, .. } => name.as_str(),
                _ => {
                    proof {
                        reveal_strlit("");
                        assert(""@ =~= Seq::empty());
                    }
                    ""
                },
            },
            Decl::Fn(d) => d.name.as_str(),
            Decl::Class(d) => d.name.as_str(),
            Decl::Module(m) => m,
            Decl::Imported(_, n) => n,
            Decl::Param(p) => p.name.as_str(),
            Decl::SelfOf(_) => "self",
            Decl::Loop(n) => n,
            Decl::Caught(n) => n,
            Decl::Field(f) => f.name.as_str(),
            Decl::Assigned(n, _) => n,
            Decl::Method(d) => d.name.as_str(),
            Decl::Native(n) => n.name(),
            Decl::Message => "message",
            Decl::MakesError => "init",
        }
    }
}

pub(crate) fn push<'a>(out: &mut Vec<Decl<'a>>, d: Decl<'a>)
    ensures
        decls_v(final(out)@) == decls_v(old(out)@).push(d@),
{
    let ghost before = decls_v(out@);
    out.push(d);
    assert(decls_v(out@) =~= before.push(d@));
}

// -- what a place sees ------------------------------------------------------------------------------------------

/// What the names an import lists declare, the first `n` of them.
pub open spec fn imported(module: Seq<char>, names: Seq<ImportName>, n: int) -> Seq<DeclV>
    decreases n,
{
    if 0 < n <= names.len() {
        imported(module, names, n - 1).push(DeclV::Imported(module, names[n - 1].name@))
    } else {
        Seq::empty()
    }
}

/// What a statement declares itself.
pub open spec fn own_decls(s: Stmt) -> Seq<DeclV> {
    match s.kind {
        StmtKind::Let { .. } => seq![DeclV::Let(s)],
        StmtKind::Fn(decl) => seq![DeclV::Fn(decl)],
        StmtKind::Class(decl) => seq![DeclV::Class(decl)],
        StmtKind::Import { module, module_span, names } => match names {
            Some(names) => imported(module@, names@, names@.len() as int),
            None => seq![DeclV::Module(module@)],
        },
        _ => Seq::empty(),
    }
}

/// What the first `n` parameters declare, the receiver left out.
pub open spec fn param_decls(ps: Seq<Param>, n: int) -> Seq<DeclV>
    decreases n,
{
    if 0 < n <= ps.len() {
        let before = param_decls(ps, n - 1);
        if ps[n - 1].receiver {
            before
        } else {
            before.push(DeclV::Param(ps[n - 1]))
        }
    } else {
        Seq::empty()
    }
}

/// What a place sees of the first `n` statements.
pub open spec fn scope(ss: Seq<Stmt>, at: int, n: int) -> Seq<DeclV>
    decreases ss, n,
{
    if 0 < n <= ss.len() {
        scope(ss, at, n - 1) + stmt_scope(ss[n - 1], at)
    } else {
        Seq::empty()
    }
}

/// What a place sees of a statement: nothing of one that starts behind it, and what stands
/// inside one only from the inside.
pub open spec fn stmt_scope(s: Stmt, at: int) -> Seq<DeclV>
    decreases s,
{
    if s.span.start > at {
        Seq::empty()
    } else {
        own_decls(s) + if inside(s.span, at) {
            inner_scope(s.kind, at)
        } else {
            Seq::empty()
        }
    }
}

/// What a place sees of the statement it stands in.
pub open spec fn inner_scope(k: StmtKind, at: int) -> Seq<DeclV>
    decreases k,
{
    match k {
        StmtKind::Fn(decl) => fn_scope(decl, at),
        StmtKind::Class(decl) => methods_scope(decl.methods@, decl.name@, at, decl.methods@.len() as int),
        StmtKind::Extend { target, target_span, methods } => methods_scope(
            methods@,
            target@,
            at,
            methods@.len() as int,
        ),
        StmtKind::If { cond, consequent, otherwise } => block_scope(consequent, at) + match otherwise {
            Some(other) => stmt_scope(*other, at),
            None => Seq::empty(),
        },
        StmtKind::While { cond, body } => block_scope(body, at),
        StmtKind::For { var, iter, body } => seq![DeclV::Loop(var@)] + block_scope(body, at),
        StmtKind::Try { body, binding, handler } => block_scope(body, at) + (if inside(handler.span, at) {
            seq![DeclV::Caught(binding@)]
        } else {
            Seq::empty()
        }) + block_scope(handler, at),
        StmtKind::Block(b) => block_scope(b, at),
        _ => Seq::empty(),
    }
}

/// What a place inside a function sees of it.
pub open spec fn fn_scope(d: Rc<FnDecl>, at: int) -> Seq<DeclV>
    decreases d,
{
    param_decls(d.params@, d.params@.len() as int) + block_scope(d.body, at)
}

/// What a place sees of the first `n` methods of a class: those it stands in.
pub open spec fn methods_scope(ms: Seq<Rc<FnDecl>>, class: Seq<char>, at: int, n: int) -> Seq<DeclV>
    decreases ms, n,
{
    if 0 < n <= ms.len() {
        methods_scope(ms, class, at, n - 1) + if inside(ms[n - 1].body.span, at) {
            seq![DeclV::SelfOf(class)] + fn_scope(ms[n - 1], at)
        } else {
            Seq::empty()
        }
    } else {
        Seq::empty()
    }
}

/// What a place sees of a block: nothing from the outside.
pub open spec fn block_scope(b: Block, at: int) -> Seq<DeclV>
    decreases b,
{
    if inside(b.span, at) {
        scope(b.stmts@, at, b.stmts@.len() as int)
    } else {
        Seq::empty()
    }
}

fn push_imported<'a>(module: &'a str, names: &'a Vec<ImportName>, out: &mut Vec<Decl<'a>>)
    ensures
        decls_v(final(out)@) == decls_v(old(out)@) + imported(module@, names@, names@.len() as int),
{
    let ghost before = decls_v(out@);
    let mut i: usize = 0;
    assert(before + Seq::<DeclV>::empty() =~= before);
    while i < names.len()
        invariant
            i <= names@.len(),
            before == decls_v(old(out)@),
            decls_v(out@) == before + imported(module@, names@, i as int),
        decreases names@.len() - i,
    {
        push(out, Decl::Imported(module, names[i].name.as_str()));
        i += 1;
        assert(decls_v(out@) =~= before + imported(module@, names@, i as int));
    }
}

fn push_own<'a>(s: &'a Stmt, out: &mut Vec<Decl<'a>>)
    ensures
        decls_v(final(out)@) == decls_v(old(out)@) + own_decls(*s),
{
    let ghost before = decls_v(out@);
    match &s.kind {
        StmtKind::Let { .. } => push(out, Decl::Let(s)),
        StmtKind::Fn(decl) => push(out, Decl::Fn(decl)),
        StmtKind::Class(decl) => push(out, Decl::Class(decl)),
        StmtKind::Import { module, module_span, names } => match names {
            Some(names) => push_imported(module.as_str(), names, out),
            None => push(out, Decl::Module(module.as_str())),
        },
        _ => {},
    }
    assert(decls_v(out@) =~= before + own_decls(*s));
}

fn push_params<'a>(ps: &'a Vec<Param>, out: &mut Vec<Decl<'a>>)
    ensures
        decls_v(final(out)@) == decls_v(old(out)@) + param_decls(ps@, ps@.len() as int),
{
    let ghost before = decls_v(out@);
    let mut i: usize = 0;
    assert(before + Seq::<DeclV>::empty() =~= before);
    while i < ps.len()
        invariant
            i <= ps@.len(),
            before == decls_v(old(out)@),
            decls_v(out@) == before + param_decls(ps@, i as int),
        decreases ps@.len() - i,
    {
        if !ps[i].receiver {
            push(out, Decl::Param(&ps[i]));
        }
        i += 1;
        assert(decls_v(out@) =~= before + param_decls(ps@, i as int));
    }
}

pub(crate) fn collect_scope<'a>(ss: &'a Vec<Stmt>, at: usize, out: &mut Vec<Decl<'a>>)
    ensures
        decls_v(final(out)@) == decls_v(old(out)@) + scope(ss@, at as int, ss@.len() as int),
    decreases ss@,
{
    let ghost before = decls_v(out@);
    let mut i: usize = 0;
    assert(before + Seq::<DeclV>::empty() =~= before);
    while i < ss.len()
        invariant
            i <= ss@.len(),
            before == decls_v(old(out)@),
            decls_v(out@) == before + scope(ss@, at as int, i as int),
        decreases ss@.len() - i,
    {
        collect_stmt(&ss[i], at, out);
        i += 1;
        assert(scope(ss@, at as int, i as int) == scope(ss@, at as int, i - 1) + stmt_scope(ss@[i - 1], at as int));
        assert(decls_v(out@) =~= before + scope(ss@, at as int, i as int));
    }
}

fn collect_stmt<'a>(s: &'a Stmt, at: usize, out: &mut Vec<Decl<'a>>)
    ensures
        decls_v(final(out)@) == decls_v(old(out)@) + stmt_scope(*s, at as int),
    decreases s,
{
    let ghost before = decls_v(out@);
    if s.span.start <= at {
        push_own(s, out);
        if is_inside(s.span, at) {
            collect_inner(&s.kind, at, out);
        }
    }
    assert(decls_v(out@) =~= before + stmt_scope(*s, at as int));
}

fn collect_inner<'a>(k: &'a StmtKind, at: usize, out: &mut Vec<Decl<'a>>)
    ensures
        decls_v(final(out)@) == decls_v(old(out)@) + inner_scope(*k, at as int),
    decreases k,
{
    let ghost before = decls_v(out@);
    match k {
        StmtKind::Fn(decl) => collect_fn(decl, at, out),
        StmtKind::Class(decl) => collect_methods(&decl.methods, decl.name.as_str(), at, out),
        StmtKind::Extend { target, target_span, methods } => collect_methods(methods, target.as_str(), at, out),
        StmtKind::If { cond, consequent, otherwise } => {
            collect_block(consequent, at, out);
            if let Some(other) = otherwise {
                collect_stmt(other, at, out);
            }
            assert(decls_v(out@) =~= before + inner_scope(*k, at as int));
        },
        StmtKind::While { cond, body } => collect_block(body, at, out),
        StmtKind::For { var, iter, body } => {
            push(out, Decl::Loop(var.as_str()));
            collect_block(body, at, out);
            assert(decls_v(out@) =~= before + inner_scope(*k, at as int));
        },
        StmtKind::Try { body, binding, handler } => {
            collect_block(body, at, out);
            if is_inside(handler.span, at) {
                push(out, Decl::Caught(binding.as_str()));
            }
            collect_block(handler, at, out);
            assert(decls_v(out@) =~= before + inner_scope(*k, at as int));
        },
        StmtKind::Block(b) => collect_block(b, at, out),
        _ => {},
    }
    assert(decls_v(out@) =~= before + inner_scope(*k, at as int));
}

fn collect_fn<'a>(d: &'a Rc<FnDecl>, at: usize, out: &mut Vec<Decl<'a>>)
    ensures
        decls_v(final(out)@) == decls_v(old(out)@) + fn_scope(*d, at as int),
    decreases d,
{
    let ghost before = decls_v(out@);
    push_params(&d.params, out);
    collect_block(&d.body, at, out);
    assert(decls_v(out@) =~= before + fn_scope(*d, at as int));
}

fn collect_methods<'a>(ms: &'a Vec<Rc<FnDecl>>, class: &'a str, at: usize, out: &mut Vec<Decl<'a>>)
    ensures
        decls_v(final(out)@) == decls_v(old(out)@) + methods_scope(ms@, class@, at as int, ms@.len() as int),
    decreases ms@,
{
    let ghost before = decls_v(out@);
    let mut i: usize = 0;
    assert(before + Seq::<DeclV>::empty() =~= before);
    while i < ms.len()
        invariant
            i <= ms@.len(),
            before == decls_v(old(out)@),
            decls_v(out@) == before + methods_scope(ms@, class@, at as int, i as int),
        decreases ms@.len() - i,
    {
        let ghost so_far = decls_v(out@);
        if is_inside(ms[i].body.span, at) {
            push(out, Decl::SelfOf(class));
            collect_fn(&ms[i], at, out);
            assert(decls_v(out@) =~= so_far + (seq![DeclV::SelfOf(class@)] + fn_scope(ms@[i as int], at as int)));
        }
        i += 1;
        assert(decls_v(out@) =~= before + methods_scope(ms@, class@, at as int, i as int));
    }
}

fn collect_block<'a>(b: &'a Block, at: usize, out: &mut Vec<Decl<'a>>)
    ensures
        decls_v(final(out)@) == decls_v(old(out)@) + block_scope(*b, at as int),
    decreases b,
{
    let ghost before = decls_v(out@);
    if is_inside(b.span, at) {
        collect_scope(&b.stmts, at, out);
    }
    assert(decls_v(out@) =~= before + block_scope(*b, at as int));
}

/// The last of the first `n` declarations of a name.
pub open spec fn last_named(ds: Seq<DeclV>, name: Seq<char>, n: int) -> Option<DeclV>
    decreases n,
{
    if n <= 0 || n > ds.len() {
        None
    } else if ds[n - 1].name() == name {
        Some(ds[n - 1])
    } else {
        last_named(ds, name, n - 1)
    }
}

/// What a name means at a place: the declaration nearest to it.
pub open spec fn seen(p: Seq<Stmt>, name: Seq<char>, at: int) -> Option<DeclV> {
    let ds = scope(p, at, p.len() as int);
    last_named(ds, name, ds.len() as int)
}

pub open spec fn opt_decl<'a>(d: Option<Decl<'a>>) -> Option<DeclV> {
    match d {
        Some(d) => Some(d@),
        None => None,
    }
}

/// What a name means at a place of a program.
pub fn find_seen<'a>(p: &'a Vec<Stmt>, name: &str, at: usize) -> (r: Option<Decl<'a>>)
    ensures
        opt_decl(r) == seen(p@, name@, at as int),
{
    let mut ds: Vec<Decl<'a>> = Vec::new();
    assert(decls_v(ds@) =~= Seq::empty());
    collect_scope(p, at, &mut ds);
    let ghost all = scope(p@, at as int, p@.len() as int);
    assert(decls_v(ds@) =~= all);
    let mut n: usize = ds.len();
    while n > 0
        invariant
            n <= ds@.len(),
            decls_v(ds@) == all,
            all.len() == ds@.len(),
            seen(p@, name@, at as int) == last_named(all, name@, n as int),
        decreases n,
    {
        assert(all[n - 1] == ds@[n - 1]@);
        if same(ds[n - 1].name(), name) {
            return Some(ds.swap_remove(n - 1));
        }
        n -= 1;
    }
    None
}

// -- members --------------------------------------------------------------------------------------------------------

/// The class of a name that the first `n` statements declare last.
pub open spec fn class_named(p: Seq<Stmt>, name: Seq<char>, n: int) -> Option<Rc<ClassDecl>>
    decreases n,
{
    if n <= 0 || n > p.len() {
        None
    } else {
        match p[n - 1].kind {
            StmtKind::Class(decl) => if decl.name@ == name {
                Some(decl)
            } else {
                class_named(p, name, n - 1)
            },
            _ => class_named(p, name, n - 1),
        }
    }
}

/// The field that an expression assigns on `self`.
pub open spec fn assigns(e: Expr) -> Seq<DeclV> {
    match e.kind {
        ExprKind::Assign { target, value } => match target.kind {
            ExprKind::Field { target: object, name } => match object.kind {
                ExprKind::Var(var) => if var@ == "self"@ {
                    seq![DeclV::Assigned(name@, *value)]
                } else {
                    Seq::empty()
                },
                _ => Seq::empty(),
            },
            _ => Seq::empty(),
        },
        _ => Seq::empty(),
    }
}

/// The fields that the first `n` statements assign on `self`.
pub open spec fn assigned_in(ss: Seq<Stmt>, n: int) -> Seq<DeclV>
    decreases ss, n,
{
    if 0 < n <= ss.len() {
        assigned_in(ss, n - 1) + assigned_by(ss[n - 1])
    } else {
        Seq::empty()
    }
}

/// The fields that a statement assigns on `self`.
pub open spec fn assigned_by(s: Stmt) -> Seq<DeclV>
    decreases s,
{
    match s.kind {
        StmtKind::Expr(e) => assigns(e),
        StmtKind::If { cond, consequent, otherwise } => assigned_in(consequent.stmts@, consequent.stmts@.len() as int)
            + match otherwise {
            Some(other) => assigned_by(*other),
            None => Seq::empty(),
        },
        StmtKind::While { cond, body } => assigned_in(body.stmts@, body.stmts@.len() as int),
        StmtKind::For { var, iter, body } => assigned_in(body.stmts@, body.stmts@.len() as int),
        StmtKind::Try { body, binding, handler } => assigned_in(body.stmts@, body.stmts@.len() as int) + assigned_in(
            handler.stmts@,
            handler.stmts@.len() as int,
        ),
        StmtKind::Block(b) => assigned_in(b.stmts@, b.stmts@.len() as int),
        _ => Seq::empty(),
    }
}

/// The fields that the first `n` methods assign on `self`.
pub open spec fn methods_assign(ms: Seq<Rc<FnDecl>>, n: int) -> Seq<DeclV>
    decreases n,
{
    if 0 < n <= ms.len() {
        methods_assign(ms, n - 1) + assigned_in(ms[n - 1].body.stmts@, ms[n - 1].body.stmts@.len() as int)
    } else {
        Seq::empty()
    }
}

/// The members that a class declares itself: its fields, its methods, and the fields that
/// those assign.
pub open spec fn own_members(d: Rc<ClassDecl>) -> Seq<DeclV> {
    Seq::new(d.fields@.len(), |i: int| DeclV::Field(d.fields@[i])) + Seq::new(
        d.methods@.len(),
        |i: int| DeclV::Method(d.methods@[i]),
    ) + methods_assign(d.methods@, d.methods@.len() as int)
}

/// The methods that the first `n` statements add to a type from outside.
pub open spec fn extensions(p: Seq<Stmt>, name: Seq<char>, n: int) -> Seq<DeclV>
    decreases n,
{
    if 0 < n <= p.len() {
        extensions(p, name, n - 1) + match p[n - 1].kind {
            StmtKind::Extend { target, target_span, methods } => if target@ == name {
                Seq::new(methods@.len(), |i: int| DeclV::Method(methods@[i]))
            } else {
                Seq::empty()
            },
            _ => Seq::empty(),
        }
    } else {
        Seq::empty()
    }
}

/// The methods that those of the first `n` builtin types have that go by a name.
pub open spec fn natives_of(name: Seq<char>, n: int) -> Seq<DeclV>
    decreases n,
{
    if 0 < n <= all_builtins().len() {
        let b = all_builtins()[n - 1];
        natives_of(name, n - 1) + if b.spelled() == name {
            Seq::new(native_methods(b).len(), |i: int| DeclV::Native(native_methods(b)[i]))
        } else {
            Seq::empty()
        }
    } else {
        Seq::empty()
    }
}

/// The members that a type is born with.
pub open spec fn born_members(name: Seq<char>) -> Seq<DeclV> {
    natives_of(name, all_builtins().len() as int) + if names_error(name, 0) {
        seq![DeclV::Message, DeclV::MakesError]
    } else {
        Seq::empty()
    }
}

/// Whether one of some declarations has a name.
pub open spec fn has_name(ds: Seq<DeclV>, name: Seq<char>) -> bool {
    exists|i: int| 0 <= i < ds.len() && (#[trigger] ds[i]).name() == name
}

/// Declarations with those of the first `n` others whose names they lack.
pub open spec fn with_new(ds: Seq<DeclV>, more: Seq<DeclV>, n: int) -> Seq<DeclV>
    decreases n,
{
    if 0 < n <= more.len() {
        let before = with_new(ds, more, n - 1);
        if has_name(before, more[n - 1].name()) {
            before
        } else {
            before.push(more[n - 1])
        }
    } else {
        ds
    }
}

pub open spec fn adding(ds: Seq<DeclV>, more: Seq<DeclV>) -> Seq<DeclV> {
    with_new(ds, more, more.len() as int)
}

/// Whether a member is kept from the classes that extend its own.
pub open spec fn is_private(d: DeclV) -> bool {
    match d {
        DeclV::Field(f) => f.visibility.is_closed_to_subclass(),
        DeclV::Method(m) => m.visibility.is_closed_to_subclass(),
        _ => false,
    }
}

/// Those of the first `n` members that a class hands down.
pub open spec fn handed_down(ds: Seq<DeclV>, n: int) -> Seq<DeclV>
    decreases n,
{
    if 0 < n <= ds.len() {
        let before = handed_down(ds, n - 1);
        if is_private(ds[n - 1]) {
            before
        } else {
            before.push(ds[n - 1])
        }
    } else {
        Seq::empty()
    }
}

/// The members of the class above that a class has from it.
pub open spec fn from_above(above: Seq<DeclV>) -> Seq<DeclV> {
    handed_down(above, above.len() as int)
}

/// The members of a class: its own, those added from outside, those it is born with, and
/// those the classes it extends hand down, as far as `depth` of them. The nearest of a name
/// counts.
pub open spec fn members(p: Seq<Stmt>, name: Seq<char>, depth: nat) -> Seq<DeclV>
    decreases depth,
{
    let class = class_named(p, name, p.len() as int);
    let own = match class {
        Some(d) => adding(Seq::empty(), own_members(d)),
        None => Seq::empty(),
    };
    let more = adding(adding(own, extensions(p, name, p.len() as int)), born_members(name));
    match class {
        Some(d) => match d.parent {
            Some(parent) => if depth > 0 {
                adding(more, from_above(members(p, parent@, (depth - 1) as nat)))
            } else {
                more
            },
            None => more,
        },
        None => more,
    }
}

fn find_class<'a>(p: &'a Vec<Stmt>, name: &str) -> (r: Option<&'a Rc<ClassDecl>>)
    ensures
        match r {
            Some(d) => class_named(p@, name@, p@.len() as int) == Some(*d),
            None => class_named(p@, name@, p@.len() as int) is None,
        },
{
    let mut n: usize = p.len();
    while n > 0
        invariant
            n <= p@.len(),
            class_named(p@, name@, p@.len() as int) == class_named(p@, name@, n as int),
        decreases n,
    {
        if let StmtKind::Class(decl) = &p[n - 1].kind {
            if same(decl.name.as_str(), name) {
                return Some(decl);
            }
        }
        n -= 1;
    }
    None
}

fn push_assigns<'a>(e: &'a Expr, out: &mut Vec<Decl<'a>>)
    ensures
        decls_v(final(out)@) == decls_v(old(out)@) + assigns(*e),
{
    let ghost before = decls_v(out@);
    if let ExprKind::Assign { target, value } = &e.kind {
        if let ExprKind::Field { target: object, name } = &target.kind {
            if let ExprKind::Var(var) = &object.kind {
                if same(var.as_str(), "self") {
                    push(out, Decl::Assigned(name.as_str(), value));
                }
            }
        }
    }
    assert(decls_v(out@) =~= before + assigns(*e));
}

fn push_assigned_in<'a>(ss: &'a Vec<Stmt>, out: &mut Vec<Decl<'a>>)
    ensures
        decls_v(final(out)@) == decls_v(old(out)@) + assigned_in(ss@, ss@.len() as int),
    decreases ss@,
{
    let ghost before = decls_v(out@);
    let mut i: usize = 0;
    assert(before + Seq::<DeclV>::empty() =~= before);
    while i < ss.len()
        invariant
            i <= ss@.len(),
            before == decls_v(old(out)@),
            decls_v(out@) == before + assigned_in(ss@, i as int),
        decreases ss@.len() - i,
    {
        push_assigned_by(&ss[i], out);
        i += 1;
        assert(assigned_in(ss@, i as int) == assigned_in(ss@, i - 1) + assigned_by(ss@[i - 1]));
        assert(decls_v(out@) =~= before + assigned_in(ss@, i as int));
    }
}

fn push_assigned_by<'a>(s: &'a Stmt, out: &mut Vec<Decl<'a>>)
    ensures
        decls_v(final(out)@) == decls_v(old(out)@) + assigned_by(*s),
    decreases s,
{
    let ghost before = decls_v(out@);
    match &s.kind {
        StmtKind::Expr(e) => push_assigns(e, out),
        StmtKind::If { cond, consequent, otherwise } => {
            push_assigned_in(&consequent.stmts, out);
            if let Some(other) = otherwise {
                push_assigned_by(other, out);
            }
        },
        StmtKind::While { cond, body } => push_assigned_in(&body.stmts, out),
        StmtKind::For { var, iter, body } => push_assigned_in(&body.stmts, out),
        StmtKind::Try { body, binding, handler } => {
            push_assigned_in(&body.stmts, out);
            push_assigned_in(&handler.stmts, out);
        },
        StmtKind::Block(b) => push_assigned_in(&b.stmts, out),
        _ => {},
    }
    assert(decls_v(out@) =~= before + assigned_by(*s));
}

fn push_methods_assign<'a>(ms: &'a Vec<Rc<FnDecl>>, out: &mut Vec<Decl<'a>>)
    ensures
        decls_v(final(out)@) == decls_v(old(out)@) + methods_assign(ms@, ms@.len() as int),
{
    let ghost before = decls_v(out@);
    let mut i: usize = 0;
    assert(before + Seq::<DeclV>::empty() =~= before);
    while i < ms.len()
        invariant
            i <= ms@.len(),
            before == decls_v(old(out)@),
            decls_v(out@) == before + methods_assign(ms@, i as int),
        decreases ms@.len() - i,
    {
        push_assigned_in(&ms[i].body.stmts, out);
        i += 1;
        assert(decls_v(out@) =~= before + methods_assign(ms@, i as int));
    }
}

fn push_methods<'a>(ms: &'a Vec<Rc<FnDecl>>, out: &mut Vec<Decl<'a>>)
    ensures
        decls_v(final(out)@) == decls_v(old(out)@) + Seq::new(ms@.len(), |i: int| DeclV::Method(ms@[i])),
{
    let ghost before = decls_v(out@);
    let ghost all = Seq::new(ms@.len(), |i: int| DeclV::Method(ms@[i]));
    let mut i: usize = 0;
    assert(before + all.take(0) =~= before);
    while i < ms.len()
        invariant
            i <= ms@.len(),
            before == decls_v(old(out)@),
            all == Seq::new(ms@.len(), |i: int| DeclV::Method(ms@[i])),
            decls_v(out@) == before + all.take(i as int),
        decreases ms@.len() - i,
    {
        push(out, Decl::Method(&ms[i]));
        i += 1;
        assert(decls_v(out@) =~= before + all.take(i as int));
    }
    assert(all.take(i as int) =~= all);
}

fn push_fields<'a>(fs: &'a Vec<FieldDecl>, out: &mut Vec<Decl<'a>>)
    ensures
        decls_v(final(out)@) == decls_v(old(out)@) + Seq::new(fs@.len(), |i: int| DeclV::Field(fs@[i])),
{
    let ghost before = decls_v(out@);
    let ghost all = Seq::new(fs@.len(), |i: int| DeclV::Field(fs@[i]));
    let mut i: usize = 0;
    assert(before + all.take(0) =~= before);
    while i < fs.len()
        invariant
            i <= fs@.len(),
            before == decls_v(old(out)@),
            all == Seq::new(fs@.len(), |i: int| DeclV::Field(fs@[i])),
            decls_v(out@) == before + all.take(i as int),
        decreases fs@.len() - i,
    {
        push(out, Decl::Field(&fs[i]));
        i += 1;
        assert(decls_v(out@) =~= before + all.take(i as int));
    }
    assert(all.take(i as int) =~= all);
}

fn push_own_members<'a>(d: &'a Rc<ClassDecl>, out: &mut Vec<Decl<'a>>)
    ensures
        decls_v(final(out)@) == decls_v(old(out)@) + own_members(*d),
{
    let ghost before = decls_v(out@);
    push_fields(&d.fields, out);
    push_methods(&d.methods, out);
    push_methods_assign(&d.methods, out);
    assert(decls_v(out@) =~= before + own_members(*d));
}

fn push_extensions<'a>(p: &'a Vec<Stmt>, name: &str, out: &mut Vec<Decl<'a>>)
    ensures
        decls_v(final(out)@) == decls_v(old(out)@) + extensions(p@, name@, p@.len() as int),
{
    let ghost before = decls_v(out@);
    let mut i: usize = 0;
    assert(before + Seq::<DeclV>::empty() =~= before);
    while i < p.len()
        invariant
            i <= p@.len(),
            before == decls_v(old(out)@),
            decls_v(out@) == before + extensions(p@, name@, i as int),
        decreases p@.len() - i,
    {
        if let StmtKind::Extend { target, target_span, methods } = &p[i].kind {
            if same(target.as_str(), name) {
                push_methods(methods, out);
            }
        }
        i += 1;
        assert(decls_v(out@) =~= before + extensions(p@, name@, i as int));
    }
}

fn push_natives<'a>(b: Builtin, out: &mut Vec<Decl<'a>>)
    ensures
        decls_v(final(out)@) == decls_v(old(out)@) + Seq::new(
            native_methods(b).len(),
            |i: int| DeclV::Native(native_methods(b)[i]),
        ),
{
    let natives = methods_born(b);
    let ghost before = decls_v(out@);
    let ghost all = Seq::new(native_methods(b).len(), |i: int| DeclV::Native(native_methods(b)[i]));
    let mut i: usize = 0;
    assert(before + all.take(0) =~= before);
    while i < natives.len()
        invariant
            i <= natives@.len(),
            natives@ == native_methods(b),
            before == decls_v(old(out)@),
            all == Seq::new(native_methods(b).len(), |i: int| DeclV::Native(native_methods(b)[i])),
            decls_v(out@) == before + all.take(i as int),
        decreases natives@.len() - i,
    {
        push(out, Decl::Native(natives[i]));
        i += 1;
        assert(decls_v(out@) =~= before + all.take(i as int));
    }
    assert(all.take(i as int) =~= all);
}

fn push_born<'a>(name: &str, out: &mut Vec<Decl<'a>>)
    ensures
        decls_v(final(out)@) == decls_v(old(out)@) + born_members(name@),
{
    let ghost before = decls_v(out@);
    let all = builtin_types();
    let mut i: usize = 0;
    assert(before + Seq::<DeclV>::empty() =~= before);
    while i < all.len()
        invariant
            i <= all@.len(),
            all@ == all_builtins(),
            before == decls_v(old(out)@),
            decls_v(out@) == before + natives_of(name@, i as int),
        decreases all@.len() - i,
    {
        if same(all[i].name(), name) {
            push_natives(all[i], out);
        }
        i += 1;
        assert(decls_v(out@) =~= before + natives_of(name@, i as int));
    }
    if is_error_name(name) {
        push(out, Decl::Message);
        push(out, Decl::MakesError);
    }
    assert(decls_v(out@) =~= before + born_members(name@));
}

fn is_named<'a>(ds: &Vec<Decl<'a>>, name: &str) -> (r: bool)
    ensures
        r == has_name(decls_v(ds@), name@),
{
    let mut i: usize = 0;
    while i < ds.len()
        invariant
            i <= ds@.len(),
            forall|j: int| 0 <= j < i ==> (#[trigger] decls_v(ds@)[j]).name() != name@,
        decreases ds@.len() - i,
    {
        assert(decls_v(ds@)[i as int] == ds@[i as int]@);
        if same(ds[i].name(), name) {
            return true;
        }
        i += 1;
    }
    false
}

fn copy<'a>(d: &Decl<'a>) -> (r: Decl<'a>)
    ensures
        r@ == d@,
{
    match d {
        Decl::Let(s) => Decl::Let(s),
        Decl::Fn(d) => Decl::Fn(d),
        Decl::Class(d) => Decl::Class(d),
        Decl::Module(m) => Decl::Module(m),
        Decl::Imported(m, n) => Decl::Imported(m, n),
        Decl::Param(p) => Decl::Param(p),
        Decl::SelfOf(c) => Decl::SelfOf(c),
        Decl::Loop(n) => Decl::Loop(n),
        Decl::Caught(n) => Decl::Caught(n),
        Decl::Field(f) => Decl::Field(f),
        Decl::Assigned(n, e) => Decl::Assigned(n, e),
        Decl::Method(d) => Decl::Method(d),
        Decl::Native(n) => Decl::Native(*n),
        Decl::Message => Decl::Message,
        Decl::MakesError => Decl::MakesError,
    }
}

fn add_new<'a>(ds: &mut Vec<Decl<'a>>, more: &Vec<Decl<'a>>)
    ensures
        decls_v(final(ds)@) == adding(decls_v(old(ds)@), decls_v(more@)),
{
    let ghost before = decls_v(ds@);
    let ghost all = decls_v(more@);
    let mut i: usize = 0;
    while i < more.len()
        invariant
            i <= more@.len(),
            before == decls_v(old(ds)@),
            all == decls_v(more@),
            decls_v(ds@) == with_new(before, all, i as int),
        decreases more@.len() - i,
    {
        assert(all[i as int] == more@[i as int]@);
        if !is_named(ds, more[i].name()) {
            push(ds, copy(&more[i]));
        }
        i += 1;
    }
    assert(all.len() == more@.len());
}

fn is_kept<'a>(d: &Decl<'a>) -> (r: bool)
    ensures
        r == is_private(d@),
{
    match d {
        Decl::Field(f) => f.visibility.closes_subclass(),
        Decl::Method(m) => m.visibility.closes_subclass(),
        _ => false,
    }
}

fn hand_down<'a>(ds: &Vec<Decl<'a>>) -> (r: Vec<Decl<'a>>)
    ensures
        decls_v(r@) == from_above(decls_v(ds@)),
{
    let mut out: Vec<Decl<'a>> = Vec::new();
    let ghost all = decls_v(ds@);
    let mut i: usize = 0;
    assert(decls_v(out@) =~= Seq::empty());
    while i < ds.len()
        invariant
            i <= ds@.len(),
            all == decls_v(ds@),
            decls_v(out@) == handed_down(all, i as int),
        decreases ds@.len() - i,
    {
        assert(all[i as int] == ds@[i as int]@);
        if !is_kept(&ds[i]) {
            push(&mut out, copy(&ds[i]));
        }
        i += 1;
    }
    assert(all.len() == ds@.len());
    out
}

/// The members of a class of a program.
pub fn collect_members<'a>(p: &'a Vec<Stmt>, name: &str, depth: usize) -> (r: Vec<Decl<'a>>)
    ensures
        decls_v(r@) == members(p@, name@, depth as nat),
    decreases depth,
{
    let class = find_class(p, name);
    let mut out: Vec<Decl<'a>> = Vec::new();
    assert(decls_v(out@) =~= Seq::empty());
    if let Some(d) = class {
        let mut own: Vec<Decl<'a>> = Vec::new();
        assert(decls_v(own@) =~= Seq::empty());
        push_own_members(d, &mut own);
        assert(decls_v(own@) =~= own_members(*d));
        add_new(&mut out, &own);
    }
    let mut added: Vec<Decl<'a>> = Vec::new();
    assert(decls_v(added@) =~= Seq::empty());
    push_extensions(p, name, &mut added);
    assert(decls_v(added@) =~= extensions(p@, name@, p@.len() as int));
    add_new(&mut out, &added);
    let mut born: Vec<Decl<'a>> = Vec::new();
    assert(decls_v(born@) =~= Seq::empty());
    push_born(name, &mut born);
    assert(decls_v(born@) =~= born_members(name@));
    add_new(&mut out, &born);
    if let Some(d) = class {
        if let Some(parent) = &d.parent {
            if depth > 0 {
                let above = collect_members(p, parent.as_str(), depth - 1);
                let open = hand_down(&above);
                add_new(&mut out, &open);
            }
        }
    }
    out
}

/// The first of some declarations of a name, from `i` on.
pub open spec fn first_named(ds: Seq<DeclV>, name: Seq<char>, i: int) -> Option<DeclV>
    decreases ds.len() - i,
{
    if i < 0 || i >= ds.len() {
        None
    } else if ds[i].name() == name {
        Some(ds[i])
    } else {
        first_named(ds, name, i + 1)
    }
}

/// The member of a class that goes by a name.
pub open spec fn member(p: Seq<Stmt>, class: Seq<char>, name: Seq<char>) -> Option<DeclV> {
    first_named(members(p, class, p.len()), name, 0)
}

/// The member of a class that goes by a name.
pub fn find_member<'a>(p: &'a Vec<Stmt>, class: &str, name: &str) -> (r: Option<Decl<'a>>)
    ensures
        opt_decl(r) == member(p@, class@, name@),
{
    let mut ds = collect_members(p, class, p.len());
    let ghost all = members(p@, class@, p@.len());
    let mut i: usize = 0;
    while i < ds.len()
        invariant
            i <= ds@.len(),
            decls_v(ds@) == all,
            member(p@, class@, name@) == first_named(all, name@, i as int),
        decreases ds@.len() - i,
    {
        assert(all[i as int] == ds@[i as int]@);
        if same(ds[i].name(), name) {
            return Some(ds.swap_remove(i));
        }
        i += 1;
    }
    assert(all.len() == ds@.len());
    None
}

// -- laws -----------------------------------------------------------------------------------------------------------

proof fn lemma_with_new_keeps(ds: Seq<DeclV>, more: Seq<DeclV>, n: int, name: Seq<char>)
    requires
        0 <= n <= more.len(),
        has_name(ds, name),
    ensures
        first_named(with_new(ds, more, n), name, 0) == first_named(ds, name, 0),
        has_name(with_new(ds, more, n), name),
    decreases n,
{
    if n > 0 {
        lemma_with_new_keeps(ds, more, n - 1, name);
        let before = with_new(ds, more, n - 1);
        if !has_name(before, more[n - 1].name()) {
            lemma_first_named_push(before, more[n - 1], name, 0);
            let i = choose|i: int| 0 <= i < before.len() && (#[trigger] before[i]).name() == name;
            assert(before.push(more[n - 1])[i].name() == name);
        }
    }
}

proof fn lemma_first_named_push(ds: Seq<DeclV>, d: DeclV, name: Seq<char>, i: int)
    requires
        0 <= i <= ds.len(),
        exists|j: int| i <= j < ds.len() && (#[trigger] ds[j]).name() == name,
    ensures
        first_named(ds.push(d), name, i) == first_named(ds, name, i),
    decreases ds.len() - i,
{
    assert(i < ds.len());
    assert(ds.push(d)[i] == ds[i]);
    if ds[i].name() != name {
        let j = choose|j: int| i <= j < ds.len() && (#[trigger] ds[j]).name() == name;
        assert(i + 1 <= j < ds.len() && ds[j].name() == name);
        lemma_first_named_push(ds, d, name, i + 1);
    }
}

/// A member that a class declares itself hides one of the same name further up, one added
/// from outside and one it is born with.
pub proof fn law_the_nearest_member_counts(p: Seq<Stmt>, class: Seq<char>, d: Rc<ClassDecl>, name: Seq<char>)
    requires
        class_named(p, class, p.len() as int) == Some(d),
        has_name(adding(Seq::empty(), own_members(d)), name),
    ensures
        member(p, class, name) == first_named(adding(Seq::empty(), own_members(d)), name, 0),
{
    let own = adding(Seq::empty(), own_members(d));
    let ext = extensions(p, class, p.len() as int);
    lemma_with_new_keeps(own, ext, ext.len() as int, name);
    let with_ext = adding(own, ext);
    let born = born_members(class);
    lemma_with_new_keeps(with_ext, born, born.len() as int, name);
    let more = adding(with_ext, born);
    match d.parent {
        Some(parent) => {
            if p.len() > 0 {
                let above = from_above(members(p, parent@, (p.len() - 1) as nat));
                lemma_with_new_keeps(more, above, above.len() as int, name);
            }
        },
        None => {},
    }
}

/// A statement that starts behind a place declares nothing that the place sees.
pub proof fn law_a_place_sees_nothing_declared_behind_it(s: Stmt, at: int)
    requires
        s.span.start > at,
    ensures
        scope(seq![s], at, 1) == Seq::<DeclV>::empty(),
{
    assert(scope(seq![s], at, 0) == Seq::<DeclV>::empty());
    assert(stmt_scope(seq![s][0], at) == Seq::<DeclV>::empty());
    assert(scope(seq![s], at, 1) =~= Seq::<DeclV>::empty());
}

proof fn lemma_handed_down(ds: Seq<DeclV>, n: int)
    requires
        0 <= n <= ds.len(),
    ensures
        forall|i: int| 0 <= i < handed_down(ds, n).len() ==> !is_private(#[trigger] handed_down(ds, n)[i]),
    decreases n,
{
    if n > 0 {
        lemma_handed_down(ds, n - 1);
        let before = handed_down(ds, n - 1);
        let after = handed_down(ds, n);
        assert forall|i: int| 0 <= i < after.len() implies !is_private(#[trigger] after[i]) by {
            if i < before.len() {
                assert(after[i] == before[i]);
            }
        }
    }
}

/// No class has a private member from the class above it.
pub proof fn law_nothing_private_is_handed_down(above: Seq<DeclV>)
    ensures
        forall|i: int| 0 <= i < from_above(above).len() ==> !is_private(#[trigger] from_above(above)[i]),
{
    lemma_handed_down(above, above.len() as int);
}

} // verus!
