//! What is known of the values of a program without running it.
//!
//! A type is claimed only where it is certain; everything else is unknown.

use crate::lsp::docs::{doc_of, documented};
use crate::lsp::position::opt_text;
use crate::lsp::scope::{
    collect_members, collect_scope, decls_v, find_member, find_seen, member, members, scope, seen,
    Decl, DeclV,
};
use crate::lsp::selection::{inside, is_inside};
use crate::lsp::signature::{param_names, param_names_of};
use crate::lsp::symbols::{
    class_type, global_symbols, globals, module_members, module_symbols, named, native_result,
    native_result_of, native_symbol, native_symbol_of, opt_symbol, symbols_v, take_named, Kind,
    Symbol, SymbolV, Type, TypeV,
};
use crate::syntax::ast::{
    BinaryOp, Bind, Expr, ExprKind, FnDecl, Stmt, StmtKind, TypeExpr, TypeName, UnaryOp,
    Visibility,
};
use crate::text::{same, strs};
use std::rc::Rc;
use vstd::prelude::*;

verus! {

/// How many names a type is followed through.
pub const REACH: usize = 16;

// -- types of expressions ----------------------------------------------------------------------------------------

/// The type an annotation promises: none where the value may be absent.
pub open spec fn annotation(t: TypeExpr) -> TypeV {
    match t.name {
        TypeName::Named(name) => if t.nullable {
            TypeV::Unknown
        } else {
            TypeV::Class(name@)
        },
        _ => TypeV::Unknown,
    }
}

pub open spec fn is_class(t: TypeV, name: Seq<char>) -> bool {
    t == TypeV::Class(name)
}

/// Whether a type is a number.
pub open spec fn is_number(t: TypeV) -> bool {
    is_class(t, "int"@) || is_class(t, "float"@)
}

/// The type of what an operator makes of two values.
pub open spec fn binary_type(op: BinaryOp, a: TypeV, b: TypeV) -> TypeV {
    match op {
        BinaryOp::Eq | BinaryOp::Ne | BinaryOp::Lt | BinaryOp::Le | BinaryOp::Gt | BinaryOp::Ge | BinaryOp::In => {
            TypeV::Class("bool"@)
        },
        BinaryOp::Add | BinaryOp::Sub | BinaryOp::Mul => if is_class(a, "int"@) && is_class(b, "int"@) {
            TypeV::Class("int"@)
        } else if is_number(a) && is_number(b) {
            TypeV::Class("float"@)
        } else if op == BinaryOp::Add && is_class(a, "string"@) && is_class(b, "string"@) {
            TypeV::Class("string"@)
        } else {
            TypeV::Unknown
        },
        BinaryOp::Div => if is_number(a) && is_number(b) {
            TypeV::Class("float"@)
        } else {
            TypeV::Unknown
        },
        _ => TypeV::Unknown,
    }
}

/// The type of what an operator makes of one value.
pub open spec fn unary_type(op: UnaryOp, a: TypeV) -> TypeV {
    match op {
        UnaryOp::Not => TypeV::Class("bool"@),
        UnaryOp::Neg => if is_number(a) {
            a
        } else {
            TypeV::Unknown
        },
        UnaryOp::BitNot => if is_class(a, "int"@) {
            a
        } else {
            TypeV::Unknown
        },
    }
}

/// Two types that must agree: what is known of either is known only where it is the same.
pub open spec fn agreed(a: Option<TypeV>, b: Option<TypeV>) -> Option<TypeV> {
    match (a, b) {
        (None, _) => b,
        (_, None) => a,
        (Some(x), Some(y)) => if x == y {
            a
        } else {
            Some(TypeV::Unknown)
        },
    }
}

/// The type of an expression, followed through `fuel` names.
pub open spec fn expr_type(p: Seq<Stmt>, e: Expr, fuel: nat) -> TypeV
    decreases fuel, 0int, e,
{
    match e.kind {
        ExprKind::Int(_) => TypeV::Class("int"@),
        ExprKind::Float(_) => TypeV::Class("float"@),
        ExprKind::Str(_) => TypeV::Class("string"@),
        ExprKind::Bool(_) => TypeV::Class("bool"@),
        ExprKind::Nil => TypeV::Class("nil"@),
        ExprKind::List(_) => TypeV::Class("list"@),
        ExprKind::Dict(_) => TypeV::Class("dict"@),
        ExprKind::Is { .. } => TypeV::Class("bool"@),
        ExprKind::Unary { op, rhs } => unary_type(op, expr_type(p, *rhs, fuel)),
        ExprKind::Binary { op, lhs, rhs } => binary_type(op, expr_type(p, *lhs, fuel), expr_type(p, *rhs, fuel)),
        ExprKind::Var(name) => if fuel > 0 {
            name_type(p, name@, e.span.start as int, false, (fuel - 1) as nat)
        } else {
            TypeV::Unknown
        },
        ExprKind::Field { target, name } => if fuel > 0 {
            member_type(p, expr_type(p, *target, fuel), name@, false, (fuel - 1) as nat)
        } else {
            TypeV::Unknown
        },
        ExprKind::Call { callee, args } => if fuel > 0 {
            match callee.kind {
                ExprKind::Var(name) => name_type(p, name@, e.span.start as int, true, (fuel - 1) as nat),
                ExprKind::Field { target, name } => member_type(
                    p,
                    expr_type(p, *target, fuel),
                    name@,
                    true,
                    (fuel - 1) as nat,
                ),
                _ => TypeV::Unknown,
            }
        } else {
            TypeV::Unknown
        },
        _ => TypeV::Unknown,
    }
}

/// The type on which the returns among the first `n` statements agree.
pub open spec fn returns_in(p: Seq<Stmt>, ss: Seq<Stmt>, n: int, fuel: nat) -> Option<TypeV>
    decreases fuel, 1int, ss, n,
{
    if 0 < n <= ss.len() {
        agreed(returns_in(p, ss, n - 1, fuel), returns_by(p, ss[n - 1], fuel))
    } else {
        None
    }
}

/// The type on which the returns of a statement agree.
pub open spec fn returns_by(p: Seq<Stmt>, s: Stmt, fuel: nat) -> Option<TypeV>
    decreases fuel, 1int, s,
{
    match s.kind {
        StmtKind::Return(value) => match value {
            Some(e) => Some(expr_type(p, e, fuel)),
            None => Some(TypeV::Class("nil"@)),
        },
        StmtKind::If { cond, consequent, otherwise } => agreed(
            returns_in(p, consequent.stmts@, consequent.stmts@.len() as int, fuel),
            match otherwise {
                Some(other) => returns_by(p, *other, fuel),
                None => None,
            },
        ),
        StmtKind::While { cond, body } => returns_in(p, body.stmts@, body.stmts@.len() as int, fuel),
        StmtKind::For { var, iter, body } => returns_in(p, body.stmts@, body.stmts@.len() as int, fuel),
        StmtKind::Try { body, binding, handler } => agreed(
            returns_in(p, body.stmts@, body.stmts@.len() as int, fuel),
            returns_in(p, handler.stmts@, handler.stmts@.len() as int, fuel),
        ),
        StmtKind::Block(b) => returns_in(p, b.stmts@, b.stmts@.len() as int, fuel),
        _ => None,
    }
}

/// The type of what a function returns.
pub open spec fn fn_type(p: Seq<Stmt>, d: Rc<FnDecl>, fuel: nat) -> TypeV
    decreases fuel, 2int,
{
    match d.result {
        Some(t) => annotation(t),
        None => match returns_in(p, d.body.stmts@, d.body.stmts@.len() as int, fuel) {
            Some(t) => t,
            None => TypeV::Unknown,
        },
    }
}

/// The type of a value that may be annotated.
pub open spec fn bound_type(p: Seq<Stmt>, ty: Option<TypeExpr>, value: Option<Expr>, fuel: nat) -> TypeV
    decreases fuel, 2int,
{
    match ty {
        Some(t) => annotation(t),
        None => match value {
            Some(e) => expr_type(p, e, fuel),
            None => TypeV::Unknown,
        },
    }
}

/// The type of what a declaration holds, or of what a call of it returns.
pub open spec fn decl_type(p: Seq<Stmt>, d: DeclV, fuel: nat) -> TypeV
    decreases fuel, 3int,
{
    match d {
        DeclV::Let(s) => match s.kind {
            StmtKind::Let { name, name_span, ty, value, bind, visibility } => bound_type(p, ty, value, fuel),
            _ => TypeV::Unknown,
        },
        DeclV::Fn(d) => fn_type(p, d, fuel),
        DeclV::Class(d) => TypeV::Class(d.name@),
        DeclV::Module(m) => TypeV::Module(m),
        DeclV::Imported(m, n) => match named(module_members(m), n, 0) {
            Some(symbol) => symbol.ty,
            None => TypeV::Unknown,
        },
        DeclV::Param(param) => match param.ty {
            Some(t) => annotation(t),
            None => TypeV::Unknown,
        },
        DeclV::SelfOf(class) => TypeV::Class(class),
        DeclV::Loop(_) => TypeV::Unknown,
        DeclV::Caught(_) => TypeV::Class("Error"@),
        DeclV::Field(f) => bound_type(p, f.ty, f.value, fuel),
        DeclV::Assigned(_, e) => expr_type(p, e, fuel),
        DeclV::Method(d) => fn_type(p, d, fuel),
        DeclV::Native(n) => native_result(n),
        DeclV::Message => TypeV::Class("string"@),
        DeclV::MakesError => TypeV::Unknown,
    }
}

/// Whether a declaration is of something to be called.
pub open spec fn is_function(d: DeclV) -> bool {
    match d {
        DeclV::Fn(_) | DeclV::Method(_) | DeclV::Native(_) | DeclV::MakesError => true,
        DeclV::Imported(m, n) => match named(module_members(m), n, 0) {
            Some(symbol) => symbol.kind == Kind::Function,
            None => false,
        },
        _ => false,
    }
}

/// The type of a declared name, called or not.
pub open spec fn used_type(p: Seq<Stmt>, d: DeclV, called: bool, fuel: nat) -> TypeV
    decreases fuel, 4int,
{
    if called {
        if is_function(d) || d is Class {
            decl_type(p, d, fuel)
        } else {
            TypeV::Unknown
        }
    } else if is_function(d) {
        TypeV::Class("function"@)
    } else {
        decl_type(p, d, fuel)
    }
}

/// The type of a symbol born with the language, called or not.
pub open spec fn born_type(symbol: Option<SymbolV>, called: bool) -> TypeV {
    match symbol {
        Some(symbol) => if called {
            if symbol.kind == Kind::Function || symbol.kind == Kind::Class {
                symbol.ty
            } else {
                TypeV::Unknown
            }
        } else if symbol.kind == Kind::Function {
            TypeV::Class("function"@)
        } else {
            symbol.ty
        },
        None => TypeV::Unknown,
    }
}

/// The type of a name at a place, called or not.
pub open spec fn name_type(p: Seq<Stmt>, name: Seq<char>, at: int, called: bool, fuel: nat) -> TypeV
    decreases fuel, 5int,
{
    match seen(p, name, at) {
        Some(d) => used_type(p, d, called, fuel),
        None => born_type(named(global_symbols(), name, 0), called),
    }
}

/// The type of a member of a value of a type, called or not.
pub open spec fn member_type(p: Seq<Stmt>, t: TypeV, name: Seq<char>, called: bool, fuel: nat) -> TypeV
    decreases fuel, 5int,
{
    match t {
        TypeV::Class(class) => match member(p, class, name) {
            Some(d) => used_type(p, d, called, fuel),
            None => TypeV::Unknown,
        },
        TypeV::Module(m) => born_type(named(module_members(m), name, 0), called),
        TypeV::Unknown => TypeV::Unknown,
    }
}

fn annotation_of(t: &TypeExpr) -> (r: Type)
    ensures
        r@ == annotation(*t),
{
    match &t.name {
        TypeName::Named(name) => if t.nullable {
            Type::Unknown
        } else {
            class_type(name.as_str())
        },
        _ => Type::Unknown,
    }
}

fn is_class_of(t: &Type, name: &str) -> (r: bool)
    ensures
        r == is_class(t@, name@),
{
    match t {
        Type::Class(own) => same(own.as_str(), name),
        _ => false,
    }
}

fn is_number_of(t: &Type) -> (r: bool)
    ensures
        r == is_number(t@),
{
    is_class_of(t, "int") || is_class_of(t, "float")
}

fn binary_type_of(op: BinaryOp, a: &Type, b: &Type) -> (r: Type)
    ensures
        r@ == binary_type(op, a@, b@),
{
    match op {
        BinaryOp::Eq | BinaryOp::Ne | BinaryOp::Lt | BinaryOp::Le | BinaryOp::Gt | BinaryOp::Ge | BinaryOp::In => {
            class_type("bool")
        },
        BinaryOp::Add | BinaryOp::Sub | BinaryOp::Mul => if is_class_of(a, "int") && is_class_of(b, "int") {
            class_type("int")
        } else if is_number_of(a) && is_number_of(b) {
            class_type("float")
        } else if op == BinaryOp::Add && is_class_of(a, "string") && is_class_of(b, "string") {
            class_type("string")
        } else {
            Type::Unknown
        },
        BinaryOp::Div => if is_number_of(a) && is_number_of(b) {
            class_type("float")
        } else {
            Type::Unknown
        },
        _ => Type::Unknown,
    }
}

fn unary_type_of(op: UnaryOp, a: Type) -> (r: Type)
    ensures
        r@ == unary_type(op, a@),
{
    match op {
        UnaryOp::Not => class_type("bool"),
        UnaryOp::Neg => if is_number_of(&a) {
            a
        } else {
            Type::Unknown
        },
        UnaryOp::BitNot => if is_class_of(&a, "int") {
            a
        } else {
            Type::Unknown
        },
    }
}

pub open spec fn opt_type(t: Option<Type>) -> Option<TypeV> {
    match t {
        Some(t) => Some(t@),
        None => None,
    }
}

fn same_type(a: &Type, b: &Type) -> (r: bool)
    ensures
        r == (a@ == b@),
{
    match (a, b) {
        (Type::Unknown, Type::Unknown) => true,
        (Type::Class(x), Type::Class(y)) => same(x.as_str(), y.as_str()),
        (Type::Module(x), Type::Module(y)) => same(x.as_str(), y.as_str()),
        _ => false,
    }
}

fn agree(a: Option<Type>, b: Option<Type>) -> (r: Option<Type>)
    ensures
        opt_type(r) == agreed(opt_type(a), opt_type(b)),
{
    match a {
        None => b,
        Some(x) => match b {
            None => Some(x),
            Some(y) => if same_type(&x, &y) {
                Some(x)
            } else {
                Some(Type::Unknown)
            },
        },
    }
}

fn type_of_expr(p: &Vec<Stmt>, e: &Expr, fuel: usize) -> (r: Type)
    ensures
        r@ == expr_type(p@, *e, fuel as nat),
    decreases fuel, 0int, e,
{
    match &e.kind {
        ExprKind::Int(_) => class_type("int"),
        ExprKind::Float(_) => class_type("float"),
        ExprKind::Str(_) => class_type("string"),
        ExprKind::Bool(_) => class_type("bool"),
        ExprKind::Nil => class_type("nil"),
        ExprKind::List(_) => class_type("list"),
        ExprKind::Dict(_) => class_type("dict"),
        ExprKind::Is { .. } => class_type("bool"),
        ExprKind::Unary { op, rhs } => {
            let a = type_of_expr(p, rhs, fuel);
            unary_type_of(*op, a)
        },
        ExprKind::Binary { op, lhs, rhs } => {
            let a = type_of_expr(p, lhs, fuel);
            let b = type_of_expr(p, rhs, fuel);
            binary_type_of(*op, &a, &b)
        },
        ExprKind::Var(name) => if fuel > 0 {
            type_of_name(p, name.as_str(), e.span.start, false, fuel - 1)
        } else {
            Type::Unknown
        },
        ExprKind::Field { target, name } => if fuel > 0 {
            let t = type_of_expr(p, target, fuel);
            type_of_member(p, &t, name.as_str(), false, fuel - 1)
        } else {
            Type::Unknown
        },
        ExprKind::Call { callee, args } => if fuel > 0 {
            match &callee.kind {
                ExprKind::Var(name) => type_of_name(p, name.as_str(), e.span.start, true, fuel - 1),
                ExprKind::Field { target, name } => {
                    let t = type_of_expr(p, target, fuel);
                    type_of_member(p, &t, name.as_str(), true, fuel - 1)
                },
                _ => Type::Unknown,
            }
        } else {
            Type::Unknown
        },
        _ => Type::Unknown,
    }
}

fn returned_in(p: &Vec<Stmt>, ss: &Vec<Stmt>, fuel: usize) -> (r: Option<Type>)
    ensures
        opt_type(r) == returns_in(p@, ss@, ss@.len() as int, fuel as nat),
    decreases fuel, 1int, ss@,
{
    let mut r: Option<Type> = None;
    let mut i: usize = 0;
    while i < ss.len()
        invariant
            i <= ss@.len(),
            opt_type(r) == returns_in(p@, ss@, i as int, fuel as nat),
        decreases ss@.len() - i,
    {
        let next = returned_by(p, &ss[i], fuel);
        r = agree(r, next);
        i += 1;
        assert(returns_in(p@, ss@, i as int, fuel as nat) == agreed(
            returns_in(p@, ss@, i - 1, fuel as nat),
            returns_by(p@, ss@[i - 1], fuel as nat),
        ));
    }
    r
}

fn returned_by(p: &Vec<Stmt>, s: &Stmt, fuel: usize) -> (r: Option<Type>)
    ensures
        opt_type(r) == returns_by(p@, *s, fuel as nat),
    decreases fuel, 1int, s,
{
    match &s.kind {
        StmtKind::Return(value) => match value {
            Some(e) => Some(type_of_expr(p, e, fuel)),
            None => Some(class_type("nil")),
        },
        StmtKind::If { cond, consequent, otherwise } => {
            let a = returned_in(p, &consequent.stmts, fuel);
            let b = match otherwise {
                Some(other) => returned_by(p, other, fuel),
                None => None,
            };
            agree(a, b)
        },
        StmtKind::While { cond, body } => returned_in(p, &body.stmts, fuel),
        StmtKind::For { var, iter, body } => returned_in(p, &body.stmts, fuel),
        StmtKind::Try { body, binding, handler } => {
            let a = returned_in(p, &body.stmts, fuel);
            let b = returned_in(p, &handler.stmts, fuel);
            agree(a, b)
        },
        StmtKind::Block(b) => returned_in(p, &b.stmts, fuel),
        _ => None,
    }
}

fn type_of_fn(p: &Vec<Stmt>, d: &Rc<FnDecl>, fuel: usize) -> (r: Type)
    ensures
        r@ == fn_type(p@, *d, fuel as nat),
    decreases fuel, 2int,
{
    match &d.result {
        Some(t) => annotation_of(t),
        None => match returned_in(p, &d.body.stmts, fuel) {
            Some(t) => t,
            None => Type::Unknown,
        },
    }
}

fn type_of_bound(p: &Vec<Stmt>, ty: &Option<TypeExpr>, value: &Option<Expr>, fuel: usize) -> (r: Type)
    ensures
        r@ == bound_type(p@, *ty, *value, fuel as nat),
    decreases fuel, 2int,
{
    match ty {
        Some(t) => annotation_of(t),
        None => match value {
            Some(e) => type_of_expr(p, e, fuel),
            None => Type::Unknown,
        },
    }
}

fn module_member(module: &str, name: &str) -> (r: Option<Symbol>)
    ensures
        opt_symbol(r) == named(module_members(module@), name@, 0),
{
    let all = module_symbols(module);
    take_named(all, name)
}

fn type_of_decl<'a>(p: &Vec<Stmt>, d: &Decl<'a>, fuel: usize) -> (r: Type)
    ensures
        r@ == decl_type(p@, d@, fuel as nat),
    decreases fuel, 3int,
{
    match d {
        Decl::Let(s) => match &s.kind {
            StmtKind::Let { name, name_span, ty, value, bind, visibility } => type_of_bound(p, ty, value, fuel),
            _ => Type::Unknown,
        },
        Decl::Fn(d) => type_of_fn(p, d, fuel),
        Decl::Class(d) => class_type(d.name.as_str()),
        Decl::Module(m) => Type::Module((*m).to_owned()),
        Decl::Imported(m, n) => match module_member(m, n) {
            Some(symbol) => symbol.ty,
            None => Type::Unknown,
        },
        Decl::Param(param) => match &param.ty {
            Some(t) => annotation_of(t),
            None => Type::Unknown,
        },
        Decl::SelfOf(class) => class_type(class),
        Decl::Loop(_) => Type::Unknown,
        Decl::Caught(_) => class_type("Error"),
        Decl::Field(f) => type_of_bound(p, &f.ty, &f.value, fuel),
        Decl::Assigned(_, e) => type_of_expr(p, e, fuel),
        Decl::Method(d) => type_of_fn(p, d, fuel),
        Decl::Native(n) => native_result_of(*n),
        Decl::Message => class_type("string"),
        Decl::MakesError => Type::Unknown,
    }
}

fn is_fn<'a>(d: &Decl<'a>) -> (r: bool)
    ensures
        r == is_function(d@),
{
    match d {
        Decl::Fn(_) | Decl::Method(_) | Decl::Native(_) | Decl::MakesError => true,
        Decl::Imported(m, n) => match module_member(m, n) {
            Some(symbol) => symbol.kind == Kind::Function,
            None => false,
        },
        _ => false,
    }
}

fn is_class_decl<'a>(d: &Decl<'a>) -> (r: bool)
    ensures
        r == (d@ is Class),
{
    match d {
        Decl::Class(_) => true,
        _ => false,
    }
}

fn type_of_used<'a>(p: &Vec<Stmt>, d: &Decl<'a>, called: bool, fuel: usize) -> (r: Type)
    ensures
        r@ == used_type(p@, d@, called, fuel as nat),
    decreases fuel, 4int,
{
    if called {
        if is_fn(d) || is_class_decl(d) {
            type_of_decl(p, d, fuel)
        } else {
            Type::Unknown
        }
    } else if is_fn(d) {
        class_type("function")
    } else {
        type_of_decl(p, d, fuel)
    }
}

fn type_of_born(symbol: Option<Symbol>, called: bool) -> (r: Type)
    ensures
        r@ == born_type(opt_symbol(symbol), called),
{
    match symbol {
        Some(symbol) => if called {
            if symbol.kind == Kind::Function || symbol.kind == Kind::Class {
                symbol.ty
            } else {
                Type::Unknown
            }
        } else if symbol.kind == Kind::Function {
            class_type("function")
        } else {
            symbol.ty
        },
        None => Type::Unknown,
    }
}

fn type_of_name(p: &Vec<Stmt>, name: &str, at: usize, called: bool, fuel: usize) -> (r: Type)
    ensures
        r@ == name_type(p@, name@, at as int, called, fuel as nat),
    decreases fuel, 5int,
{
    match find_seen(p, name, at) {
        Some(d) => type_of_used(p, &d, called, fuel),
        None => {
            let all = globals();
            type_of_born(take_named(all, name), called)
        },
    }
}

fn type_of_member(p: &Vec<Stmt>, t: &Type, name: &str, called: bool, fuel: usize) -> (r: Type)
    ensures
        r@ == member_type(p@, t@, name@, called, fuel as nat),
    decreases fuel, 5int,
{
    match t {
        Type::Class(class) => match find_member(p, class.as_str(), name) {
            Some(d) => type_of_used(p, &d, called, fuel),
            None => Type::Unknown,
        },
        Type::Module(m) => type_of_born(module_member(m.as_str(), name), called),
        Type::Unknown => Type::Unknown,
    }
}

// -- symbols ---------------------------------------------------------------------------------------------------------

/// What kind of thing a declaration declares.
pub open spec fn decl_kind(d: DeclV) -> Kind {
    match d {
        DeclV::Fn(_) => Kind::Function,
        DeclV::Class(_) => Kind::Class,
        DeclV::Module(_) => Kind::Module,
        DeclV::Param(_) => Kind::Parameter,
        DeclV::Field(_) | DeclV::Assigned(_, _) | DeclV::Message => Kind::Field,
        DeclV::Method(_) | DeclV::Native(_) | DeclV::MakesError => Kind::Method,
        _ => Kind::Variable,
    }
}

/// The names of what a declaration takes, where it can be called.
pub open spec fn decl_params(d: DeclV) -> Seq<Seq<char>> {
    match d {
        DeclV::Fn(d) => param_names(d.params@, true, d.params@.len() as int),
        DeclV::Method(d) => param_names(d.params@, true, d.params@.len() as int),
        DeclV::MakesError => seq!["message"@],
        _ => Seq::empty(),
    }
}

/// How a declaration binds its name, where it is said.
pub open spec fn decl_bind(d: DeclV) -> Option<Bind> {
    match d {
        DeclV::Let(s) => match s.kind {
            StmtKind::Let { name, name_span, ty, value, bind, visibility } => Some(bind),
            _ => None,
        },
        DeclV::Field(f) => Some(f.bind),
        _ => None,
    }
}

/// Who may reach what a declaration declares.
pub open spec fn decl_visibility(d: DeclV) -> Visibility {
    match d {
        DeclV::Let(s) => match s.kind {
            StmtKind::Let { name, name_span, ty, value, bind, visibility } => visibility,
            _ => Visibility::Unsaid,
        },
        DeclV::Fn(d) => d.visibility,
        DeclV::Method(d) => d.visibility,
        DeclV::Class(d) => d.visibility,
        DeclV::Field(f) => f.visibility,
        _ => Visibility::Unsaid,
    }
}

/// What is known of what a declaration declares.
pub open spec fn symbol_of(cs: Seq<char>, p: Seq<Stmt>, d: DeclV) -> SymbolV {
    match d {
        DeclV::Native(n) => native_symbol(Kind::Method, n),
        DeclV::Imported(m, n) => match named(module_members(m), n, 0) {
            Some(symbol) => symbol,
            None => plain_symbol(cs, p, d),
        },
        _ => plain_symbol(cs, p, d),
    }
}

/// What is known of what a program declares itself.
pub open spec fn plain_symbol(cs: Seq<char>, p: Seq<Stmt>, d: DeclV) -> SymbolV {
    SymbolV {
        name: d.name(),
        kind: decl_kind(d),
        params: decl_params(d),
        ty: decl_type(p, d, REACH as nat),
        bind: decl_bind(d),
        visibility: decl_visibility(d),
        doc: documented(cs, d),
    }
}

fn kind_of_decl<'a>(d: &Decl<'a>) -> (r: Kind)
    ensures
        r == decl_kind(d@),
{
    match d {
        Decl::Fn(_) => Kind::Function,
        Decl::Class(_) => Kind::Class,
        Decl::Module(_) => Kind::Module,
        Decl::Param(_) => Kind::Parameter,
        Decl::Field(_) | Decl::Assigned(_, _) | Decl::Message => Kind::Field,
        Decl::Method(_) | Decl::Native(_) | Decl::MakesError => Kind::Method,
        _ => Kind::Variable,
    }
}

fn params_of_decl<'a>(d: &Decl<'a>) -> (r: Vec<String>)
    ensures
        strs(r@) == decl_params(d@),
{
    match d {
        Decl::Fn(d) => param_names_of(&d.params, true),
        Decl::Method(d) => param_names_of(&d.params, true),
        Decl::MakesError => {
            let r: Vec<String> = vec!["message".to_owned()];
            assert(strs(r@) =~= seq!["message"@]);
            r
        },
        _ => {
            let r: Vec<String> = Vec::new();
            assert(strs(r@) =~= Seq::empty());
            r
        },
    }
}

fn bind_of_decl<'a>(d: &Decl<'a>) -> (r: Option<Bind>)
    ensures
        r == decl_bind(d@),
{
    match d {
        Decl::Let(s) => match &s.kind {
            StmtKind::Let { name, name_span, ty, value, bind, visibility } => Some(*bind),
            _ => None,
        },
        Decl::Field(f) => Some(f.bind),
        _ => None,
    }
}

fn visibility_of_decl<'a>(d: &Decl<'a>) -> (r: Visibility)
    ensures
        r == decl_visibility(d@),
{
    match d {
        Decl::Let(s) => match &s.kind {
            StmtKind::Let { name, name_span, ty, value, bind, visibility } => *visibility,
            _ => Visibility::Unsaid,
        },
        Decl::Fn(d) => d.visibility,
        Decl::Method(d) => d.visibility,
        Decl::Class(d) => d.visibility,
        Decl::Field(f) => f.visibility,
        _ => Visibility::Unsaid,
    }
}

fn plain_symbol_of<'a>(source: &str, p: &Vec<Stmt>, d: &Decl<'a>) -> (r: Symbol)
    ensures
        r@ == plain_symbol(source@, p@, d@),
{
    Symbol {
        name: d.name().to_owned(),
        kind: kind_of_decl(d),
        params: params_of_decl(d),
        ty: type_of_decl(p, d, REACH),
        bind: bind_of_decl(d),
        visibility: visibility_of_decl(d),
        doc: doc_of(source, d),
    }
}

fn make_symbol<'a>(source: &str, p: &Vec<Stmt>, d: &Decl<'a>) -> (r: Symbol)
    ensures
        r@ == symbol_of(source@, p@, d@),
{
    match d {
        Decl::Native(n) => native_symbol_of(Kind::Method, *n),
        Decl::Imported(m, n) => match module_member(m, n) {
            Some(symbol) => symbol,
            None => plain_symbol_of(source, p, d),
        },
        _ => plain_symbol_of(source, p, d),
    }
}

/// What is known of the first `n` of some declarations.
pub open spec fn symbols_of(cs: Seq<char>, p: Seq<Stmt>, ds: Seq<DeclV>, n: int) -> Seq<SymbolV>
    decreases n,
{
    if 0 < n <= ds.len() {
        symbols_of(cs, p, ds, n - 1).push(symbol_of(cs, p, ds[n - 1]))
    } else {
        Seq::empty()
    }
}

fn make_symbols<'a>(source: &str, p: &Vec<Stmt>, ds: &Vec<Decl<'a>>) -> (r: Vec<Symbol>)
    ensures
        symbols_v(r@) == symbols_of(source@, p@, decls_v(ds@), ds@.len() as int),
{
    let mut out: Vec<Symbol> = Vec::new();
    let ghost all = decls_v(ds@);
    let mut i: usize = 0;
    assert(symbols_v(out@) =~= Seq::empty());
    while i < ds.len()
        invariant
            i <= ds@.len(),
            all == decls_v(ds@),
            symbols_v(out@) == symbols_of(source@, p@, all, i as int),
        decreases ds@.len() - i,
    {
        let ghost before = symbols_v(out@);
        assert(all[i as int] == ds@[i as int]@);
        out.push(make_symbol(source, p, &ds[i]));
        assert(symbols_v(out@) =~= before.push(symbol_of(source@, p@, all[i as int])));
        i += 1;
    }
    out
}

// -- the class around a place -----------------------------------------------------------------------------------------

/// The class that a place stands in, among the first `n` statements.
pub open spec fn class_around(p: Seq<Stmt>, at: int, n: int) -> Option<Seq<char>>
    decreases n,
{
    if n <= 0 || n > p.len() {
        None
    } else if !inside(p[n - 1].span, at) {
        class_around(p, at, n - 1)
    } else {
        match p[n - 1].kind {
            StmtKind::Class(d) => Some(d.name@),
            StmtKind::Extend { target, target_span, methods } => Some(target@),
            _ => class_around(p, at, n - 1),
        }
    }
}

/// The class that a class extends.
pub open spec fn parent_of(p: Seq<Stmt>, class: Seq<char>, n: int) -> Option<Seq<char>>
    decreases n,
{
    if n <= 0 || n > p.len() {
        None
    } else {
        match p[n - 1].kind {
            StmtKind::Class(d) => if d.name@ == class {
                match d.parent {
                    Some(parent) => Some(parent@),
                    None => None,
                }
            } else {
                parent_of(p, class, n - 1)
            },
            _ => parent_of(p, class, n - 1),
        }
    }
}

/// Whether a class is another one, or extends it through as many as `depth` classes.
pub open spec fn extends_class(p: Seq<Stmt>, class: Seq<char>, other: Seq<char>, depth: nat) -> bool
    decreases depth,
{
    class == other || (depth > 0 && match parent_of(p, class, p.len() as int) {
        Some(parent) => extends_class(p, parent, other, (depth - 1) as nat),
        None => false,
    })
}

/// Whether a member may be offered from inside a class, or from outside every class: a
/// private one inside its own class alone, a protected one inside those that extend it too.
pub open spec fn may_be_offered(p: Seq<Stmt>, visibility: Visibility, class: Seq<char>, around: Option<Seq<char>>) -> bool {
    match visibility {
        Visibility::Private => around == Some(class),
        Visibility::Protected => match around {
            Some(around) => extends_class(p, around, class, p.len()),
            None => false,
        },
        _ => true,
    }
}

fn find_parent(p: &Vec<Stmt>, class: &str) -> (r: Option<String>)
    ensures
        opt_text(r) == parent_of(p@, class@, p@.len() as int),
{
    let mut n: usize = p.len();
    while n > 0
        invariant
            n <= p@.len(),
            parent_of(p@, class@, p@.len() as int) == parent_of(p@, class@, n as int),
        decreases n,
    {
        if let StmtKind::Class(d) = &p[n - 1].kind {
            if same(d.name.as_str(), class) {
                return match &d.parent {
                    Some(parent) => Some(parent.as_str().to_owned()),
                    None => None,
                };
            }
        }
        n -= 1;
    }
    None
}

fn is_extending(p: &Vec<Stmt>, class: &str, other: &str, depth: usize) -> (r: bool)
    ensures
        r == extends_class(p@, class@, other@, depth as nat),
    decreases depth,
{
    if same(class, other) {
        return true;
    }
    if depth == 0 {
        return false;
    }
    match find_parent(p, class) {
        Some(parent) => is_extending(p, parent.as_str(), other, depth - 1),
        None => false,
    }
}

// -- the pass ----------------------------------------------------------------------------------------------------------

/// What is known of a program.
#[derive(Debug)]
pub struct Types {
    pub program: Rc<Vec<Stmt>>,
    /// The text the program was read from.
    pub text: Rc<String>,
}

/// A call behind a name in a path.
pub open spec fn is_call(part: Seq<char>) -> bool {
    part.len() >= 2 && part[part.len() - 2] == '(' && part[part.len() - 1] == ')'
}

/// A part of a path without the call behind it.
pub open spec fn part_name(part: Seq<char>) -> Seq<char> {
    if is_call(part) {
        part.take(part.len() - 2)
    } else {
        part
    }
}

/// The type of the first part of a path at a place.
pub open spec fn first_type(p: Seq<Stmt>, part: Seq<char>, at: int) -> TypeV {
    let name = part_name(part);
    if name == "super"@ && !is_call(part) {
        match class_around(p, at, p.len() as int) {
            Some(class) => match parent_of(p, class, p.len() as int) {
                Some(parent) => TypeV::Class(parent),
                None => TypeV::Unknown,
            },
            None => TypeV::Unknown,
        }
    } else {
        name_type(p, name, at, is_call(part), REACH as nat)
    }
}

/// The type of the first `n` parts of a path at a place.
pub open spec fn path_type(p: Seq<Stmt>, parts: Seq<Seq<char>>, at: int, n: int) -> TypeV
    decreases n,
{
    if n <= 0 || n > parts.len() {
        TypeV::Unknown
    } else if n == 1 {
        first_type(p, parts[0], at)
    } else {
        member_type(
            p,
            path_type(p, parts, at, n - 1),
            part_name(parts[n - 1]),
            is_call(parts[n - 1]),
            REACH as nat,
        )
    }
}

/// The parts of a path.
pub open spec fn path_parts(path: Seq<char>) -> Seq<Seq<char>> {
    crate::text::pieces(path, "."@, 0)
}

/// The type of a path of names at a place.
pub open spec fn type_of_path(p: Seq<Stmt>, path: Seq<char>, at: int) -> TypeV {
    path_type(p, path_parts(path), at, path_parts(path).len() as int)
}

/// Whether a path at a place names a class itself, rather than a value of it.
pub open spec fn class_path(p: Seq<Stmt>, path: Seq<char>, at: int) -> bool {
    match seen(p, path, at) {
        Some(d) => d is Class,
        None => match named(global_symbols(), path, 0) {
            Some(symbol) => symbol.kind == Kind::Class,
            None => false,
        },
    }
}

/// What is known of a name at a place.
pub open spec fn symbol_seen(cs: Seq<char>, p: Seq<Stmt>, name: Seq<char>, at: int) -> Option<SymbolV> {
    match seen(p, name, at) {
        Some(d) => Some(symbol_of(cs, p, d)),
        None => None,
    }
}

fn split_call(part: &str) -> (r: (String, bool))
    ensures
        r.0@ == part_name(part@),
        r.1 == is_call(part@),
{
    let cs = crate::text::chars_of(part);
    let n: usize = cs.len();
    if n >= 2 && cs[n - 2] == '(' && cs[n - 1] == ')' {
        let name = crate::text::string_of(&cs, 0, n - 2);
        assert(name@ =~= part@.take(part@.len() - 2));
        (name, true)
    } else {
        (part.to_owned(), false)
    }
}

impl Types {
    /// What the program declares, seen from a place.
    pub fn in_scope(&self, at: usize) -> (r: Vec<Symbol>)
        ensures
            symbols_v(r@) == symbols_of(
                self.text@,
                self.program@,
                scope(self.program@, at as int, self.program@.len() as int),
                scope(self.program@, at as int, self.program@.len() as int).len() as int,
            ),
    {
        let p: &Vec<Stmt> = &self.program;
        let mut ds: Vec<Decl> = Vec::new();
        assert(decls_v(ds@) =~= Seq::empty());
        collect_scope(p, at, &mut ds);
        assert(decls_v(ds@) =~= scope(p@, at as int, p@.len() as int));
        make_symbols(self.text.as_str(), p, &ds)
    }

    /// What is known of a name at a place.
    pub fn symbol(&self, name: &str, at: usize) -> (r: Option<Symbol>)
        ensures
            opt_symbol(r) == symbol_seen(self.text@, self.program@, name@, at as int),
    {
        let p: &Vec<Stmt> = &self.program;
        match find_seen(p, name, at) {
            Some(d) => Some(make_symbol(self.text.as_str(), p, &d)),
            None => None,
        }
    }

    /// The type of a name at a place.
    pub fn of_name(&self, name: &str, at: usize) -> (r: Type)
        ensures
            r@ == name_type(self.program@, name@, at as int, false, REACH as nat),
    {
        let p: &Vec<Stmt> = &self.program;
        type_of_name(p, name, at, false, REACH)
    }

    /// The type of an expression of the program.
    pub fn of_expr(&self, e: &Expr) -> (r: Type)
        ensures
            r@ == expr_type(self.program@, *e, REACH as nat),
    {
        let p: &Vec<Stmt> = &self.program;
        type_of_expr(p, e, REACH)
    }

    /// The type of a path of names at a place.
    pub fn of_path(&self, path: &str, at: usize) -> (r: Type)
        ensures
            r@ == type_of_path(self.program@, path@, at as int),
    {
        let p: &Vec<Stmt> = &self.program;
        proof {
            reveal_strlit(".");
        }
        let parts = crate::text::split(path, ".");
        let ghost all = path_parts(path@);
        assert(all.len() == parts@.len());
        if parts.len() == 0 {
            return Type::Unknown;
        }
        assert(all[0] == parts@[0]@);
        let first = split_call(parts[0].as_str());
        let mut t: Type = if same(first.0.as_str(), "super") && !first.1 {
            match self.class_at(at) {
                Some(class) => match find_parent(p, class.as_str()) {
                    Some(parent) => Type::Class(parent),
                    None => Type::Unknown,
                },
                None => Type::Unknown,
            }
        } else {
            type_of_name(p, first.0.as_str(), at, first.1, REACH)
        };
        let mut i: usize = 1;
        while i < parts.len()
            invariant
                1 <= i <= parts@.len(),
                p@ == self.program@,
                all == strs(parts@),
                t@ == path_type(p@, all, at as int, i as int),
            decreases parts@.len() - i,
        {
            assert(all[i as int] == parts@[i as int]@);
            let next = split_call(parts[i].as_str());
            t = type_of_member(p, &t, next.0.as_str(), next.1, REACH);
            i += 1;
        }
        t
    }

    /// Whether a path at a place names a class itself.
    pub fn names_a_class(&self, path: &str, at: usize) -> (r: bool)
        ensures
            r == class_path(self.program@, path@, at as int),
    {
        let p: &Vec<Stmt> = &self.program;
        match find_seen(p, path, at) {
            Some(d) => is_class_decl(&d),
            None => {
                let all = globals();
                match take_named(all, path) {
                    Some(symbol) => symbol.kind == Kind::Class,
                    None => false,
                }
            },
        }
    }

    /// The class that a place stands in.
    pub fn class_at(&self, at: usize) -> (r: Option<String>)
        ensures
            opt_text(r) == class_around(self.program@, at as int, self.program@.len() as int),
    {
        let p: &Vec<Stmt> = &self.program;
        let mut n: usize = p.len();
        while n > 0
            invariant
                n <= p@.len(),
                p@ == self.program@,
                class_around(p@, at as int, p@.len() as int) == class_around(p@, at as int, n as int),
            decreases n,
        {
            if is_inside(p[n - 1].span, at) {
                match &p[n - 1].kind {
                    StmtKind::Class(d) => return Some(d.name.as_str().to_owned()),
                    StmtKind::Extend { target, target_span, methods } => return Some(target.as_str().to_owned()),
                    _ => {},
                }
            }
            n -= 1;
        }
        None
    }

    /// The members of a class.
    pub fn members_of(&self, class: &str) -> (r: Vec<Symbol>)
        ensures
            symbols_v(r@) == symbols_of(
                self.text@,
                self.program@,
                members(self.program@, class@, self.program@.len()),
                members(self.program@, class@, self.program@.len()).len() as int,
            ),
    {
        let p: &Vec<Stmt> = &self.program;
        let ds = collect_members(p, class, p.len());
        assert(decls_v(ds@).len() == ds@.len());
        make_symbols(self.text.as_str(), p, &ds)
    }

    /// Whether a member may be offered from inside a class, or from outside every class.
    pub fn may_offer(&self, visibility: Visibility, class: &str, around: Option<&str>) -> (r: bool)
        ensures
            r == may_be_offered(
                self.program@,
                visibility,
                class@,
                match around { Some(a) => Some(a@), None => None },
            ),
    {
        let p: &Vec<Stmt> = &self.program;
        match visibility {
            Visibility::Private => match around {
                Some(around) => same(around, class),
                None => false,
            },
            Visibility::Protected => match around {
                Some(around) => is_extending(p, around, class, p.len()),
                None => false,
            },
            _ => true,
        }
    }
}

} // verus!
