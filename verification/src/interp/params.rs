//! Type arguments: what a construction binds its class's parameters to, and what an
//! instance's methods read them as.

use crate::error::{err_help, res, ErrV, ErrorKind, QuinceError};
use crate::interp::error::{helped_type_error, plain_type_error, plural, plural_of};
use crate::interp::fit::class_named;
use crate::interp::generic::{bound, find_pack, pack_at, packed};
use crate::interp::state::{bindings_v, s_text, Binding, BindingV, Interp, St};
use crate::runtime::class::{descends_named, type_text};
use crate::runtime::heap::{Heap, HeapV};
use crate::runtime::object::opt_ty;
use crate::runtime::scope::{holder, var_of};
use crate::runtime::types::{an, arg_at, top, top_type, with_article, written};
use crate::runtime::value::{ObjId, Value};
use crate::syntax::ast::{
    class_decl_v, expr_kind_v, expr_v, group_models, type_expr_v, type_exprs_v, type_param_v,
    type_params_v, ConstArg, ConstArgV, Expr, ExprKind, ExprKindV, ExprV, ParamKind, ParamKindV,
    TypeExpr, TypeExprV, TypeName, TypeNameV, TypeParam, TypeParamV,
};
use crate::syntax::parser::opt_type;
use crate::syntax::token::Span;
use crate::text::{
    cat2, cat3, cat4, cat5, cat6, digits, digits_of, join, joined, lemma_strs_push, same, strs,
};
use std::rc::Rc;
use vstd::prelude::*;

verus! {

broadcast use {group_models, lemma_strs_push};

// -- what parameters are bound to --------------------------------------------------------

/// The bindings of the method that is running.
pub open spec fn current(st: St) -> Seq<BindingV> {
    if st.bindings.len() > 0 {
        st.bindings.last()
    } else {
        Seq::empty()
    }
}

/// The type parameters of a class.
pub open spec fn type_params(h: HeapV, class: ObjId) -> Seq<TypeParamV> {
    match h.class(class).decl {
        Some(decl) => decl.params,
        None => Seq::empty(),
    }
}

/// What one parameter is bound to by a description. A parameter nothing was given for
/// is unconstrained, and a pack takes what is left.
pub open spec fn bound_to(param: TypeParamV, header: Option<TypeExprV>, i: int) -> Option<TypeExprV> {
    let args = match header {
        Some(ty) => ty.args,
        None => Seq::empty(),
    };
    if param.kind == ParamKindV::Pack {
        if header is Some && i <= args.len() {
            Some(packed(args.skip(i)))
        } else {
            None
        }
    } else {
        Some(arg_at(args, i))
    }
}

/// What the first `n` parameters are bound to.
pub open spec fn bound_params(params: Seq<TypeParamV>, header: Option<TypeExprV>, n: int) -> Seq<
    BindingV,
>
    decreases n,
{
    if n <= 0 || n > params.len() {
        Seq::empty()
    } else {
        let before = bound_params(params, header, n - 1);
        match bound_to(params[n - 1], header, n - 1) {
            Some(ty) => before.push(BindingV { name: params[n - 1].name, ty }),
            None => before,
        }
    }
}

/// What an instance's class's parameters are bound to on it.
pub open spec fn bindings_for(h: HeapV, instance: ObjId) -> Seq<BindingV> {
    let params = type_params(h, h.instance(instance).class);
    bound_params(params, h.descriptor(instance), params.len() as int)
}

pub open spec fn bindings_of(h: HeapV, receiver: Value) -> Seq<BindingV> {
    match receiver {
        Value::Instance(id) => bindings_for(h, id),
        _ => Seq::empty(),
    }
}

fn copy_from(args: &Vec<TypeExpr>, from: usize) -> (r: Vec<TypeExpr>)
    requires
        from <= args@.len(),
    ensures
        type_exprs_v(r@) == type_exprs_v(args@).skip(from as int),
{
    let ghost all = type_exprs_v(args@).skip(from as int);
    let mut r: Vec<TypeExpr> = Vec::new();
    let mut i: usize = from;
    assert(type_exprs_v(r@) =~= all.take(0));
    while i < args.len()
        invariant
            from <= i <= args@.len(),
            all == type_exprs_v(args@).skip(from as int),
            type_exprs_v(r@) == all.take(i - from),
        decreases args@.len() - i,
    {
        let one = args[i].copied();
        r.push(one);
        assert(type_exprs_v(r@) =~= all.take(i + 1 - from));
        i += 1;
    }
    assert(all.take(i - from) =~= all);
    r
}

fn pack_of(args: Vec<TypeExpr>) -> (r: TypeExpr)
    ensures
        r@ == packed(type_exprs_v(args@)),
{
    let r = TypeExpr {
        name: TypeName::Named("tuple".to_owned()),
        args,
        applied: true,
        nullable: false,
        frozen: false,
        span: Span { start: 0, end: 0 },
    };
    assert(r@.args == type_exprs_v(r.args@));
    r
}

fn bind_one(param: &TypeParam, header: &Option<Rc<TypeExpr>>, i: usize) -> (r: Option<TypeExpr>)
    ensures
        opt_type(r) == bound_to(type_param_v(*param), opt_ty(*header), i as int),
{
    let is_pack = match &param.kind {
        ParamKind::Pack => true,
        _ => false,
    };
    match header {
        Some(ty) => {
            assert(type_expr_v(**ty).args == type_exprs_v(ty.args@));
            if is_pack {
                if i <= ty.args.len() {
                    Some(pack_of(copy_from(&ty.args, i)))
                } else {
                    None
                }
            } else if i < ty.args.len() {
                Some(ty.args[i].copied())
            } else {
                Some(top_type())
            }
        },
        None => {
            if is_pack {
                None
            } else {
                Some(top_type())
            }
        },
    }
}

impl Heap {
    /// What an instance's class's parameters are bound to on it.
    pub(crate) fn bindings_for(&self, instance: ObjId) -> (r: Vec<Binding>)
        ensures
            bindings_v(r@) == bindings_for(self@, instance),
    {
        let class = self.instance_class(instance);
        let header = self.descriptor(instance);
        let mut r: Vec<Binding> = Vec::new();
        assert(bindings_v(r@) =~= Seq::empty());
        if let Some(decl) = self.class_decl(class) {
            assert(class_decl_v(*decl).params == type_params_v(decl.params@));
            let ghost params = type_params_v(decl.params@);
            let ghost head = opt_ty(header);
            let mut i: usize = 0;
            while i < decl.params.len()
                invariant
                    i <= decl.params@.len(),
                    params == type_params_v(decl.params@),
                    head == opt_ty(header),
                    bindings_v(r@) == bound_params(params, head, i as int),
                decreases decl.params@.len() - i,
            {
                let ghost before = bindings_v(r@);
                match bind_one(&decl.params[i], &header, i) {
                    Some(ty) => {
                        let ghost one = BindingV { name: params[i as int].name, ty: ty@ };
                        r.push(Binding { name: decl.params[i].name.clone(), ty });
                        assert(bindings_v(r@) =~= before.push(one));
                    },
                    None => {},
                }
                i += 1;
            }
        }
        r
    }

    pub(crate) fn bindings_of(&self, receiver: Value) -> (r: Vec<Binding>)
        ensures
            bindings_v(r@) == bindings_of(self@, receiver),
    {
        match receiver {
            Value::Instance(id) => self.bindings_for(id),
            _ => {
                let r: Vec<Binding> = Vec::new();
                assert(bindings_v(r@) =~= Seq::empty());
                r
            },
        }
    }
}

/// What a `const` parameter holds in the method that is running.
pub open spec fn const_binding(st: St, name: Seq<char>) -> Option<ConstArgV> {
    match bound(current(st), name, 0) {
        Some(ty) => match ty.name {
            TypeNameV::Const(c) => Some(c),
            _ => None,
        },
        None => None,
    }
}

/// A constant argument, as a value.
pub open spec fn s_constant(st: St, c: ConstArgV) -> (St, Value) {
    match c {
        ConstArgV::Int(n) => (st, Value::Int(n)),
        ConstArgV::Bool(b) => (st, Value::Bool(b)),
        ConstArgV::Str(s) => s_text(st, s),
    }
}

pub open spec fn opt_const(c: Option<ConstArg>) -> Option<ConstArgV> {
    match c {
        Some(c) => Some(c@),
        None => None,
    }
}

impl Interp {
    pub(crate) fn const_binding(&self, name: &str) -> (r: Option<ConstArg>)
        ensures
            opt_const(r) == const_binding(self@, name@),
    {
        if self.bindings.len() == 0 {
            return None;
        }
        let frame = &self.bindings[self.bindings.len() - 1];
        let mut i: usize = 0;
        while i < frame.len()
            invariant
                i <= frame@.len(),
                current(self@) == bindings_v(frame@),
                bound(bindings_v(frame@), name@, 0) == bound(bindings_v(frame@), name@, i as int),
            decreases frame@.len() - i,
        {
            if same(frame[i].name.as_str(), name) {
                return match &frame[i].ty.name {
                    TypeName::Const(c) => Some(c.copied()),
                    _ => None,
                };
            }
            i += 1;
        }
        None
    }

    pub(crate) fn constant(&mut self, c: ConstArg) -> (v: Value)
        ensures
            (final(self)@, v) == s_constant(old(self)@, c@),
    {
        match c {
            ConstArg::Int(n) => Value::Int(n),
            ConstArg::Bool(b) => Value::Bool(b),
            ConstArg::Str(s) => self.new_text(s),
        }
    }
}

// -- what a type argument may be ------------------------------------------------------------

/// Whether a name in scope is never bound again.
pub open spec fn is_fixed(h: HeapV, env: ObjId, name: Seq<char>) -> bool {
    match holder(h, env, name, h.cells.len()) {
        Some(scope) => match var_of(h, scope, name) {
            Some(var) => !var.bind.is_mutable(),
            None => false,
        },
        None => false,
    }
}

/// Whether an expression is the same every time it is read.
pub open spec fn is_constant(h: HeapV, env: ObjId, e: ExprV) -> bool {
    match e.kind {
        ExprKindV::Int(_) => true,
        ExprKindV::Str(_) => true,
        ExprKindV::Bool(_) => true,
        ExprKindV::Var(name) => is_fixed(h, env, name),
        _ => false,
    }
}

/// A class with its arguments, as a type.
pub open spec fn reified(h: HeapV, class: ObjId, args: Seq<TypeExprV>) -> TypeExprV {
    TypeExprV {
        name: TypeNameV::Named(h.class(class).name),
        args,
        applied: args.len() > 0,
        nullable: false,
        frozen: false,
        span: Span { start: 0, end: 0 },
    }
}

/// The constant a value is.
pub open spec fn const_of(h: HeapV, v: Value) -> Option<ConstArgV> {
    match v {
        Value::Int(n) => Some(ConstArgV::Int(n)),
        Value::Bool(b) => Some(ConstArgV::Bool(b)),
        Value::Str(id) => Some(ConstArgV::Str(h.text(id))),
        _ => None,
    }
}

pub open spec fn const_kind(c: ConstArgV) -> Seq<char> {
    match c {
        ConstArgV::Int(_) => "int"@,
        ConstArgV::Bool(_) => "bool"@,
        ConstArgV::Str(_) => "string"@,
    }
}

pub open spec fn wanted_name(ty: TypeExprV) -> Seq<char> {
    match ty.name {
        TypeNameV::Named(name) => name,
        _ => ""@,
    }
}

/// A type parameter, as a declaration writes it.
pub open spec fn param_written(p: TypeParamV) -> Seq<char> {
    match p.kind {
        ParamKindV::Type { bound } => match bound {
            Some(b) => p.name + ": "@ + written(b),
            None => p.name,
        },
        ParamKindV::Const { ty } => "const "@ + p.name + ": "@ + written(ty),
        ParamKindV::Pack => p.name + "..."@,
    }
}

pub open spec fn params_written(params: Seq<TypeParamV>) -> Seq<Seq<char>> {
    Seq::new(params.len(), |i: int| param_written(params[i]))
}

/// Where a type argument stands: its place, and the class and parameter it is for.
pub open spec fn const_argument(
    h: HeapV,
    v: Value,
    e: ExprV,
    whose: Seq<char>,
    param: TypeParamV,
    ty: TypeExprV,
    env: ObjId,
) -> Result<TypeExprV, ErrV> {
    if !is_constant(h, env, e) {
        Err(
            err_help(
                ErrorKind::Type,
                "`"@ + whose + "`\u{2019}s `"@ + param.name
                    + "` needs a constant, and this is worked out when it runs"@,
                e.span,
                "`"@ + param.name
                    + "` is part of the type, so it has to be the same every time the line is read — write a literal, or a name declared `const`"@,
            ),
        )
    } else if const_of(h, v) is Some && const_kind(const_of(h, v)->0) == wanted_name(ty) {
        Ok(
            TypeExprV {
                name: TypeNameV::Const(const_of(h, v)->0),
                args: Seq::empty(),
                applied: false,
                nullable: false,
                frozen: false,
                span: e.span,
            },
        )
    } else {
        Err(
            err_help(
                ErrorKind::Type,
                "`"@ + whose + "`\u{2019}s `"@ + param.name + "` is `"@ + wanted_name(ty)
                    + "`, but this is "@ + an(type_text(h, v)),
                e.span,
                "the declaration writes `"@ + param_written(param)
                    + "`, so the argument in that position is "@ + an(wanted_name(ty)) + " value"@,
            ),
        )
    }
}

/// The type argument a value stands for.
pub open spec fn type_argument(
    h: HeapV,
    v: Value,
    e: ExprV,
    whose: Seq<char>,
    param: TypeParamV,
    env: ObjId,
) -> Result<TypeExprV, ErrV> {
    match param.kind {
        ParamKindV::Const { ty } => const_argument(h, v, e, whose, param, ty, env),
        _ => match v {
            Value::Class(id) => Ok(reified(h, id, Seq::empty())),
            _ => Err(
                err_help(
                    ErrorKind::Type,
                    "`"@ + whose + "`\u{2019}s `"@ + param.name + "` is a type parameter, and "@
                        + an(type_text(h, v)) + " is not a type"@,
                    e.span,
                    "a type argument names a type — `Stack[int]`, `Stack[Point]`. Write `const "@
                        + param.name
                        + ": …` in the declaration if it was meant to take a value"@,
                ),
            ),
        },
    }
}

/// Whether the class a name stands for is, or extends, one of another name.
pub open spec fn descends_by_name(st: St, name: Seq<char>, ancestor: Seq<char>) -> bool {
    match class_named(st, name) {
        Some(id) => descends_named(st.heap, id, ancestor, st.heap.cells.len()),
        None => false,
    }
}

/// Whether a type argument meets a parameter's bound.
pub open spec fn satisfies(st: St, bound: TypeExprV, arg: TypeExprV) -> bool {
    match (bound.name, arg.name) {
        (TypeNameV::Any, _) => true,
        (TypeNameV::Named(wanted), TypeNameV::Named(name)) => wanted == name || descends_by_name(
            st,
            name,
            wanted,
        ),
        _ => false,
    }
}

/// A type argument, checked against its parameter and its parameter's bound.
pub open spec fn checked_argument(
    st: St,
    v: Value,
    e: ExprV,
    whose: Seq<char>,
    param: TypeParamV,
    env: ObjId,
) -> Result<TypeExprV, ErrV> {
    match type_argument(st.heap, v, e, whose, param, env) {
        Err(e) => Err(e),
        Ok(arg) => match param.kind {
            ParamKindV::Type { bound: Some(b) } => if satisfies(st, b, arg) {
                Ok(arg)
            } else {
                Err(
                    err_help(
                        ErrorKind::Type,
                        "`"@ + written(arg) + "` does not satisfy bound `"@ + written(b) + "`"@,
                        e.span,
                        "`"@ + whose + "` declares `"@ + param.name + ": "@ + written(b)
                            + "`, so its argument is `"@ + written(b)
                            + "` or a class that extends it"@,
                    ),
                )
            },
            _ => Ok(arg),
        },
    }
}

/// The parameter an argument is for: those behind the last fixed one go to the pack.
pub open spec fn param_for(params: Seq<TypeParamV>, fixed: int, i: int) -> TypeParamV {
    params[if i < fixed {
        i
    } else {
        fixed
    }]
}

/// The type arguments from `i` on, behind those already checked.
pub open spec fn checked_arguments(
    st: St,
    values: Seq<Value>,
    exprs: Seq<ExprV>,
    whose: Seq<char>,
    params: Seq<TypeParamV>,
    fixed: int,
    env: ObjId,
    i: int,
    so_far: Seq<TypeExprV>,
) -> Result<Seq<TypeExprV>, ErrV>
    decreases values.len() - i,
{
    if i < 0 || i >= values.len() || i >= exprs.len() {
        Ok(so_far)
    } else {
        match checked_argument(st, values[i], exprs[i], whose, param_for(params, fixed, i), env) {
            Err(e) => Err(e),
            Ok(arg) => checked_arguments(
                st,
                values,
                exprs,
                whose,
                params,
                fixed,
                env,
                i + 1,
                so_far.push(arg),
            ),
        }
    }
}

pub open spec fn fixed_params(params: Seq<TypeParamV>) -> int {
    match pack_at(params, 0) {
        Some(i) => i,
        None => params.len() as int,
    }
}

/// Whether a class takes this many type arguments.
pub open spec fn s_type_arity(h: HeapV, class: ObjId, given: nat, span: Span) -> Result<(), ErrV> {
    let name = h.class(class).name;
    let params = type_params(h, class);
    let fixed = fixed_params(params);
    if params.len() == 0 {
        Err(
            err_help(
                ErrorKind::Type,
                "`"@ + name + "` takes no type arguments"@,
                span,
                "`"@ + name
                    + "` declares no type parameters, so there is nothing for `[…]` to bind — write `"@
                    + name + "(…)`"@,
            ),
        )
    } else if given < fixed || (pack_at(params, 0) is None && given != fixed) {
        Err(
            err_help(
                ErrorKind::Type,
                "`"@ + name + "` takes "@ + (if pack_at(params, 0) is Some {
                    "at least "@
                } else {
                    ""@
                }) + digits(fixed as nat) + " type argument"@ + plural(fixed as nat) + ", got "@
                    + digits(given),
                span,
                "`"@ + name + "` declares `["@ + joined(params_written(params), ", "@) + "]`"@,
            ),
        )
    } else {
        Ok(())
    }
}

/// The report for a class with type arguments where a value is wanted.
pub open spec fn not_a_value(h: HeapV, target: Value, span: Span) -> ErrV {
    match target {
        Value::Class(id) => {
            let name = h.class(id).name;
            err_help(
                ErrorKind::Type,
                "`"@ + name + "` with type arguments is a type, not a value"@,
                span,
                if type_params(h, id).len() > 0 {
                    "write `"@ + name
                        + "[…](…)` to build one, or use it as an annotation — a class with its parameters bound names a type, and there is no value for it to be"@
                } else {
                    "`"@ + name
                        + "` declares no type parameters, so `[…]` after it is a subscript — and a class is not a container"@
                },
            )
        },
        _ => crate::error::err(ErrorKind::Type, type_text(h, target) + " is not indexable"@, span),
    }
}

fn write_param(p: &TypeParam) -> (r: String)
    ensures
        r@ == param_written(type_param_v(*p)),
{
    match &p.kind {
        ParamKind::Type { bound } => match bound {
            Some(b) => {
                let text = b.written();
                cat3(p.name.as_str(), ": ", text.as_str())
            },
            None => p.name.clone(),
        },
        ParamKind::Const { ty } => {
            let text = ty.written();
            cat4("const ", p.name.as_str(), ": ", text.as_str())
        },
        ParamKind::Pack => cat2(p.name.as_str(), "..."),
    }
}

fn write_params(params: &Vec<TypeParam>) -> (r: Vec<String>)
    ensures
        strs(r@) == params_written(type_params_v(params@)),
{
    let mut r: Vec<String> = Vec::new();
    let mut i: usize = 0;
    let ghost goal = params_written(type_params_v(params@));
    while i < params.len()
        invariant
            i <= params@.len(),
            goal == params_written(type_params_v(params@)),
            strs(r@) == goal.take(i as int),
        decreases params@.len() - i,
    {
        r.push(write_param(&params[i]));
        assert(strs(r@) =~= goal.take(i + 1));
        i += 1;
    }
    assert(strs(r@) =~= goal);
    r
}

fn constant_of(heap: &Heap, v: Value) -> (r: Option<ConstArg>)
    ensures
        opt_const(r) == const_of(heap@, v),
{
    match v {
        Value::Int(n) => Some(ConstArg::Int(n)),
        Value::Bool(b) => Some(ConstArg::Bool(b)),
        Value::Str(id) => Some(ConstArg::Str(heap.text(id))),
        _ => None,
    }
}

fn kind_of_const(c: &ConstArg) -> (r: &'static str)
    ensures
        r@ == const_kind(c@),
{
    match c {
        ConstArg::Int(_) => "int",
        ConstArg::Bool(_) => "bool",
        ConstArg::Str(_) => "string",
    }
}

fn named_type(name: String, args: Vec<TypeExpr>) -> (r: TypeExpr)
    ensures
        r@ == (TypeExprV {
            name: TypeNameV::Named(name@),
            args: type_exprs_v(args@),
            applied: args@.len() > 0,
            nullable: false,
            frozen: false,
            span: Span { start: 0, end: 0 },
        }),
{
    let applied = args.len() > 0;
    let r = TypeExpr {
        name: TypeName::Named(name),
        args,
        applied,
        nullable: false,
        frozen: false,
        span: Span { start: 0, end: 0 },
    };
    assert(r@.args == type_exprs_v(r.args@));
    r
}

pub open spec fn types(r: Result<TypeExpr, QuinceError>) -> Result<TypeExprV, ErrV> {
    match r {
        Ok(ty) => Ok(ty@),
        Err(e) => Err(e@),
    }
}

pub open spec fn types_all(r: Result<Vec<TypeExpr>, QuinceError>) -> Result<Seq<TypeExprV>, ErrV> {
    match r {
        Ok(tys) => Ok(type_exprs_v(tys@)),
        Err(e) => Err(e@),
    }
}

impl Heap {
    fn is_fixed(&self, env: ObjId, name: &str) -> (r: bool)
        ensures
            r == is_fixed(self@, env, name@),
    {
        match self.holder(env, name) {
            Some(scope) => match self.var(scope, name) {
                Some((_value, bind, _ty)) => !bind.mutable(),
                None => false,
            },
            None => false,
        }
    }

    fn is_constant(&self, env: ObjId, e: &Expr) -> (r: bool)
        ensures
            r == is_constant(self@, env, e@),
    {
        assert(expr_v(*e).kind == expr_kind_v(e.kind));
        match &e.kind {
            ExprKind::Int(_) => true,
            ExprKind::Str(_) => true,
            ExprKind::Bool(_) => true,
            ExprKind::Var(name) => self.is_fixed(env, name.as_str()),
            _ => false,
        }
    }

    /// A class with its arguments, as a type.
    pub(crate) fn reified(&self, class: ObjId, args: Vec<TypeExpr>) -> (r: TypeExpr)
        ensures
            r@ == reified(self@, class, type_exprs_v(args@)),
    {
        named_type(self.class_name(class), args)
    }

    fn const_argument(
        &self,
        v: Value,
        e: &Expr,
        whose: &str,
        param: &TypeParam,
        ty: &TypeExpr,
        env: ObjId,
    ) -> (r: Result<TypeExpr, QuinceError>)
        ensures
            types(r) == const_argument(
                self@,
                v,
                e@,
                whose@,
                type_param_v(*param),
                ty@,
                env,
            ),
    {
        if !self.is_constant(env, e) {
            let message = cat5(
                "`",
                whose,
                "`\u{2019}s `",
                param.name.as_str(),
                "` needs a constant, and this is worked out when it runs",
            );
            let help = cat3(
                "`",
                param.name.as_str(),
                "` is part of the type, so it has to be the same every time the line is read — write a literal, or a name declared `const`",
            );
            return Err(helped_type_error(message, e.span, help.as_str()));
        }
        let wanted = match &ty.name {
            TypeName::Named(name) => name.as_str(),
            _ => "",
        };
        if let Some(c) = constant_of(self, v) {
            if same(kind_of_const(&c), wanted) {
                let r = TypeExpr {
                    name: TypeName::Const(c),
                    args: Vec::new(),
                    applied: false,
                    nullable: false,
                    frozen: false,
                    span: e.span,
                };
                assert(r@.args == type_exprs_v(r.args@));
                return Ok(r);
            }
        }
        let kind = self.type_text(v);
        let noun = with_article(kind.as_str());
        let mut message = cat5("`", whose, "`\u{2019}s `", param.name.as_str(), "` is `");
        message.append(wanted);
        message.append("`, but this is ");
        message.append(noun.as_str());
        let declared = write_param(param);
        let value = with_article(wanted);
        let help = cat5(
            "the declaration writes `",
            declared.as_str(),
            "`, so the argument in that position is ",
            value.as_str(),
            " value",
        );
        Err(helped_type_error(message, e.span, help.as_str()))
    }

    fn type_argument(&self, v: Value, e: &Expr, whose: &str, param: &TypeParam, env: ObjId) -> (r:
        Result<TypeExpr, QuinceError>)
        ensures
            types(r) == type_argument(self@, v, e@, whose@, type_param_v(*param), env),
    {
        if let ParamKind::Const { ty } = &param.kind {
            return self.const_argument(v, e, whose, param, ty, env);
        }
        match v {
            Value::Class(id) => Ok(self.reified(id, Vec::new())),
            _ => {
                let kind = self.type_text(v);
                let noun = with_article(kind.as_str());
                let mut message = cat5(
                    "`",
                    whose,
                    "`\u{2019}s `",
                    param.name.as_str(),
                    "` is a type parameter, and ",
                );
                message.append(noun.as_str());
                message.append(" is not a type");
                let help = cat3(
                    "a type argument names a type — `Stack[int]`, `Stack[Point]`. Write `const ",
                    param.name.as_str(),
                    ": …` in the declaration if it was meant to take a value",
                );
                Err(helped_type_error(message, e.span, help.as_str()))
            },
        }
    }

    /// [`s_type_arity`], decided.
    pub(crate) fn type_arity(&self, class: ObjId, given: usize, span: Span) -> (r: Result<
        (),
        QuinceError,
    >)
        ensures
            res(r) == s_type_arity(self@, class, given as nat, span),
            r is Ok ==> self@.class(class).decl is Some,
    {
        let name = self.class_name(class);
        let decl = match self.class_decl(class) {
            Some(decl) => decl,
            None => {
                return Err(no_type_params(name.as_str(), span));
            },
        };
        assert(class_decl_v(*decl).params == type_params_v(decl.params@));
        if decl.params.len() == 0 {
            return Err(no_type_params(name.as_str(), span));
        }
        let pack = find_pack(&decl.params);
        let fixed: usize = match pack {
            Some(i) => i,
            None => decl.params.len(),
        };
        if given < fixed || (pack.is_none() && given != fixed) {
            let least = if pack.is_some() {
                "at least "
            } else {
                ""
            };
            let wanted = digits_of(fixed as u64);
            let got = digits_of(given as u64);
            let mut message = cat6(
                "`",
                name.as_str(),
                "` takes ",
                least,
                wanted.as_str(),
                " type argument",
            );
            message.append(plural_of(fixed));
            message.append(", got ");
            message.append(got.as_str());
            let list = join(&write_params(&decl.params), ", ");
            let help = cat5("`", name.as_str(), "` declares `[", list.as_str(), "]`");
            return Err(helped_type_error(message, span, help.as_str()));
        }
        Ok(())
    }

    pub(crate) fn not_a_value(&self, target: Value, span: Span) -> (r: QuinceError)
        ensures
            r@ == not_a_value(self@, target, span),
    {
        match target {
            Value::Class(id) => {
                let name = self.class_name(id);
                let generic = match self.class_decl(id) {
                    Some(decl) => {
                        assert(class_decl_v(*decl).params == type_params_v(decl.params@));
                        decl.params.len() > 0
                    },
                    None => false,
                };
                let help = if generic {
                    cat3(
                        "write `",
                        name.as_str(),
                        "[…](…)` to build one, or use it as an annotation — a class with its parameters bound names a type, and there is no value for it to be",
                    )
                } else {
                    cat3(
                        "`",
                        name.as_str(),
                        "` declares no type parameters, so `[…]` after it is a subscript — and a class is not a container",
                    )
                };
                helped_type_error(
                    cat3("`", name.as_str(), "` with type arguments is a type, not a value"),
                    span,
                    help.as_str(),
                )
            },
            _ => {
                let kind = self.type_text(target);
                plain_type_error(cat2(kind.as_str(), " is not indexable"), span)
            },
        }
    }
}

fn no_type_params(name: &str, span: Span) -> (r: QuinceError)
    ensures
        r@ == err_help(
            ErrorKind::Type,
            "`"@ + name@ + "` takes no type arguments"@,
            span,
            "`"@ + name@
                + "` declares no type parameters, so there is nothing for `[…]` to bind — write `"@
                + name@ + "(…)`"@,
        ),
{
    let help = cat5(
        "`",
        name,
        "` declares no type parameters, so there is nothing for `[…]` to bind — write `",
        name,
        "(…)`",
    );
    helped_type_error(cat3("`", name, "` takes no type arguments"), span, help.as_str())
}

pub open spec fn expr_refs_v(s: Seq<&Expr>) -> Seq<ExprV> {
    Seq::new(s.len(), |i: int| expr_v(*s[i]))
}

impl Interp {
    fn descends_by_name(&self, name: &str, ancestor: &str) -> (r: bool)
        ensures
            r == descends_by_name(self@, name@, ancestor@),
    {
        match self.class_named(name) {
            Some(id) => self.heap.descends_named(id, ancestor),
            None => false,
        }
    }

    fn satisfies(&self, bound: &TypeExpr, arg: &TypeExpr) -> (r: bool)
        ensures
            r == satisfies(self@, bound@, arg@),
    {
        match (&bound.name, &arg.name) {
            (TypeName::Any, _) => true,
            (TypeName::Named(wanted), TypeName::Named(name)) => same(
                wanted.as_str(),
                name.as_str(),
            ) || self.descends_by_name(name.as_str(), wanted.as_str()),
            _ => false,
        }
    }

    fn checked_argument(
        &self,
        v: Value,
        e: &Expr,
        whose: &str,
        param: &TypeParam,
        env: ObjId,
    ) -> (r: Result<TypeExpr, QuinceError>)
        ensures
            types(r) == checked_argument(self@, v, e@, whose@, type_param_v(*param), env),
    {
        let arg = self.heap.type_argument(v, e, whose, param, env)?;
        if let ParamKind::Type { bound } = &param.kind {
            if let Some(b) = bound {
                if !self.satisfies(b, &arg) {
                    let given = arg.written();
                    let limit = b.written();
                    let message = cat5(
                        "`",
                        given.as_str(),
                        "` does not satisfy bound `",
                        limit.as_str(),
                        "`",
                    );
                    let mut help = cat6(
                        "`",
                        whose,
                        "` declares `",
                        param.name.as_str(),
                        ": ",
                        limit.as_str(),
                    );
                    help.append("`, so its argument is `");
                    help.append(limit.as_str());
                    help.append("` or a class that extends it");
                    return Err(helped_type_error(message, e.span, help.as_str()));
                }
            }
        }
        Ok(arg)
    }

    /// The type arguments of a construction, checked one by one.
    pub(crate) fn checked_arguments(
        &self,
        values: &Vec<Value>,
        exprs: &Vec<&Expr>,
        class: ObjId,
        env: ObjId,
    ) -> (r: Result<Vec<TypeExpr>, QuinceError>)
        requires
            values@.len() == exprs@.len(),
            s_type_arity(self@.heap, class, exprs@.len(), Span { start: 0, end: 0 }) is Ok,
        ensures
            types_all(r) == checked_arguments(
                self@,
                values@,
                expr_refs_v(exprs@),
                self@.heap.class(class).name,
                type_params(self@.heap, class),
                fixed_params(type_params(self@.heap, class)),
                env,
                0,
                Seq::empty(),
            ),
    {
        let whose = self.heap.class_name(class);
        let decl = match self.heap.class_decl(class) {
            Some(decl) => decl,
            None => {
                return Ok(Vec::new());
            },
        };
        assert(class_decl_v(*decl).params == type_params_v(decl.params@));
        let ghost params = type_params_v(decl.params@);
        let ghost goal = checked_arguments(
            self@,
            values@,
            expr_refs_v(exprs@),
            whose@,
            params,
            fixed_params(params),
            env,
            0,
            Seq::empty(),
        );
        let pack = find_pack(&decl.params);
        let fixed: usize = match pack {
            Some(i) => i,
            None => decl.params.len(),
        };
        let mut r: Vec<TypeExpr> = Vec::new();
        let mut i: usize = 0;
        while i < values.len()
            invariant
                i <= values@.len(),
                values@.len() == exprs@.len(),
                params == type_params_v(decl.params@),
                params == type_params(self@.heap, class),
                whose@ == self@.heap.class(class).name,
                fixed == fixed_params(params),
                fixed < params.len() || exprs@.len() <= fixed <= params.len(),
                goal == checked_arguments(
                    self@,
                    values@,
                    expr_refs_v(exprs@),
                    whose@,
                    params,
                    fixed_params(params),
                    env,
                    0,
                    Seq::empty(),
                ),
                goal == checked_arguments(
                    self@,
                    values@,
                    expr_refs_v(exprs@),
                    whose@,
                    params,
                    fixed_params(params),
                    env,
                    i as int,
                    type_exprs_v(r@),
                ),
            decreases values@.len() - i,
        {
            let place: usize = if i < fixed {
                i
            } else {
                fixed
            };
            let arg = match self.checked_argument(
                values[i],
                exprs[i],
                whose.as_str(),
                &decl.params[place],
                env,
            ) {
                Ok(arg) => arg,
                Err(e) => {
                    return Err(e);
                },
            };
            r.push(arg);
            i += 1;
        }
        Ok(r)
    }
}

// -- laws -------------------------------------------------------------------------------------

/// A parameter no argument was given for is unconstrained: everything holds it.
pub proof fn law_an_unsupplied_parameter_is_unconstrained(param: TypeParamV, i: int)
    requires
        param.kind != ParamKindV::Pack,
    ensures
        bound_to(param, None, i) == Some(top()),
{
}

/// Every parameter but a pack is bound, and in the order the class declares them.
pub proof fn law_each_parameter_is_bound(params: Seq<TypeParamV>, header: Option<TypeExprV>, n: int)
    requires
        0 <= n <= params.len(),
        forall|i: int| 0 <= i < params.len() ==> (#[trigger] params[i]).kind != ParamKindV::Pack,
    ensures
        bound_params(params, header, n).len() == n,
        forall|i: int|
            0 <= i < n ==> (#[trigger] bound_params(params, header, n)[i]).name == params[i].name,
    decreases n,
{
    if n > 0 {
        law_each_parameter_is_bound(params, header, n - 1);
    }
}

} // verus!
