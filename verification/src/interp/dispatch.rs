//! Which declaration a call reaches, and how the arguments it wrote line up with the
//! parameters it meets.

use crate::error::{err, err_help, res, ErrV, ErrorKind, QuinceError};
use crate::interp::error::{check_arity, helped_type_error, plain_type_error, s_check_arity};
use crate::runtime::class::{base, type_text};
use crate::runtime::heap::{Heap, HeapV};
use crate::runtime::object::opt_handle;
use crate::runtime::types::{args_same, holds, same_args, written};
use crate::runtime::value::{ObjId, Value};
use crate::syntax::ast::{
    call_args_v, fn_decl_v, group_models, param_v, params_v, CallArg, CallArgV, FnDecl, FnDeclV,
    Op, Param, ParamV, TypeExpr, TypeExprV, TypeName, TypeNameV,
};
use crate::syntax::token::Span;
use crate::text::{
    cat2, cat3, cat5, cat7, digits, digits_of, join, joined, lemma_strs_push, same, strs,
};
use std::rc::Rc;
use vstd::prelude::*;

verus! {

broadcast use {group_models, lemma_strs_push};

// -- what a callee is called ----------------------------------------------------------

pub open spec fn function_name(h: HeapV, id: ObjId) -> Seq<char> {
    match h.function(id) {
        Some(f) => f.decl.name,
        None => "this"@,
    }
}

/// The name of a callee that is not bound to a receiver.
pub open spec fn plain_name(h: HeapV, v: Value) -> Seq<char> {
    match v {
        Value::Function(id) => function_name(h, id),
        Value::Overload(id) => if h.overload(id).len() > 0 {
            match h.overload(id)[0] {
                Value::Function(first) => function_name(h, first),
                _ => "this"@,
            }
        } else {
            "this"@
        },
        Value::Native(native) => native.spelled(),
        Value::Class(id) => h.class(id).name,
        _ => "this"@,
    }
}

/// The name a callee goes by.
pub open spec fn callable_name(h: HeapV, v: Value) -> Seq<char> {
    match v {
        Value::BoundMethod(id) => plain_name(h, h.bound(id).1),
        _ => plain_name(h, v),
    }
}

/// What a report about a call quotes back: a class is called through its `op init`.
pub open spec fn called_name(h: HeapV, target: Value) -> Seq<char> {
    match target {
        Value::Class(id) => match h.class_slot(id, Op::Init) {
            Some(init) => callable_name(h, init),
            None => h.class(id).name,
        },
        _ => callable_name(h, target),
    }
}

impl Heap {
    pub(crate) fn function_name(&self, id: ObjId) -> (r: String)
        ensures
            r@ == function_name(self@, id),
    {
        match self.function(id) {
            Some((decl, _env, _owner)) => decl.name.clone(),
            None => "this".to_owned(),
        }
    }

    pub(crate) fn plain_name(&self, v: Value) -> (r: String)
        ensures
            r@ == plain_name(self@, v),
    {
        match v {
            Value::Function(id) => self.function_name(id),
            Value::Overload(id) => {
                let set = self.overload(id);
                if set.len() > 0 {
                    match set[0] {
                        Value::Function(first) => self.function_name(first),
                        _ => "this".to_owned(),
                    }
                } else {
                    "this".to_owned()
                }
            },
            Value::Native(native) => native.name().to_owned(),
            Value::Class(id) => self.class_name(id),
            _ => "this".to_owned(),
        }
    }

    /// The name a callee goes by.
    pub fn callable_name(&self, v: Value) -> (r: String)
        ensures
            r@ == callable_name(self@, v),
    {
        match v {
            Value::BoundMethod(id) => {
                let (_receiver, method) = self.bound(id);
                self.plain_name(method)
            },
            _ => self.plain_name(v),
        }
    }

    /// What a report about a call quotes back.
    pub fn called_name(&self, target: Value) -> (r: String)
        ensures
            r@ == called_name(self@, target),
    {
        match target {
            Value::Class(id) => match self.class_slot(id, Op::Init) {
                Some(init) => self.callable_name(init),
                None => self.class_name(id),
            },
            _ => self.callable_name(target),
        }
    }
}

// -- lining arguments up ------------------------------------------------------------------

/// The parameters a caller fills: all of them, or all behind the receiver.
pub open spec fn params_after(params: Seq<ParamV>, receiver: bool) -> Seq<ParamV> {
    if receiver && params.len() > 0 {
        params.skip(1)
    } else {
        params
    }
}

pub open spec fn param_refs_v(s: Seq<&Param>) -> Seq<ParamV> {
    Seq::new(s.len(), |i: int| param_v(*s[i]))
}

/// [`params_after`], as references into a declaration.
pub fn params_of(decl: &FnDecl, receiver: bool) -> (r: Vec<&Param>)
    ensures
        param_refs_v(r@) == params_after(fn_decl_v(*decl).params, receiver),
{
    let mut r: Vec<&Param> = Vec::new();
    let skip: usize = if receiver && decl.params.len() > 0 {
        1
    } else {
        0
    };
    let mut i: usize = skip;
    let ghost goal = params_after(params_v(decl.params@), receiver);
    while i < decl.params.len()
        invariant
            skip <= i <= decl.params@.len(),
            skip == 0 || skip == 1,
            goal.len() == decl.params@.len() - skip,
            forall|j: int| 0 <= j < goal.len() ==> goal[j] == param_v(decl.params@[j + skip]),
            param_refs_v(r@) == goal.take(i - skip),
        decreases decl.params@.len() - i,
    {
        let ghost before = param_refs_v(r@);
        r.push(&decl.params[i]);
        assert(param_refs_v(r@) =~= before.push(goal[i - skip]));
        assert(param_refs_v(r@) =~= goal.take(i + 1 - skip));
        i += 1;
    }
    assert(param_refs_v(r@) =~= goal);
    r
}

/// How many arguments come before the first named one.
pub open spec fn leading(args: Seq<CallArgV>, from: int) -> int
    decreases args.len() - from,
{
    if 0 <= from < args.len() && args[from].name is None {
        leading(args, from + 1)
    } else {
        from
    }
}

/// Where the parameter of a name stands.
pub open spec fn param_place(params: Seq<ParamV>, name: Seq<char>, from: int) -> Option<int>
    decreases params.len() - from,
{
    if from < 0 || from >= params.len() {
        None
    } else if params[from].name == name {
        Some(from)
    } else {
        param_place(params, name, from + 1)
    }
}

/// Why arguments do not line up: there are too many, one names no parameter, or one
/// names a parameter that is filled.
#[derive(Clone, Copy, PartialEq, Eq, Structural)]
pub enum Misfit {
    TooMany,
    NoSuch(usize),
    Twice(usize, usize),
}

/// The parameters with the arguments from `i` on filled in by name.
pub open spec fn fill_from(
    params: Seq<ParamV>,
    args: Seq<CallArgV>,
    values: Seq<Value>,
    i: int,
    filled: Seq<Option<Value>>,
) -> Result<Seq<Option<Value>>, Misfit>
    decreases args.len() - i,
{
    if i < 0 || i >= args.len() || i >= values.len() {
        Ok(filled)
    } else {
        match args[i].name {
            None => Err(Misfit::NoSuch(i as usize)),
            Some(name) => match param_place(params, name, 0) {
                None => Err(Misfit::NoSuch(i as usize)),
                Some(j) => if filled[j] is Some {
                    Err(Misfit::Twice(i as usize, j as usize))
                } else {
                    fill_from(params, args, values, i + 1, filled.update(j, Some(values[i])))
                },
            },
        }
    }
}

/// How many arguments are positional. A call the language makes itself writes none of
/// its values down, and all of them are.
pub open spec fn positional(args: Seq<CallArgV>, values: Seq<Value>) -> int {
    if args.len() == 0 {
        values.len() as int
    } else {
        leading(args, 0)
    }
}

/// What each parameter is given: the positional arguments left to right, then the
/// named ones by name.
pub open spec fn filled(params: Seq<ParamV>, args: Seq<CallArgV>, values: Seq<Value>) -> Result<
    Seq<Option<Value>>,
    Misfit,
> {
    let n = positional(args, values);
    if n > params.len() {
        Err(Misfit::TooMany)
    } else {
        fill_from(
            params,
            args,
            values,
            n,
            Seq::new(
                params.len(),
                |j: int|
                    if j < n && j < values.len() {
                        Some(values[j])
                    } else {
                        None
                    },
            ),
        )
    }
}

fn count_leading(args: &Vec<CallArg>) -> (r: usize)
    ensures
        r == leading(call_args_v(args@), 0),
        r <= args@.len(),
{
    let mut i: usize = 0;
    while i < args.len() && args[i].name.is_none()
        invariant
            i <= args@.len(),
            leading(call_args_v(args@), 0) == leading(call_args_v(args@), i as int),
        decreases args@.len() - i,
    {
        i += 1;
    }
    i
}

fn find_param(params: &Vec<&Param>, name: &str) -> (r: Option<usize>)
    ensures
        match r {
            Some(j) => param_place(param_refs_v(params@), name@, 0) == Some(j as int) && j
                < params@.len(),
            None => param_place(param_refs_v(params@), name@, 0) is None,
        },
{
    let mut i: usize = 0;
    while i < params.len()
        invariant
            i <= params@.len(),
            param_place(param_refs_v(params@), name@, 0) == param_place(
                param_refs_v(params@),
                name@,
                i as int,
            ),
        decreases params@.len() - i,
    {
        if same(params[i].name.as_str(), name) {
            return Some(i);
        }
        i += 1;
    }
    None
}

/// [`filled`], computed.
fn fill(params: &Vec<&Param>, args: &Vec<CallArg>, values: &Vec<Value>) -> (r: Result<
    Vec<Option<Value>>,
    Misfit,
>)
    ensures
        match r {
            Ok(v) => filled(param_refs_v(params@), call_args_v(args@), values@) == Ok::<
                Seq<Option<Value>>,
                Misfit,
            >(v@),
            Err(m) => filled(param_refs_v(params@), call_args_v(args@), values@) == Err::<
                Seq<Option<Value>>,
                Misfit,
            >(m),
        },
{
    let n: usize = if args.len() == 0 {
        values.len()
    } else {
        count_leading(args)
    };
    if n > params.len() {
        return Err(Misfit::TooMany);
    }
    let ghost pv = param_refs_v(params@);
    let ghost av = call_args_v(args@);
    let ghost start = Seq::new(
        pv.len(),
        |j: int|
            if j < n && j < values@.len() {
                Some(values@[j])
            } else {
                None
            },
    );
    let mut r: Vec<Option<Value>> = Vec::new();
    let mut j: usize = 0;
    while j < params.len()
        invariant
            j <= params@.len(),
            start == Seq::new(
                params@.len(),
                |j: int|
                    if j < n && j < values@.len() {
                        Some(values@[j])
                    } else {
                        None
                    },
            ),
            r@ == start.take(j as int),
        decreases params@.len() - j,
    {
        if j < n && j < values.len() {
            r.push(Some(values[j]));
        } else {
            r.push(None);
        }
        assert(r@ =~= start.take(j + 1));
        j += 1;
    }
    assert(r@ =~= start);
    let mut i: usize = n;
    while i < args.len() && i < values.len()
        invariant
            pv == param_refs_v(params@),
            av == call_args_v(args@),
            r@.len() == params@.len(),
            filled(pv, av, values@) == fill_from(pv, av, values@, i as int, r@),
        decreases args@.len() - i,
    {
        let place = match &args[i].name {
            None => None,
            Some(name) => find_param(params, name.as_str()),
        };
        match place {
            None => {
                return Err(Misfit::NoSuch(i));
            },
            Some(at) => {
                if r[at].is_some() {
                    return Err(Misfit::Twice(i, at));
                }
                r[at] = Some(values[i]);
            },
        }
        i += 1;
    }
    Ok(r)
}

// -- choosing among declarations ---------------------------------------------------------------

/// Whether a type's arguments are the very ones a value's description carries.
pub open spec fn describes_exactly(h: HeapV, ty: TypeExprV, v: Value) -> bool {
    let held = opt_handle(base(h, v));
    if held.len() > 0 && h.descriptor(held[0]) is Some {
        same_args(ty, h.descriptor(held[0])->0.args)
    } else {
        ty.args.len() == 0
    }
}

/// How well a value fits a parameter: exactly, by widening, or because the parameter
/// takes anything. Less is better.
pub open spec fn quality(h: HeapV, param: ParamV, v: Value) -> Option<nat> {
    match param.ty {
        None => Some(2),
        Some(ty) => if !holds(h, ty, v) {
            None
        } else {
            match ty.name {
                TypeNameV::Named(named) => if v == Value::Nil || type_text(h, v) != named
                    || ty.nullable || !describes_exactly(h, ty, v) {
                    Some(1)
                } else {
                    Some(0)
                },
                _ => Some(2),
            }
        },
    }
}

/// How well values fit parameters, all together; a parameter left empty needs a
/// default.
pub open spec fn score(
    h: HeapV,
    params: Seq<ParamV>,
    filled: Seq<Option<Value>>,
    from: int,
    so_far: nat,
) -> Option<nat>
    decreases params.len() - from,
{
    if from < 0 || from >= params.len() || from >= filled.len() {
        Some(so_far)
    } else {
        match filled[from] {
            Some(v) => match quality(h, params[from], v) {
                Some(q) => score(h, params, filled, from + 1, so_far + q),
                None => None,
            },
            None => if params[from].default is Some {
                score(h, params, filled, from + 1, so_far)
            } else {
                None
            },
        }
    }
}

/// How well a call fits a parameter list, or that it does not.
pub open spec fn fits(h: HeapV, params: Seq<ParamV>, args: Seq<CallArgV>, values: Seq<Value>) -> Option<
    nat,
> {
    match filled(params, args, values) {
        Ok(held) => score(h, params, held, 0, 0),
        Err(_) => None,
    }
}

/// The declarations under a callee: those of a set, or the callee itself.
pub open spec fn candidates(h: HeapV, callee: Value) -> Seq<Value> {
    match callee {
        Value::Overload(id) => h.overload(id),
        _ => seq![callee],
    }
}

pub open spec fn fit_of(h: HeapV, v: Value, args: Seq<CallArgV>, values: Seq<Value>, receiver: bool) -> Option<
    nat,
> {
    match v {
        Value::Function(id) => match h.function(id) {
            Some(f) => fits(h, params_after(f.decl.params, receiver), args, values),
            None => None,
        },
        _ => None,
    }
}

/// The best of the candidates from `i` on, beside the best so far, and whether its
/// score is shared.
pub open spec fn best_from(
    h: HeapV,
    set: Seq<Value>,
    args: Seq<CallArgV>,
    values: Seq<Value>,
    receiver: bool,
    i: int,
    best: Option<(nat, Value)>,
    tied: bool,
) -> (Option<(nat, Value)>, bool)
    decreases set.len() - i,
{
    if i < 0 || i >= set.len() {
        (best, tied)
    } else {
        match (fit_of(h, set[i], args, values, receiver), best) {
            (None, _) => best_from(h, set, args, values, receiver, i + 1, best, tied),
            (Some(n), None) => best_from(
                h,
                set,
                args,
                values,
                receiver,
                i + 1,
                Some((n, set[i])),
                tied,
            ),
            (Some(n), Some((found, v))) => if n == found {
                best_from(h, set, args, values, receiver, i + 1, best, true)
            } else if n < found {
                best_from(h, set, args, values, receiver, i + 1, Some((n, set[i])), false)
            } else {
                best_from(h, set, args, values, receiver, i + 1, best, tied)
            },
        }
    }
}

/// A parameter's type, as it is written.
pub open spec fn param_text(p: ParamV) -> Seq<char> {
    match p.ty {
        Some(ty) => written(ty),
        None => "any"@,
    }
}

pub open spec fn param_texts(params: Seq<ParamV>) -> Seq<Seq<char>> {
    Seq::new(params.len(), |i: int| param_text(params[i]))
}

/// How each declaration under a callee reads, as a parameter list.
pub open spec fn signatures(h: HeapV, set: Seq<Value>, receiver: bool) -> Seq<Seq<char>>
    decreases set.len(),
{
    if set.len() == 0 {
        Seq::empty()
    } else {
        let before = signatures(h, set.drop_last(), receiver);
        match set.last() {
            Value::Function(id) => match h.function(id) {
                Some(f) => before.push(
                    "("@ + joined(param_texts(params_after(f.decl.params, receiver)), ", "@) + ")"@,
                ),
                None => before,
            },
            _ => before,
        }
    }
}

pub open spec fn type_texts(h: HeapV, values: Seq<Value>) -> Seq<Seq<char>> {
    Seq::new(values.len(), |i: int| type_text(h, values[i]))
}

/// The report for a call that two declarations take equally well.
pub open spec fn two_matched(h: HeapV, set: Value, values: Seq<Value>, receiver: bool, span: Span) -> ErrV {
    err_help(
        ErrorKind::Type,
        "more than one `"@ + plain_name(h, set) + "` takes ("@ + joined(type_texts(h, values), ", "@)
            + ")"@,
        span,
        "the declarations under that name take: "@ + joined(
            signatures(h, candidates(h, set), receiver),
            ", "@,
        )
            + " — an empty container is every element type at once, so say which with an annotated binding, or name the one you meant"@,
    )
}

/// The report for a call that no declaration takes.
pub open spec fn nothing_matched(h: HeapV, set: Value, values: Seq<Value>, receiver: bool, span: Span) -> ErrV {
    err_help(
        ErrorKind::Type,
        "no `"@ + plain_name(h, set) + "` takes ("@ + joined(type_texts(h, values), ", "@) + ")"@,
        span,
        "the declarations under that name take: "@ + joined(
            signatures(h, candidates(h, set), receiver),
            ", "@,
        ),
    )
}

/// The declaration a call reaches. Anything but a set answers with itself; of a set,
/// the one that fits best, where there is one and it is the only one.
pub open spec fn selected(
    h: HeapV,
    callee: Value,
    args: Seq<CallArgV>,
    values: Seq<Value>,
    receiver: bool,
    span: Span,
) -> Result<Value, ErrV> {
    match callee {
        Value::Overload(id) => match best_from(
            h,
            h.overload(id),
            args,
            values,
            receiver,
            0,
            None,
            false,
        ) {
            (Some((_, v)), tied) => if tied {
                Err(two_matched(h, callee, values, receiver, span))
            } else {
                Ok(v)
            },
            (None, _) => Err(nothing_matched(h, callee, values, receiver, span)),
        },
        _ => Ok(callee),
    }
}

/// The declaration that fits best, where any fits, even of a single one.
pub open spec fn fitting(h: HeapV, callee: Value, values: Seq<Value>, receiver: bool) -> Option<Value> {
    match best_from(
        h,
        candidates(h, callee),
        Seq::empty(),
        values,
        receiver,
        0,
        None,
        false,
    ).0 {
        Some((_, v)) => Some(v),
        None => None,
    }
}

impl Heap {
    fn describes_exactly(&self, ty: &TypeExpr, v: Value) -> (r: bool)
        ensures
            r == describes_exactly(self@, ty@, v),
    {
        assert(ty@.args == crate::syntax::ast::type_exprs_v(ty.args@));
        match self.base(v).handle() {
            Some(id) => match self.descriptor(id) {
                Some(held) => {
                    assert((*held)@.args == crate::syntax::ast::type_exprs_v(held.args@));
                    args_same(ty, &held.args)
                },
                None => ty.args.len() == 0,
            },
            None => ty.args.len() == 0,
        }
    }

    fn quality(&self, param: &Param, v: Value) -> (r: Option<u8>)
        ensures
            match r {
                Some(q) => quality(self@, param_v(*param), v) == Some(q as nat) && q <= 2,
                None => quality(self@, param_v(*param), v) is None,
            },
    {
        match &param.ty {
            None => Some(2),
            Some(ty) => {
                if !self.holds(ty, v) {
                    return None;
                }
                match &ty.name {
                    TypeName::Named(named) => {
                        if v == Value::Nil || ty.nullable {
                            return Some(1);
                        }
                        let kind = self.type_text(v);
                        if !same(kind.as_str(), named.as_str()) || !self.describes_exactly(ty, v) {
                            Some(1)
                        } else {
                            Some(0)
                        }
                    },
                    _ => Some(2),
                }
            },
        }
    }

    fn score(&self, params: &Vec<&Param>, filled: &Vec<Option<Value>>) -> (r: Option<u128>)
        ensures
            match r {
                Some(n) => score(self@, param_refs_v(params@), filled@, 0, 0) == Some(n as nat),
                None => score(self@, param_refs_v(params@), filled@, 0, 0) is None,
            },
    {
        let mut total: u128 = 0;
        let mut i: usize = 0;
        while i < params.len() && i < filled.len()
            invariant
                i <= params@.len(),
                total <= 2 * i,
                score(self@, param_refs_v(params@), filled@, 0, 0) == score(
                    self@,
                    param_refs_v(params@),
                    filled@,
                    i as int,
                    total as nat,
                ),
            decreases params@.len() - i,
        {
            match filled[i] {
                Some(v) => match self.quality(params[i], v) {
                    Some(q) => {
                        total += q as u128;
                    },
                    None => {
                        return None;
                    },
                },
                None => {
                    if params[i].default.is_none() {
                        return None;
                    }
                },
            }
            i += 1;
        }
        Some(total)
    }

    fn fit_of(&self, v: Value, args: &Vec<CallArg>, values: &Vec<Value>, receiver: bool) -> (r:
        Option<u128>)
        ensures
            match r {
                Some(n) => fit_of(self@, v, call_args_v(args@), values@, receiver) == Some(
                    n as nat,
                ),
                None => fit_of(self@, v, call_args_v(args@), values@, receiver) is None,
            },
    {
        match v {
            Value::Function(id) => match self.function(id) {
                Some((decl, _env, _owner)) => {
                    let params = params_of(&decl, receiver);
                    match fill(&params, args, values) {
                        Ok(held) => self.score(&params, &held),
                        Err(_) => None,
                    }
                },
                None => None,
            },
            _ => None,
        }
    }

    fn best(&self, set: &Vec<Value>, args: &Vec<CallArg>, values: &Vec<Value>, receiver: bool) -> (r: (
        Option<Value>,
        bool,
    ))
        ensures
            best_from(self@, set@, call_args_v(args@), values@, receiver, 0, None, false).1 == r.1,
            match r.0 {
                Some(v) => best_from(
                    self@,
                    set@,
                    call_args_v(args@),
                    values@,
                    receiver,
                    0,
                    None,
                    false,
                ).0 matches Some(found) && found.1 == v,
                None => best_from(
                    self@,
                    set@,
                    call_args_v(args@),
                    values@,
                    receiver,
                    0,
                    None,
                    false,
                ).0 is None,
            },
    {
        let ghost av = call_args_v(args@);
        let ghost goal = best_from(self@, set@, av, values@, receiver, 0, None, false);
        let mut best: Option<(u128, Value)> = None;
        let mut tied = false;
        let mut i: usize = 0;
        let ghost mut model: Option<(nat, Value)> = None;
        while i < set.len()
            invariant
                i <= set@.len(),
                av == call_args_v(args@),
                goal == best_from(self@, set@, av, values@, receiver, i as int, model, tied),
                match best {
                    Some((n, v)) => model == Some((n as nat, v)),
                    None => model is None,
                },
            decreases set@.len() - i,
        {
            if let Some(n) = self.fit_of(set[i], args, values, receiver) {
                match best {
                    Some((found, _v)) => {
                        if n == found {
                            tied = true;
                        } else if n < found {
                            best = Some((n, set[i]));
                            tied = false;
                            proof {
                                model = Some((n as nat, set@[i as int]));
                            }
                        }
                    },
                    None => {
                        best = Some((n, set[i]));
                        proof {
                            model = Some((n as nat, set@[i as int]));
                        }
                    },
                }
            }
            i += 1;
        }
        match best {
            Some((_n, v)) => (Some(v), tied),
            None => (None, tied),
        }
    }

    pub(crate) fn candidates(&self, callee: Value) -> (r: Vec<Value>)
        ensures
            r@ == candidates(self@, callee),
    {
        match callee {
            Value::Overload(id) => self.overload(id),
            _ => {
                let mut r: Vec<Value> = Vec::new();
                r.push(callee);
                assert(r@ =~= seq![callee]);
                r
            },
        }
    }

    /// How each declaration under a callee reads, as a parameter list.
    pub(crate) fn signatures(&self, callee: Value, receiver: bool) -> (r: Vec<String>)
        ensures
            strs(r@) == signatures(self@, candidates(self@, callee), receiver),
    {
        let set = self.candidates(callee);
        let mut r: Vec<String> = Vec::new();
        let mut i: usize = 0;
        assert(set@.take(0) =~= Seq::empty());
        assert(strs(r@) =~= Seq::empty());
        while i < set.len()
            invariant
                i <= set@.len(),
                strs(r@) == signatures(self@, set@.take(i as int), receiver),
            decreases set@.len() - i,
        {
            let ghost before = strs(r@);
            proof {
                let longer = set@.take(i + 1);
                assert(longer.drop_last() =~= set@.take(i as int));
                assert(longer.last() == set@[i as int]);
            }
            match set[i] {
                Value::Function(id) => match self.function(id) {
                    Some((decl, _env, _owner)) => {
                        let params = params_of(&decl, receiver);
                        let texts = written_params(&params);
                        let list = join(&texts, ", ");
                        let text = cat3("(", list.as_str(), ")");
                        r.push(text);
                        assert(strs(r@) =~= before.push(text@));
                    },
                    None => {},
                },
                _ => {},
            }
            i += 1;
        }
        assert(set@.take(i as int) =~= set@);
        r
    }

    pub(crate) fn type_texts(&self, values: &Vec<Value>) -> (r: Vec<String>)
        ensures
            strs(r@) == type_texts(self@, values@),
    {
        let mut r: Vec<String> = Vec::new();
        let mut i: usize = 0;
        while i < values.len()
            invariant
                i <= values@.len(),
                strs(r@) == type_texts(self@, values@).take(i as int),
            decreases values@.len() - i,
        {
            r.push(self.type_text(values[i]));
            assert(strs(r@) =~= type_texts(self@, values@).take(i + 1));
            i += 1;
        }
        assert(strs(r@) =~= type_texts(self@, values@));
        r
    }

    fn two_matched(&self, set: Value, values: &Vec<Value>, receiver: bool, span: Span) -> (r:
        QuinceError)
        ensures
            r@ == two_matched(self@, set, values@, receiver, span),
    {
        let name = self.plain_name(set);
        let given = join(&self.type_texts(values), ", ");
        let taken = join(&self.signatures(set, receiver), ", ");
        let help = cat3(
            "the declarations under that name take: ",
            taken.as_str(),
            " — an empty container is every element type at once, so say which with an annotated binding, or name the one you meant",
        );
        helped_type_error(
            cat5("more than one `", name.as_str(), "` takes (", given.as_str(), ")"),
            span,
            help.as_str(),
        )
    }

    fn nothing_matched(&self, set: Value, values: &Vec<Value>, receiver: bool, span: Span) -> (r:
        QuinceError)
        ensures
            r@ == nothing_matched(self@, set, values@, receiver, span),
    {
        let name = self.plain_name(set);
        let given = join(&self.type_texts(values), ", ");
        let taken = join(&self.signatures(set, receiver), ", ");
        let help = cat2("the declarations under that name take: ", taken.as_str());
        helped_type_error(
            cat5("no `", name.as_str(), "` takes (", given.as_str(), ")"),
            span,
            help.as_str(),
        )
    }

    /// The declaration a call reaches.
    pub fn selected(
        &self,
        callee: Value,
        args: &Vec<CallArg>,
        values: &Vec<Value>,
        receiver: bool,
        span: Span,
    ) -> (r: Result<Value, QuinceError>)
        ensures
            res(r) == selected(self@, callee, call_args_v(args@), values@, receiver, span),
    {
        match callee {
            Value::Overload(id) => {
                let set = self.overload(id);
                let (best, tied) = self.best(&set, args, values, receiver);
                match best {
                    Some(v) => if tied {
                        Err(self.two_matched(callee, values, receiver, span))
                    } else {
                        Ok(v)
                    },
                    None => Err(self.nothing_matched(callee, values, receiver, span)),
                }
            },
            _ => Ok(callee),
        }
    }

    /// The declaration that fits best, where any fits.
    pub(crate) fn fitting(&self, callee: Value, values: &Vec<Value>, receiver: bool) -> (r: Option<
        Value,
    >)
        ensures
            r == fitting(self@, callee, values@, receiver),
    {
        let set = self.candidates(callee);
        let none: Vec<CallArg> = Vec::new();
        self.best(&set, &none, values, receiver).0
    }
}

pub(crate) fn written_params(params: &Vec<&Param>) -> (r: Vec<String>)
    ensures
        strs(r@) == param_texts(param_refs_v(params@)),
{
    let mut r: Vec<String> = Vec::new();
    let mut i: usize = 0;
    while i < params.len()
        invariant
            i <= params@.len(),
            strs(r@) == param_texts(param_refs_v(params@)).take(i as int),
        decreases params@.len() - i,
    {
        r.push(
            match &params[i].ty {
                Some(ty) => ty.written(),
                None => "any".to_owned(),
            },
        );
        assert(strs(r@) =~= param_texts(param_refs_v(params@)).take(i + 1));
        i += 1;
    }
    assert(strs(r@) =~= param_texts(param_refs_v(params@)));
    r
}

// -- shapes ------------------------------------------------------------------------------------

/// The declaration a call is about to reach: its parameters and defaults, the scope the
/// defaults are evaluated in, and whether a receiver goes in front.
pub struct Shape {
    pub decl: Rc<FnDecl>,
    pub env: ObjId,
    pub receiver: bool,
}

pub struct ShapeV {
    pub decl: FnDeclV,
    pub env: ObjId,
    pub receiver: bool,
}

impl View for Shape {
    type V = ShapeV;

    open spec fn view(&self) -> ShapeV {
        ShapeV { decl: fn_decl_v(*self.decl), env: self.env, receiver: self.receiver }
    }
}

pub open spec fn opt_shape(s: Option<Shape>) -> Option<ShapeV> {
    match s {
        Some(s) => Some(s@),
        None => None,
    }
}

pub open spec fn shapes(r: Result<Option<Shape>, QuinceError>) -> Result<Option<ShapeV>, ErrV> {
    match r {
        Ok(s) => Ok(opt_shape(s)),
        Err(e) => Err(e@),
    }
}

/// The shape of a chosen declaration; a builtin has none.
pub open spec fn shape_of(h: HeapV, v: Value, receiver: bool) -> Option<ShapeV> {
    match v {
        Value::Function(id) => match h.function(id) {
            Some(f) => Some(ShapeV { decl: f.decl, env: f.env, receiver }),
            None => None,
        },
        _ => None,
    }
}

/// The shape of a method called with its receiver in front.
pub open spec fn shape_for_method(
    h: HeapV,
    method: Value,
    args: Seq<CallArgV>,
    values: Seq<Value>,
    receiver: bool,
    span: Span,
) -> Result<Option<ShapeV>, ErrV> {
    match selected(h, method, args, values, receiver, span) {
        Ok(v) => Ok(shape_of(h, v, receiver)),
        Err(e) => Err(e),
    }
}

/// The shape of what a call expression calls. A class runs its `op init`, and a bound
/// method puts what it is bound to in front.
pub open spec fn shape_for(
    h: HeapV,
    target: Value,
    args: Seq<CallArgV>,
    values: Seq<Value>,
    span: Span,
) -> Result<Option<ShapeV>, ErrV> {
    match target {
        Value::Class(id) => match h.class_slot(id, Op::Init) {
            Some(init) => shape_for_method(h, init, args, values, true, span),
            None => Ok(None),
        },
        Value::BoundMethod(id) => shape_for_method(h, h.bound(id).1, args, values, true, span),
        _ => shape_for_method(h, target, args, values, false, span),
    }
}

impl Heap {
    /// The shape of a method called with its receiver in front.
    pub(crate) fn shape_for_method(
        &self,
        method: Value,
        args: &Vec<CallArg>,
        values: &Vec<Value>,
        receiver: bool,
        span: Span,
    ) -> (r: Result<Option<Shape>, QuinceError>)
        ensures
            shapes(r) == shape_for_method(
                self@,
                method,
                call_args_v(args@),
                values@,
                receiver,
                span,
            ),
    {
        match self.selected(method, args, values, receiver, span) {
            Ok(v) => match v {
                Value::Function(id) => match self.function(id) {
                    Some((decl, env, _owner)) => Ok(Some(Shape { decl, env, receiver })),
                    None => Ok(None),
                },
                _ => Ok(None),
            },
            Err(e) => Err(e),
        }
    }

    /// The shape of what a call expression calls.
    pub(crate) fn shape_for(
        &self,
        target: Value,
        args: &Vec<CallArg>,
        values: &Vec<Value>,
        span: Span,
    ) -> (r: Result<Option<Shape>, QuinceError>)
        ensures
            shapes(r) == shape_for(self@, target, call_args_v(args@), values@, span),
    {
        match target {
            Value::Class(id) => match self.class_slot(id, Op::Init) {
                Some(init) => self.shape_for_method(init, args, values, true, span),
                None => Ok(None),
            },
            Value::BoundMethod(id) => {
                let (_receiver, method) = self.bound(id);
                self.shape_for_method(method, args, values, true, span)
            },
            _ => self.shape_for_method(target, args, values, false, span),
        }
    }
}

// -- arranging ------------------------------------------------------------------------------------

/// The first named argument.
pub open spec fn first_named(args: Seq<CallArgV>, from: int) -> Option<int>
    decreases args.len() - from,
{
    if from < 0 || from >= args.len() {
        None
    } else if args[from].name is Some {
        Some(from)
    } else {
        first_named(args, from + 1)
    }
}

/// How many parameters have no default.
pub open spec fn required(params: Seq<ParamV>, n: int) -> nat
    decreases n,
{
    if n <= 0 || n > params.len() {
        0
    } else {
        required(params, n - 1) + if params[n - 1].default is None {
            1nat
        } else {
            0
        }
    }
}

pub open spec fn too_many_arguments(
    name: Seq<char>,
    params: Seq<ParamV>,
    given: nat,
    span: Span,
) -> ErrV {
    let wanted = required(params, params.len() as int);
    err(
        ErrorKind::Type,
        "`"@ + name + "` takes "@ + (if wanted == params.len() {
            digits(wanted)
        } else {
            digits(wanted) + " to "@ + digits(params.len())
        }) + " arguments, but "@ + digits(given) + " were given"@,
        span,
    )
}

pub open spec fn param_names(params: Seq<ParamV>) -> Seq<Seq<char>> {
    Seq::new(params.len(), |i: int| params[i].name)
}

pub open spec fn no_such_parameter(
    name: Seq<char>,
    params: Seq<ParamV>,
    given: Seq<char>,
    span: Span,
) -> ErrV {
    err_help(
        ErrorKind::Type,
        "`"@ + name + "` has no parameter called `"@ + given + "`"@,
        span,
        if params.len() == 0 {
            "`"@ + name + "` takes no arguments at all"@
        } else {
            "it takes: "@ + joined(param_names(params), ", "@)
        },
    )
}

pub open spec fn given_twice(given: Seq<char>, place: int, positional: int, span: Span) -> ErrV {
    err_help(
        ErrorKind::Type,
        "`"@ + given + "` is given twice"@,
        span,
        if place < positional {
            "argument "@ + digits((place + 1) as nat)
                + " already filled it — a parameter is filled once, and last-wins would make which value arrives depend on a reading order nobody agrees on"@
        } else {
            "a parameter is filled once — delete one of them"@
        },
    )
}

pub open spec fn arg_name(args: Seq<CallArgV>, i: int) -> Seq<char> {
    if 0 <= i < args.len() && args[i].name is Some {
        args[i].name->0
    } else {
        Seq::empty()
    }
}

/// The report for arguments that do not line up.
pub open spec fn misfit_error(
    m: Misfit,
    name: Seq<char>,
    params: Seq<ParamV>,
    args: Seq<CallArgV>,
    span: Span,
) -> ErrV {
    match m {
        Misfit::TooMany => too_many_arguments(name, params, args.len(), span),
        Misfit::NoSuch(i) => no_such_parameter(
            name,
            params,
            arg_name(args, i as int),
            if i < args.len() {
                args[i as int].name_span
            } else {
                span
            },
        ),
        Misfit::Twice(i, j) => given_twice(
            arg_name(args, i as int),
            j as int,
            leading(args, 0),
            if i < args.len() {
                args[i as int].name_span
            } else {
                span
            },
        ),
    }
}

/// Arguments on the way to a call: in order already, or with parameters left to their
/// defaults.
pub enum Arranged {
    Done(Vec<Value>),
    Filled(Vec<Option<Value>>),
}

pub enum ArrangedV {
    Done(Seq<Value>),
    Filled(Seq<Option<Value>>),
}

impl View for Arranged {
    type V = ArrangedV;

    open spec fn view(&self) -> ArrangedV {
        match *self {
            Arranged::Done(v) => ArrangedV::Done(v@),
            Arranged::Filled(v) => ArrangedV::Filled(v@),
        }
    }
}

pub open spec fn arrangement(r: Result<Arranged, QuinceError>) -> Result<ArrangedV, ErrV> {
    match r {
        Ok(a) => Ok(a@),
        Err(e) => Err(e@),
    }
}

/// Turns the arguments a call wrote into what each parameter is given. A builtin takes
/// its arguments as they come, and none of them by name.
pub open spec fn s_arrange(
    shape: Option<ShapeV>,
    args: Seq<CallArgV>,
    values: Seq<Value>,
    name: Seq<char>,
    span: Span,
) -> Result<ArrangedV, ErrV> {
    match shape {
        None => match first_named(args, 0) {
            Some(i) => Err(
                err_help(
                    ErrorKind::Type,
                    "`"@ + name + "` does not take arguments by name"@,
                    args[i].name_span,
                    "it is built into the language, and its parameters are positional — pass the value for `"@
                        + arg_name(args, i) + "` in order"@,
                ),
            ),
            None => Ok(ArrangedV::Done(values)),
        },
        Some(shape) => {
            let params = params_after(shape.decl.params, shape.receiver);
            if first_named(args, 0) is None && required(params, params.len() as int)
                == params.len() {
                match s_check_arity(name, params.len(), values.len(), span) {
                    Ok(_) => Ok(ArrangedV::Done(values)),
                    Err(e) => Err(e),
                }
            } else {
                match filled(params, args, values) {
                    Ok(held) => Ok(ArrangedV::Filled(held)),
                    Err(m) => Err(misfit_error(m, name, params, args, span)),
                }
            }
        },
    }
}

fn find_named(args: &Vec<CallArg>) -> (r: Option<usize>)
    ensures
        match r {
            Some(i) => first_named(call_args_v(args@), 0) == Some(i as int) && i < args@.len()
                && args@[i as int].name is Some,
            None => first_named(call_args_v(args@), 0) is None,
        },
{
    let mut i: usize = 0;
    while i < args.len()
        invariant
            i <= args@.len(),
            first_named(call_args_v(args@), 0) == first_named(call_args_v(args@), i as int),
        decreases args@.len() - i,
    {
        if args[i].name.is_some() {
            return Some(i);
        }
        i += 1;
    }
    None
}

fn count_required(params: &Vec<&Param>) -> (r: usize)
    ensures
        r == required(param_refs_v(params@), params@.len() as int),
{
    let mut n: usize = 0;
    let mut i: usize = 0;
    while i < params.len()
        invariant
            i <= params@.len(),
            n <= i,
            n == required(param_refs_v(params@), i as int),
        decreases params@.len() - i,
    {
        if params[i].default.is_none() {
            n += 1;
        }
        i += 1;
    }
    n
}

fn names_of_params(params: &Vec<&Param>) -> (r: Vec<String>)
    ensures
        strs(r@) == param_names(param_refs_v(params@)),
{
    let mut r: Vec<String> = Vec::new();
    let mut i: usize = 0;
    while i < params.len()
        invariant
            i <= params@.len(),
            strs(r@) == param_names(param_refs_v(params@)).take(i as int),
        decreases params@.len() - i,
    {
        r.push(params[i].name.clone());
        assert(strs(r@) =~= param_names(param_refs_v(params@)).take(i + 1));
        i += 1;
    }
    assert(strs(r@) =~= param_names(param_refs_v(params@)));
    r
}

fn too_many(name: &str, params: &Vec<&Param>, given: usize, span: Span) -> (r: QuinceError)
    ensures
        r@ == too_many_arguments(name@, param_refs_v(params@), given as nat, span),
{
    let wanted = count_required(params);
    let low = digits_of(wanted as u64);
    let high = digits_of(params.len() as u64);
    let takes = if wanted == params.len() {
        low
    } else {
        cat3(low.as_str(), " to ", high.as_str())
    };
    let count = digits_of(given as u64);
    plain_type_error(
        cat7(
            "`",
            name,
            "` takes ",
            takes.as_str(),
            " arguments, but ",
            count.as_str(),
            " were given",
        ),
        span,
    )
}

fn arg_name_of(args: &Vec<CallArg>, i: usize) -> (r: String)
    ensures
        r@ == arg_name(call_args_v(args@), i as int),
{
    if i < args.len() {
        if let Some(name) = &args[i].name {
            return name.clone();
        }
    }
    let r = String::new();
    assert(r@ =~= Seq::empty());
    r
}

fn arg_span(args: &Vec<CallArg>, i: usize, span: Span) -> (r: Span)
    ensures
        r == if i < args@.len() {
            call_args_v(args@)[i as int].name_span
        } else {
            span
        },
{
    if i < args.len() {
        args[i].name_span
    } else {
        span
    }
}

fn misfit(m: Misfit, name: &str, params: &Vec<&Param>, args: &Vec<CallArg>, span: Span) -> (r:
    QuinceError)
    requires
        m matches Misfit::Twice(_, j) ==> j < usize::MAX,
    ensures
        r@ == misfit_error(m, name@, param_refs_v(params@), call_args_v(args@), span),
{
    match m {
        Misfit::TooMany => too_many(name, params, args.len(), span),
        Misfit::NoSuch(i) => {
            let given = arg_name_of(args, i);
            let at = arg_span(args, i, span);
            let help = if params.len() == 0 {
                cat3("`", name, "` takes no arguments at all")
            } else {
                let list = join(&names_of_params(params), ", ");
                cat2("it takes: ", list.as_str())
            };
            helped_type_error(
                cat5("`", name, "` has no parameter called `", given.as_str(), "`"),
                at,
                help.as_str(),
            )
        },
        Misfit::Twice(i, j) => {
            let given = arg_name_of(args, i);
            let at = arg_span(args, i, span);
            let help = if j < count_leading(args) {
                let place = digits_of((j + 1) as u64);
                cat3(
                    "argument ",
                    place.as_str(),
                    " already filled it — a parameter is filled once, and last-wins would make which value arrives depend on a reading order nobody agrees on",
                )
            } else {
                "a parameter is filled once — delete one of them".to_owned()
            };
            helped_type_error(cat3("`", given.as_str(), "` is given twice"), at, help.as_str())
        },
    }
}

proof fn lemma_misfit_place(
    params: Seq<ParamV>,
    args: Seq<CallArgV>,
    values: Seq<Value>,
    i: int,
    held: Seq<Option<Value>>,
)
    requires
        params.len() <= usize::MAX,
    ensures
        fill_from(params, args, values, i, held) matches Err(Misfit::Twice(_, j)) ==> j
            < params.len(),
    decreases args.len() - i,
{
    if 0 <= i < args.len() && i < values.len() && args[i].name is Some {
        lemma_param_place(params, args[i].name->0, 0);
        if let Some(j) = param_place(params, args[i].name->0, 0) {
            lemma_misfit_place(params, args, values, i + 1, held.update(j, Some(values[i])));
        }
    }
}

proof fn lemma_param_place(params: Seq<ParamV>, name: Seq<char>, from: int)
    ensures
        param_place(params, name, from) matches Some(j) ==> from <= j < params.len()
            && params[j].name == name,
    decreases params.len() - from,
{
    if 0 <= from < params.len() && params[from].name != name {
        lemma_param_place(params, name, from + 1);
    }
}

/// [`s_arrange`], computed.
pub(crate) fn arrange(
    shape: &Option<Shape>,
    args: &Vec<CallArg>,
    values: Vec<Value>,
    name: &str,
    span: Span,
) -> (r: Result<Arranged, QuinceError>)
    ensures
        arrangement(r) == s_arrange(
            opt_shape(*shape),
            call_args_v(args@),
            values@,
            name@,
            span,
        ),
{
    match shape {
        None => match find_named(args) {
            Some(i) => {
                let given = arg_name_of(args, i);
                let help = cat3(
                    "it is built into the language, and its parameters are positional — pass the value for `",
                    given.as_str(),
                    "` in order",
                );
                Err(
                    helped_type_error(
                        cat3("`", name, "` does not take arguments by name"),
                        args[i].name_span,
                        help.as_str(),
                    ),
                )
            },
            None => Ok(Arranged::Done(values)),
        },
        Some(shape) => {
            let params = params_of(&shape.decl, shape.receiver);
            let count: usize = params.len();
            if find_named(args).is_none() && count_required(&params) == count {
                check_arity(name, count, values.len(), span)?;
                return Ok(Arranged::Done(values));
            }
            match fill(&params, args, &values) {
                Ok(held) => Ok(Arranged::Filled(held)),
                Err(m) => {
                    proof {
                        let n = positional(call_args_v(args@), values@);
                        let pv = param_refs_v(params@);
                        lemma_misfit_place(
                            pv,
                            call_args_v(args@),
                            values@,
                            n,
                            Seq::new(
                                pv.len(),
                                |j: int|
                                    if j < n && j < values@.len() {
                                        Some(values@[j])
                                    } else {
                                        None
                                    },
                            ),
                        );
                    }
                    Err(misfit(m, name, &params, args, span))
                },
            }
        },
    }
}

// -- conversions ------------------------------------------------------------------------------------

/// The first one-argument constructor of a set that takes a value.
pub open spec fn converting(h: HeapV, set: Seq<Value>, v: Value, from: int) -> Option<FnDeclV>
    decreases set.len() - from,
{
    if from < 0 || from >= set.len() {
        None
    } else {
        match set[from] {
            Value::Function(id) => match h.function(id) {
                Some(f) => if f.decl.params.len() == 2 && (f.decl.params[1].ty is None || holds(
                    h,
                    f.decl.params[1].ty->0,
                    v,
                )) {
                    Some(f.decl)
                } else {
                    converting(h, set, v, from + 1)
                },
                None => converting(h, set, v, from + 1),
            },
            _ => converting(h, set, v, from + 1),
        }
    }
}

impl Heap {
    /// Whether a set has a one-argument constructor that takes a value, and whether the
    /// first is `explicit`.
    pub(crate) fn converting(&self, init: Value, v: Value) -> (r: Option<bool>)
        ensures
            match r {
                Some(explicit) => converting(self@, candidates(self@, init), v, 0) matches Some(d)
                    && d.explicit == explicit,
                None => converting(self@, candidates(self@, init), v, 0) is None,
            },
    {
        let set = self.candidates(init);
        let mut i: usize = 0;
        while i < set.len()
            invariant
                i <= set@.len(),
                set@ == candidates(self@, init),
                converting(self@, set@, v, 0) == converting(self@, set@, v, i as int),
            decreases set@.len() - i,
        {
            if let Value::Function(id) = set[i] {
                if let Some((decl, _env, _owner)) = self.function(id) {
                    assert(fn_decl_v(*decl).params == params_v(decl.params@));
                    if decl.params.len() == 2 {
                        assert(params_v(decl.params@)[1] == param_v(decl.params@[1]));
                        let takes = match &decl.params[1].ty {
                            Some(ty) => self.holds(ty, v),
                            None => true,
                        };
                        if takes {
                            return Some(decl.explicit);
                        }
                    }
                }
            }
            i += 1;
        }
        None
    }
}

// -- laws --------------------------------------------------------------------------------------------

/// An ordinary callee is never a matter of choice.
pub proof fn law_a_lone_declaration_is_chosen(
    h: HeapV,
    callee: Value,
    args: Seq<CallArgV>,
    values: Seq<Value>,
    receiver: bool,
    span: Span,
)
    requires
        !(callee is Overload),
    ensures
        selected(h, callee, args, values, receiver, span) == Ok::<Value, ErrV>(callee),
{
}

/// Whether a declaration of a set takes the arguments, and every other takes them worse or not
/// at all.
pub open spec fn fits_best(
    h: HeapV,
    set: Seq<Value>,
    args: Seq<CallArgV>,
    values: Seq<Value>,
    receiver: bool,
    k: int,
) -> bool {
    &&& 0 <= k < set.len()
    &&& fit_of(h, set[k], args, values, receiver) is Some
    &&& forall|j: int|
        0 <= j < set.len() && j != k ==> match fit_of(h, #[trigger] set[j], args, values, receiver) {
            Some(n) => fit_of(h, set[k], args, values, receiver)->0 < n,
            None => true,
        }
}

/// What is known of the best of the first `i` of a set: which it is, and whether another of
/// them is as good.
spec fn is_best(
    h: HeapV,
    set: Seq<Value>,
    args: Seq<CallArgV>,
    values: Seq<Value>,
    receiver: bool,
    i: int,
    best: Option<(nat, Value)>,
    tied: bool,
) -> bool {
    if best is Some {
        exists|k: int| #[trigger]
            best_at(h, set, args, values, receiver, i, (best->0).0, (best->0).1, tied, k)
    } else {
        !tied && forall|k: int|
            0 <= k < i ==> fit_of(h, #[trigger] set[k], args, values, receiver) is None
    }
}

spec fn best_at(
    h: HeapV,
    set: Seq<Value>,
    args: Seq<CallArgV>,
    values: Seq<Value>,
    receiver: bool,
    i: int,
    n: nat,
    v: Value,
    tied: bool,
    k: int,
) -> bool {
    &&& 0 <= k < i
    &&& set[k] == v
    &&& fit_of(h, v, args, values, receiver) == Some(n)
    &&& forall|j: int|
        0 <= j < i ==> match fit_of(h, #[trigger] set[j], args, values, receiver) {
            Some(m) => n <= m,
            None => true,
        }
    &&& tied <==> exists|j: int|
        0 <= j < i && j != k && fit_of(h, #[trigger] set[j], args, values, receiver) == Some(n)
}

proof fn lemma_best_at(
    h: HeapV,
    set: Seq<Value>,
    args: Seq<CallArgV>,
    values: Seq<Value>,
    receiver: bool,
    i: int,
    n: nat,
    v: Value,
    tied: bool,
    k: int,
)
    requires
        best_at(h, set, args, values, receiver, i, n, v, tied, k),
    ensures
        is_best(h, set, args, values, receiver, i, Some((n, v)), tied),
{
    let best = Some((n, v));
    assert((best->0).0 == n && (best->0).1 == v);
    assert(best_at(h, set, args, values, receiver, i, (best->0).0, (best->0).1, tied, k));
    assert(is_best(h, set, args, values, receiver, i, best, tied));
}

#[verifier::spinoff_prover]
proof fn lemma_best(
    h: HeapV,
    set: Seq<Value>,
    args: Seq<CallArgV>,
    values: Seq<Value>,
    receiver: bool,
    i: int,
    best: Option<(nat, Value)>,
    tied: bool,
)
    requires
        0 <= i <= set.len(),
        is_best(h, set, args, values, receiver, i, best, tied),
    ensures
        ({
            let (r, t) = best_from(h, set, args, values, receiver, i, best, tied);
            is_best(h, set, args, values, receiver, set.len() as int, r, t)
        }),
    decreases set.len() - i,
{
    if i < set.len() {
        let fit = fit_of(h, set[i], args, values, receiver);
        match (fit, best) {
            (None, None) => {
                lemma_best(h, set, args, values, receiver, i + 1, best, tied);
            },
            (None, Some((found, v))) => {
                let k = choose|k: int| #[trigger]
                    best_at(h, set, args, values, receiver, i, found, v, tied, k);
                assert(best_at(h, set, args, values, receiver, i + 1, found, v, tied, k));
                lemma_best(h, set, args, values, receiver, i + 1, best, tied);
            },
            (Some(n), None) => {
                let w = set[i];
                let next = Some((n, w));
                assert(best_at(h, set, args, values, receiver, i + 1, n, w, tied, i));
                lemma_best_at(h, set, args, values, receiver, i + 1, n, w, tied, i);
                lemma_best(h, set, args, values, receiver, i + 1, next, tied);
            },
            (Some(n), Some((found, v))) => {
                let k = choose|k: int| #[trigger]
                    best_at(h, set, args, values, receiver, i, found, v, tied, k);
                if n == found {
                    assert(fit_of(h, set[i], args, values, receiver) == Some(found));
                    assert(best_at(h, set, args, values, receiver, i + 1, found, v, true, k));
                    lemma_best(h, set, args, values, receiver, i + 1, best, true);
                } else if n < found {
                    let w = set[i];
                    let next = Some((n, w));
                    assert(best_at(h, set, args, values, receiver, i + 1, n, w, false, i));
                    lemma_best_at(h, set, args, values, receiver, i + 1, n, w, false, i);
                    lemma_best(h, set, args, values, receiver, i + 1, next, false);
                } else {
                    assert(best_at(h, set, args, values, receiver, i + 1, found, v, tied, k));
                    lemma_best(h, set, args, values, receiver, i + 1, best, tied);
                }
            },
        }
    }
}

/// A declaration of a set is chosen just where it takes the arguments and every other takes
/// them worse or not at all. Where none takes them, or two do equally well, none is chosen.
pub proof fn law_the_best_fit_is_chosen(
    h: HeapV,
    id: ObjId,
    args: Seq<CallArgV>,
    values: Seq<Value>,
    receiver: bool,
    span: Span,
    v: Value,
)
    ensures
        selected(h, Value::Overload(id), args, values, receiver, span) == Ok::<Value, ErrV>(v)
            <==> exists|k: int| #[trigger]
            fits_best(h, h.overload(id), args, values, receiver, k) && h.overload(id)[k] == v,
        selected(h, Value::Overload(id), args, values, receiver, span) is Err <==> forall|k: int|
            !(#[trigger] fits_best(h, h.overload(id), args, values, receiver, k)),
{
    let set = h.overload(id);
    let n = set.len() as int;
    lemma_best(h, set, args, values, receiver, 0, None, false);
    let (r, tied) = best_from(h, set, args, values, receiver, 0, None, false);
    match r {
        None => {
            assert forall|k: int| !(#[trigger] fits_best(h, set, args, values, receiver, k)) by {}
        },
        Some((m, w)) => {
            let k = choose|k: int| #[trigger] best_at(h, set, args, values, receiver, n, m, w, tied, k);
            if tied {
                let j = choose|j: int|
                    0 <= j < n && j != k && fit_of(h, #[trigger] set[j], args, values, receiver) == Some(m);
                assert forall|x: int| !(#[trigger] fits_best(h, set, args, values, receiver, x)) by {
                    if fits_best(h, set, args, values, receiver, x) {
                        let other = if x == k { j } else { k };
                        assert(fit_of(h, set[other], args, values, receiver) == Some(m));
                        assert(fit_of(h, set[x], args, values, receiver)->0 >= m);
                    }
                }
            } else {
                assert forall|j: int| 0 <= j < n && j != k implies match fit_of(
                    h,
                    #[trigger] set[j],
                    args,
                    values,
                    receiver,
                ) {
                    Some(x) => m < x,
                    None => true,
                } by {}
                assert(fits_best(h, set, args, values, receiver, k));
                assert forall|x: int| #[trigger] fits_best(h, set, args, values, receiver, x) implies x == k by {
                    if x != k {
                        assert(fit_of(h, set[k], args, values, receiver) == Some(m));
                        assert(fit_of(h, set[x], args, values, receiver)->0 >= m);
                    }
                }
            }
        },
    }
}

} // verus!
