//! Coercion: what a value becomes at a boundary that states a type, and what stands
//! where nothing was written.

use crate::error::{err_help, res, ErrV, ErrorKind, QuinceError};
use crate::interp::call::s_call;
use crate::interp::dict::{entry_keys, entry_put, entry_values, keys_of, values_in};
use crate::interp::dispatch::{candidates, converting};
use crate::interp::error::{does_not_hold, helped_type_error, not_held, too_far, too_far_error};
use crate::interp::eval::s_eval;
use crate::interp::fit::{
    as_named, caret, class_named, declared_by, names, names_a_type, no_such_type,
    no_such_type_error, offending, unwritten, widened, Written, WrittenV,
};
use crate::interp::generic::{infer_header, inferred_header, substitute, substituted};
use crate::interp::params::current;
use crate::interp::state::{
    bindings_v, released, rooted, s_list, s_text, with_heap, with_new, Binding, Interp, Out, St,
};
use crate::runtime::class::{base, type_text};
use crate::runtime::heap::{frozen_by, HeapV};
use crate::runtime::object::{opt_handle, opt_ty, Entry, ObjV, Object};
use crate::runtime::types::{an, holds, with_article};
use crate::runtime::value::{ObjId, Value};
use crate::syntax::ast::{
    group_models, type_exprs_v, Expr, ExprV, Op, TypeExpr, TypeExprV, TypeName, TypeNameV,
};
use crate::syntax::parser::{opt_expr, opt_type};
use crate::syntax::token::Span;
use crate::text::{cat3, cat4, cat5, digits, digits_of, same};
use std::rc::Rc;
use vstd::prelude::*;

verus! {

broadcast use group_models;

// -- conversion by construction --------------------------------------------------------------

pub open spec fn explicit_only(h: HeapV, name: Seq<char>, v: Value, span: Span) -> ErrV {
    err_help(
        ErrorKind::Type,
        "`"@ + name + "`'s constructor is `explicit`, so "@ + an(type_text(h, v))
            + " does not become one on its own"@,
        span,
        "write `"@ + name
            + "(…)` — the class marked its constructor `explicit` because the argument is not a conversion, and naming the class is what makes the call read"@,
    )
}

/// The class whose constructor a value could be passed to, and whether the constructor
/// is `explicit`.
pub open spec fn conversion(st: St, ty: TypeExprV, v: Value) -> Option<(ObjId, bool)> {
    match ty.name {
        TypeNameV::Named(name) => if v == Value::Nil {
            None
        } else {
            match class_named(st, name) {
                None => None,
                Some(id) => match st.heap.class_slot(id, Op::Init) {
                    None => None,
                    Some(init) => match converting(st.heap, candidates(st.heap, init), v, 0) {
                        None => None,
                        Some(decl) => Some((id, decl.explicit)),
                    },
                },
            }
        },
        _ => None,
    }
}

/// The value a one-argument constructor makes of another, where the type names a class
/// that has one.
pub open spec fn s_constructed(f: nat, st: St, ty: TypeExprV, v: Value, span: Span) -> Out<
    Option<Value>,
>
    decreases f,
{
    match conversion(st, ty, v) {
        None => (st, Ok(None)),
        Some((id, explicit)) => if explicit {
            (st, Err(explicit_only(st.heap, ty.name->Named_0, v, span)))
        } else if f == 0 {
            (st, Err(too_far(span)))
        } else {
            match s_call((f - 1) as nat, st, Value::Class(id), seq![v], span) {
                (st1, Ok(built)) => (st1, Ok(Some(built))),
                (st1, Err(e)) => (st1, Err(e)),
            }
        },
    }
}

impl Interp {
    fn conversion(&self, ty: &TypeExpr, v: Value) -> (r: Option<(ObjId, bool)>)
        ensures
            r == conversion(self@, ty@, v),
    {
        match &ty.name {
            TypeName::Named(name) => {
                if v == Value::Nil {
                    return None;
                }
                match self.class_named(name.as_str()) {
                    None => None,
                    Some(id) => match self.heap.class_slot(id, Op::Init) {
                        None => None,
                        Some(init) => match self.heap.converting(init, v) {
                            None => None,
                            Some(explicit) => Some((id, explicit)),
                        },
                    },
                }
            },
            _ => None,
        }
    }

    fn explicit_only(&self, name: &str, v: Value, span: Span) -> (r: QuinceError)
        ensures
            r@ == explicit_only(self@.heap, name@, v, span),
    {
        let kind = self.heap.type_text(v);
        let noun = with_article(kind.as_str());
        let help = cat3(
            "write `",
            name,
            "(…)` — the class marked its constructor `explicit` because the argument is not a conversion, and naming the class is what makes the call read",
        );
        helped_type_error(
            cat5(
                "`",
                name,
                "`'s constructor is `explicit`, so ",
                noun.as_str(),
                " does not become one on its own",
            ),
            span,
            help.as_str(),
        )
    }

    fn constructed(&mut self, ty: &TypeExpr, v: Value, span: Span, fuel: u64) -> (r: Result<
        Option<Value>,
        QuinceError,
    >)
        ensures
            (final(self)@, res(r)) == s_constructed(fuel as nat, old(self)@, ty@, v, span),
        decreases fuel,
    {
        match self.conversion(ty, v) {
            None => Ok(None),
            Some((id, explicit)) => {
                if explicit {
                    if let TypeName::Named(name) = &ty.name {
                        return Err(self.explicit_only(name.as_str(), v, span));
                    }
                    return Ok(None);
                }
                if fuel == 0 {
                    return Err(too_far_error(span));
                }
                let args = crate::interp::ops::one(v);
                let built = self.call(Value::Class(id), args, span, fuel - 1)?;
                Ok(Some(built))
            },
        }
    }
}

// -- what a container holds ------------------------------------------------------------------

/// Values from `i` on, each coerced, behind those that were.
pub open spec fn s_widen_all(
    f: nat,
    st: St,
    ty: TypeExprV,
    values: Seq<Value>,
    what: Seq<char>,
    span: Span,
    i: int,
    so_far: Seq<Value>,
) -> Out<Seq<Value>>
    decreases f,
{
    if i < 0 || i >= values.len() {
        (st, Ok(so_far))
    } else if f == 0 {
        (st, Err(too_far(span)))
    } else {
        match s_coerced((f - 1) as nat, st, ty, values[i], what, span, unwritten()) {
            (st1, Ok(v)) => s_widen_all(
                (f - 1) as nat,
                rooted(st1, v),
                ty,
                values,
                what,
                span,
                i + 1,
                so_far.push(v),
            ),
            (st1, Err(e)) => (st1, Err(e)),
        }
    }
}

/// Entries of a dict set one after another.
pub open spec fn entries_put(h: HeapV, id: ObjId, keys: Seq<Value>, values: Seq<Value>, i: int) -> HeapV
    decreases keys.len() - i,
{
    if i < 0 || i >= keys.len() || i >= values.len() {
        h
    } else {
        entries_put(entry_put(h, id, keys[i], values[i]), id, keys, values, i + 1)
    }
}

/// A container's items or values coerced to what its type says of them.
pub open spec fn s_widen(f: nat, st: St, ty: TypeExprV, v: Value, span: Span) -> Out<()>
    decreases f,
{
    let mark = st.temps.len() as int;
    if f == 0 {
        (st, Err(too_far(span)))
    } else {
        match base(st.heap, v) {
            Value::List(id) => if names(ty, "list"@) && ty.args.len() > 0 {
                match s_widen_all(
                    (f - 1) as nat,
                    rooted(st, v),
                    ty.args[0],
                    st.heap.list(id),
                    "the item"@,
                    span,
                    0,
                    Seq::empty(),
                ) {
                    (st1, Ok(items)) => {
                        let st2 = released(st1, mark);
                        (
                            if st2.heap.frozen(id) {
                                st2
                            } else {
                                with_heap(st2, st2.heap.with_object(id, ObjV::List(items)))
                            },
                            Ok(()),
                        )
                    },
                    (st1, Err(e)) => (released(st1, mark), Err(e)),
                }
            } else {
                (st, Ok(()))
            },
            Value::Dict(id) => if names(ty, "dict"@) && ty.args.len() > 1 {
                match s_widen_all(
                    (f - 1) as nat,
                    rooted(st, v),
                    ty.args[1],
                    values_in(st.heap.dict(id)),
                    "the value"@,
                    span,
                    0,
                    Seq::empty(),
                ) {
                    (st1, Ok(values)) => {
                        let st2 = released(st1, mark);
                        (
                            if st2.heap.frozen(id) {
                                st2
                            } else {
                                with_heap(
                                    st2,
                                    entries_put(
                                        st2.heap,
                                        id,
                                        keys_of(st.heap.dict(id)),
                                        values,
                                        0,
                                    ),
                                )
                            },
                            Ok(()),
                        )
                    },
                    (st1, Err(e)) => (released(st1, mark), Err(e)),
                }
            } else {
                (st, Ok(()))
            },
            _ => (st, Ok(())),
        }
    }
}

pub open spec fn value_list(r: Result<Vec<Value>, QuinceError>) -> Result<Seq<Value>, ErrV> {
    match r {
        Ok(v) => Ok(v@),
        Err(e) => Err(e@),
    }
}

impl Interp {
    fn widen_all(
        &mut self,
        ty: &TypeExpr,
        values: &Vec<Value>,
        what: &str,
        span: Span,
        fuel: u64,
    ) -> (r: Result<Vec<Value>, QuinceError>)
        ensures
            (final(self)@, value_list(r)) == s_widen_all(
                fuel as nat,
                old(self)@,
                ty@,
                values@,
                what@,
                span,
                0,
                Seq::empty(),
            ),
        decreases fuel,
    {
        let ghost goal = s_widen_all(
            fuel as nat,
            self@,
            ty@,
            values@,
            what@,
            span,
            0,
            Seq::empty(),
        );
        let mut r: Vec<Value> = Vec::new();
        assert(r@ =~= Seq::empty());
        let mut left: u64 = fuel;
        let mut i: usize = 0;
        while i < values.len()
            invariant
                left <= fuel,
                i <= values@.len(),
                goal == s_widen_all(
                    fuel as nat,
                    old(self)@,
                    ty@,
                    values@,
                    what@,
                    span,
                    0,
                    Seq::empty(),
                ),
                goal == s_widen_all(
                    left as nat,
                    self@,
                    ty@,
                    values@,
                    what@,
                    span,
                    i as int,
                    r@,
                ),
            decreases values@.len() - i,
        {
            if left == 0 {
                return Err(too_far_error(span));
            }
            left -= 1;
            let w = Written::nowhere();
            let v = match self.coerced(ty, values[i], what, span, &w, left) {
                Ok(v) => v,
                Err(e) => {
                    return Err(e);
                },
            };
            self.root(v);
            r.push(v);
            i += 1;
        }
        Ok(r)
    }

    fn put_entries(&mut self, id: ObjId, keys: &Vec<Value>, values: &Vec<Value>)
        ensures
            final(self)@ == with_heap(
                old(self)@,
                entries_put(old(self)@.heap, id, keys@, values@, 0),
            ),
    {
        let ghost goal = entries_put(self@.heap, id, keys@, values@, 0);
        let mut i: usize = 0;
        while i < keys.len() && i < values.len()
            invariant
                goal == entries_put(self@.heap, id, keys@, values@, i as int),
                self@ == with_heap(old(self)@, self@.heap),
            decreases keys@.len() - i,
        {
            self.heap.dict_put(id, keys[i], values[i]);
            i += 1;
        }
    }

    #[verifier::spinoff_prover]
    fn widen_list(&mut self, ty: &TypeExpr, v: Value, id: ObjId, span: Span, fuel: u64) -> (r:
        Result<(), QuinceError>)
        requires
            fuel > 0,
            base(old(self)@.heap, v) == Value::List(id),
            names(ty@, "list"@),
            ty@.args.len() > 0,
        ensures
            (final(self)@, res(r)) == s_widen(fuel as nat, old(self)@, ty@, v, span),
        decreases fuel, 0int,
    {
        assert(ty@.args == type_exprs_v(ty.args@));
        let mark: usize = self.temps.len();
        let items = self.heap.list(id);
        self.root(v);
        let widened = self.widen_all(&ty.args[0], &items, "the item", span, fuel - 1);
        self.release(mark);
        match widened {
            Ok(items) => {
                if !self.heap.frozen(id) {
                    self.heap.set_object(id, Object::List(items));
                }
                Ok(())
            },
            Err(e) => Err(e),
        }
    }

    fn widen_dict(&mut self, ty: &TypeExpr, v: Value, id: ObjId, span: Span, fuel: u64) -> (r:
        Result<(), QuinceError>)
        requires
            fuel > 0,
            base(old(self)@.heap, v) == Value::Dict(id),
            names(ty@, "dict"@),
            ty@.args.len() > 1,
        ensures
            (final(self)@, res(r)) == s_widen(fuel as nat, old(self)@, ty@, v, span),
        decreases fuel, 0int,
    {
        assert(ty@.args == type_exprs_v(ty.args@));
        let mark: usize = self.temps.len();
        let entries = self.heap.dict(id);
        let keys = entry_keys(&entries);
        let values = entry_values(&entries);
        self.root(v);
        let widened = self.widen_all(&ty.args[1], &values, "the value", span, fuel - 1);
        self.release(mark);
        match widened {
            Ok(values) => {
                if !self.heap.frozen(id) {
                    self.put_entries(id, &keys, &values);
                }
                Ok(())
            },
            Err(e) => Err(e),
        }
    }

    fn widen(&mut self, ty: &TypeExpr, v: Value, span: Span, fuel: u64) -> (r: Result<
        (),
        QuinceError,
    >)
        ensures
            (final(self)@, res(r)) == s_widen(fuel as nat, old(self)@, ty@, v, span),
        decreases fuel, 1int,
    {
        assert(ty@.args == type_exprs_v(ty.args@));
        if fuel == 0 {
            return Err(too_far_error(span));
        }
        match self.heap.base(v) {
            Value::List(id) => {
                if ty.names("list") && ty.args.len() > 0 {
                    self.widen_list(ty, v, id, span, fuel)
                } else {
                    Ok(())
                }
            },
            Value::Dict(id) => {
                if ty.names("dict") && ty.args.len() > 1 {
                    self.widen_dict(ty, v, id, span, fuel)
                } else {
                    Ok(())
                }
            },
            _ => Ok(()),
        }
    }
}

// -- coercion -----------------------------------------------------------------------------------

/// A value described by a type that has arguments.
pub open spec fn described_as(h: HeapV, ty: TypeExprV, v: Value) -> HeapV {
    let at = opt_handle(base(h, v));
    if ty.args.len() > 0 && at.len() > 0 {
        h.described(at[0], ty)
    } else {
        h
    }
}

/// A value that holds a type, as it is once it is bound to it: its parts coerced, an
/// int widened to `float`, described, and frozen where the type says so.
pub open spec fn s_settled(f: nat, st: St, ty: TypeExprV, v: Value, span: Span) -> Out<Value>
    decreases f,
{
    if f == 0 {
        (st, Err(too_far(span)))
    } else {
        match s_widen((f - 1) as nat, st, ty, v, span) {
            (st1, Err(e)) => (st1, Err(e)),
            (st1, Ok(_)) => {
                let settled = as_named(ty, v);
                let h = described_as(st1.heap, ty, settled);
                (
                    with_heap(
                        st1,
                        if ty.frozen {
                            frozen_by(h, settled)
                        } else {
                            h
                        },
                    ),
                    Ok(settled),
                )
            },
        }
    }
}

/// The report for a value a type refuses, as precise as what is known of it allows.
pub open spec fn refused(
    h: HeapV,
    ty: TypeExprV,
    v: Value,
    what: Seq<char>,
    span: Span,
    w: WrittenV,
) -> ErrV {
    match offending(h, ty, v, span, w) {
        Some(e) => e,
        None => not_held(h, ty, v, what, span, w.here),
    }
}

pub open spec fn unknown_type(st: St, ty: TypeExprV) -> Option<Seq<char>> {
    match ty.name {
        TypeNameV::Named(name) => if names_a_type(st, name) {
            None
        } else {
            Some(name)
        },
        _ => None,
    }
}

/// What a value becomes where a type is stated: itself where it holds the type, what a
/// constructor makes of it where one takes it, and otherwise a refusal.
pub open spec fn s_coerced(
    f: nat,
    st: St,
    ty: TypeExprV,
    v: Value,
    what: Seq<char>,
    span: Span,
    w: WrittenV,
) -> Out<Value>
    decreases f,
{
    let at = caret(w, span);
    let t = substituted(ty, current(st));
    if f == 0 {
        (st, Err(too_far(at)))
    } else {
        match unknown_type(st, t) {
            Some(name) => (st, Err(no_such_type(name, t.span))),
            None => if holds(st.heap, t, v) {
                s_settled((f - 1) as nat, st, t, v, at)
            } else {
                match s_constructed((f - 1) as nat, st, t, v, at) {
                    (st1, Err(e)) => (st1, Err(e)),
                    (st1, Ok(Some(built))) => s_settled((f - 1) as nat, st1, t, built, at),
                    (st1, Ok(None)) => (st1, Err(refused(st1.heap, t, v, what, at, w))),
                }
            },
        }
    }
}

impl Interp {
    /// An annotation with the type parameters of the running method replaced.
    pub(crate) fn substituted(&self, ty: &TypeExpr) -> (r: TypeExpr)
        ensures
            r@ == substituted(ty@, current(self@)),
    {
        let none: Vec<Binding> = Vec::new();
        assert(bindings_v(none@) =~= Seq::empty());
        if self.bindings.len() > 0 {
            substitute(ty, &self.bindings[self.bindings.len() - 1])
        } else {
            substitute(ty, &none)
        }
    }

    fn settled(&mut self, ty: TypeExpr, v: Value, span: Span, fuel: u64) -> (r: Result<
        Value,
        QuinceError,
    >)
        ensures
            (final(self)@, res(r)) == s_settled(fuel as nat, old(self)@, ty@, v, span),
        decreases fuel,
    {
        if fuel == 0 {
            return Err(too_far_error(span));
        }
        self.widen(&ty, v, span, fuel - 1)?;
        let settled = widened(&ty, v);
        let fixed = ty.frozen;
        assert(ty@.args == type_exprs_v(ty.args@));
        if ty.args.len() > 0 {
            if let Some(id) = self.heap.base(settled).handle() {
                self.heap.describe(id, Rc::new(ty));
            }
        }
        if fixed {
            self.heap.freeze(settled);
        }
        Ok(settled)
    }

    fn unknown_type(&self, ty: &TypeExpr) -> (r: Option<QuinceError>)
        ensures
            match r {
                Some(e) => unknown_type(self@, ty@) matches Some(name) && e@ == no_such_type(
                    name,
                    ty@.span,
                ),
                None => unknown_type(self@, ty@) is None,
            },
    {
        match &ty.name {
            TypeName::Named(name) => {
                if self.names_a_type(name.as_str()) {
                    None
                } else {
                    Some(no_such_type_error(name.as_str(), ty.span))
                }
            },
            _ => None,
        }
    }

    /// What a value becomes where a type is stated.
    pub(crate) fn coerced(
        &mut self,
        ty: &TypeExpr,
        v: Value,
        what: &str,
        span: Span,
        w: &Written,
        fuel: u64,
    ) -> (r: Result<Value, QuinceError>)
        ensures
            (final(self)@, res(r)) == s_coerced(
                fuel as nat,
                old(self)@,
                ty@,
                v,
                what@,
                span,
                w@,
            ),
        decreases fuel,
    {
        let at = w.caret(span);
        if fuel == 0 {
            return Err(too_far_error(at));
        }
        let t = self.substituted(ty);
        if let Some(e) = self.unknown_type(&t) {
            return Err(e);
        }
        if self.heap.holds(&t, v) {
            return self.settled(t, v, at, fuel - 1);
        }
        match self.constructed(&t, v, at, fuel - 1)? {
            Some(built) => self.settled(t, built, at, fuel - 1),
            None => match self.heap.offending(&t, v, at, w) {
                Some(e) => Err(e),
                None => Err(does_not_hold(&self.heap, &t, v, what, at, w.here)),
            },
        }
    }
}

// -- what stands where nothing was written ---------------------------------------------------------

pub open spec fn no_default(name: Seq<char>, field: Seq<char>, span: Span) -> ErrV {
    err_help(
        ErrorKind::Type,
        "`"@ + name + "` has no default, so `"@ + field + "` has nothing to hold"@,
        span,
        "`"@ + field + "` is annotated with a type parameter and this instance bound it to `"@
            + name + "`, which declares an `op init` that takes arguments — give `"@ + field
            + "` an `= …`, or annotate it `?` so it starts absent"@,
    )
}

/// The zero of a builtin type.
pub open spec fn s_zero(st: St, name: Seq<char>) -> Option<(St, Value)> {
    if name == "int"@ {
        Some((st, Value::Int(0)))
    } else if name == "float"@ {
        Some((st, Value::Float(0)))
    } else if name == "bool"@ {
        Some((st, Value::Bool(false)))
    } else if name == "string"@ {
        Some(s_text(st, Seq::empty()))
    } else if name == "list"@ {
        Some(s_list(st, Seq::empty()))
    } else if name == "dict"@ {
        Some((with_new(st, ObjV::Dict(Seq::empty())), Value::Dict(st.heap.next_id())))
    } else {
        None
    }
}

/// What a variable of a type holds before it is given anything.
pub open spec fn s_default_of(f: nat, st: St, ty: TypeExprV, field: Seq<char>, span: Span) -> Out<Value>
    decreases f,
{
    if f == 0 {
        (st, Err(too_far(span)))
    } else if ty.nullable {
        (st, Ok(Value::Nil))
    } else {
        match ty.name {
            TypeNameV::Named(name) => if name == "tuple"@ {
                match s_default_items((f - 1) as nat, st, ty.args, field, span, 0, Seq::empty()) {
                    (st1, Ok(items)) => (
                        with_new(st1, ObjV::Tuple(items)),
                        Ok(Value::Tuple(st1.heap.next_id())),
                    ),
                    (st1, Err(e)) => (st1, Err(e)),
                }
            } else {
                match s_zero(st, name) {
                    Some((st1, v)) => (st1, Ok(v)),
                    None => s_default_instance((f - 1) as nat, st, name, field, span),
                }
            },
            _ => (st, Ok(Value::Nil)),
        }
    }
}

/// What a variable of a declared class holds: one built from nothing.
pub open spec fn s_default_instance(
    f: nat,
    st: St,
    name: Seq<char>,
    field: Seq<char>,
    span: Span,
) -> Out<Value>
    decreases f,
{
    match class_named(st, name) {
        None => (st, Err(no_such_type(name, span))),
        Some(id) => if f == 0 {
            (st, Err(too_far(span)))
        } else {
            match s_call((f - 1) as nat, st, Value::Class(id), Seq::empty(), span) {
                (st1, Ok(v)) => (st1, Ok(v)),
                (st1, Err(e)) => (
                    st1,
                    Err(
                        if e.kind == ErrorKind::Budget {
                            e
                        } else {
                            no_default(name, field, span)
                        },
                    ),
                ),
            }
        },
    }
}

/// The defaults of a tuple's parts from `i` on, behind those already made.
pub open spec fn s_default_items(
    f: nat,
    st: St,
    args: Seq<TypeExprV>,
    field: Seq<char>,
    span: Span,
    i: int,
    so_far: Seq<Value>,
) -> Out<Seq<Value>>
    decreases f,
{
    if i < 0 || i >= args.len() {
        (st, Ok(so_far))
    } else if f == 0 {
        (st, Err(too_far(span)))
    } else if args[i].name is Pack {
        s_default_items((f - 1) as nat, st, args, field, span, i + 1, so_far)
    } else {
        match s_default_of(
            (f - 1) as nat,
            st,
            args[i],
            field + "["@ + digits(i as nat) + "]"@,
            span,
        ) {
            (st1, Ok(v)) => s_default_items(
                (f - 1) as nat,
                st1,
                args,
                field,
                span,
                i + 1,
                so_far.push(v),
            ),
            (st1, Err(e)) => (st1, Err(e)),
        }
    }
}

impl Interp {
    fn zero(&mut self, name: &str) -> (r: Option<Value>)
        ensures
            match r {
                Some(v) => s_zero(old(self)@, name@) == Some((final(self)@, v)),
                None => s_zero(old(self)@, name@) is None && final(self)@ == old(self)@,
            },
    {
        if same(name, "int") {
            Some(Value::Int(0))
        } else if same(name, "float") {
            Some(Value::Float(0))
        } else if same(name, "bool") {
            Some(Value::Bool(false))
        } else if same(name, "string") {
            let text = String::new();
            assert(text@ =~= Seq::empty());
            Some(self.new_text(text))
        } else if same(name, "list") {
            let none: Vec<Value> = Vec::new();
            assert(none@ =~= Seq::empty());
            Some(self.new_list(none))
        } else if same(name, "dict") {
            let none: Vec<Entry> = Vec::new();
            assert(none@ =~= Seq::empty());
            Some(Value::Dict(self.heap.add_object(Object::Dict(none))))
        } else {
            None
        }
    }

    fn default_items(
        &mut self,
        args: &Vec<TypeExpr>,
        field: &str,
        span: Span,
        fuel: u64,
    ) -> (r: Result<Vec<Value>, QuinceError>)
        ensures
            (final(self)@, value_list(r)) == s_default_items(
                fuel as nat,
                old(self)@,
                type_exprs_v(args@),
                field@,
                span,
                0,
                Seq::empty(),
            ),
        decreases fuel,
    {
        let ghost all = type_exprs_v(args@);
        let ghost goal = s_default_items(
            fuel as nat,
            self@,
            all,
            field@,
            span,
            0,
            Seq::empty(),
        );
        let mut r: Vec<Value> = Vec::new();
        assert(r@ =~= Seq::empty());
        let mut left: u64 = fuel;
        let mut i: usize = 0;
        while i < args.len()
            invariant
                left <= fuel,
                i <= args@.len(),
                all == type_exprs_v(args@),
                goal == s_default_items(
                    fuel as nat,
                    old(self)@,
                    all,
                    field@,
                    span,
                    0,
                    Seq::empty(),
                ),
                goal == s_default_items(left as nat, self@, all, field@, span, i as int, r@),
            decreases args@.len() - i,
        {
            if left == 0 {
                return Err(too_far_error(span));
            }
            left -= 1;
            let pack = match &args[i].name {
                TypeName::Pack(_) => true,
                _ => false,
            };
            if !pack {
                let place = digits_of(i as u64);
                let part = cat4(field, "[", place.as_str(), "]");
                let v = match self.default_of(&args[i], part.as_str(), span, left) {
                    Ok(v) => v,
                    Err(e) => {
                        return Err(e);
                    },
                };
                r.push(v);
            }
            i += 1;
        }
        Ok(r)
    }

    fn default_instance(&mut self, name: &str, field: &str, span: Span, fuel: u64) -> (r: Result<
        Value,
        QuinceError,
    >)
        ensures
            (final(self)@, res(r)) == s_default_instance(
                fuel as nat,
                old(self)@,
                name@,
                field@,
                span,
            ),
        decreases fuel,
    {
        let id = match self.class_named(name) {
            Some(id) => id,
            None => {
                return Err(no_such_type_error(name, span));
            },
        };
        if fuel == 0 {
            return Err(too_far_error(span));
        }
        let none: Vec<Value> = Vec::new();
        assert(none@ =~= Seq::empty());
        match self.call(Value::Class(id), none, span, fuel - 1) {
            Ok(v) => Ok(v),
            Err(e) => {
                if e.kind == ErrorKind::Budget {
                    return Err(e);
                }
                let mut help = cat5(
                    "`",
                    field,
                    "` is annotated with a type parameter and this instance bound it to `",
                    name,
                    "`, which declares an `op init` that takes arguments — give `",
                );
                help.append(field);
                help.append("` an `= …`, or annotate it `?` so it starts absent");
                Err(
                    helped_type_error(
                        cat5("`", name, "` has no default, so `", field, "` has nothing to hold"),
                        span,
                        help.as_str(),
                    ),
                )
            },
        }
    }

    /// What a variable of a type holds before it is given anything.
    pub(crate) fn default_of(&mut self, ty: &TypeExpr, field: &str, span: Span, fuel: u64) -> (r:
        Result<Value, QuinceError>)
        ensures
            (final(self)@, res(r)) == s_default_of(
                fuel as nat,
                old(self)@,
                ty@,
                field@,
                span,
            ),
        decreases fuel,
    {
        if fuel == 0 {
            return Err(too_far_error(span));
        }
        if ty.nullable {
            return Ok(Value::Nil);
        }
        match &ty.name {
            TypeName::Named(name) => {
                if same(name.as_str(), "tuple") {
                    assert(ty@.args == type_exprs_v(ty.args@));
                    match self.default_items(&ty.args, field, span, fuel - 1) {
                        Ok(items) => Ok(Value::Tuple(self.heap.add_object(Object::Tuple(items)))),
                        Err(e) => Err(e),
                    }
                } else {
                    match self.zero(name.as_str()) {
                        Some(v) => Ok(v),
                        None => self.default_instance(name.as_str(), field, span, fuel - 1),
                    }
                }
            },
            _ => Ok(Value::Nil),
        }
    }
}

// -- initializers -------------------------------------------------------------------------------------

/// An initializer, evaluated with what its annotation says of a bare construction.
pub open spec fn s_evaluated_as(f: nat, st: St, ty: Option<TypeExprV>, e: ExprV, env: ObjId) -> Out<
    Value,
>
    decreases f,
{
    if f == 0 {
        (st, Err(too_far(e.span)))
    } else {
        match inferred_header(ty, e) {
            None => s_eval((f - 1) as nat, st, e, env),
            Some(header) => {
                let (st1, r) = s_eval(
                    (f - 1) as nat,
                    St { pending: Some(substituted(header, current(st))), ..st },
                    e,
                    env,
                );
                (St { pending: st.pending, ..st1 }, r)
            },
        }
    }
}

/// What a declaration binds: its initializer or its type's default, coerced.
pub open spec fn s_initial(
    f: nat,
    st: St,
    name: Seq<char>,
    name_span: Span,
    ty: Option<TypeExprV>,
    value: Option<ExprV>,
    env: ObjId,
) -> Out<Value>
    decreases f,
{
    if f == 0 {
        (st, Err(too_far(name_span)))
    } else {
        match value {
            Some(e) => match s_evaluated_as((f - 1) as nat, st, ty, e, env) {
                (st1, Err(x)) => (st1, Err(x)),
                (st1, Ok(v)) => match ty {
                    None => (st1, Ok(v)),
                    Some(t) => s_coerced(
                        (f - 1) as nat,
                        st1,
                        t,
                        v,
                        "`"@ + name + "`"@,
                        e.span,
                        declared_by(e),
                    ),
                },
            },
            None => match ty {
                None => (st, Ok(Value::Nil)),
                Some(t) => match s_default_of(
                    (f - 1) as nat,
                    st,
                    substituted(t, current(st)),
                    name,
                    name_span,
                ) {
                    (st1, Err(x)) => (st1, Err(x)),
                    (st1, Ok(v)) => s_coerced(
                        (f - 1) as nat,
                        st1,
                        t,
                        v,
                        "`"@ + name + "`"@,
                        name_span,
                        unwritten(),
                    ),
                },
            },
        }
    }
}

impl Interp {
    fn evaluated_as(&mut self, ty: &Option<TypeExpr>, e: &Expr, env: ObjId, fuel: u64) -> (r: Result<
        Value,
        QuinceError,
    >)
        ensures
            (final(self)@, res(r)) == s_evaluated_as(
                fuel as nat,
                old(self)@,
                opt_type(*ty),
                e@,
                env,
            ),
        decreases fuel,
    {
        if fuel == 0 {
            return Err(too_far_error(e.span));
        }
        let annotation = match ty {
            Some(ty) => Some(ty),
            None => None,
        };
        match infer_header(annotation, e) {
            None => self.eval(e, env, fuel - 1),
            Some(header) => {
                let full = self.substituted(&header);
                let before = self.take_pending();
                self.pending = Some(Rc::new(full));
                let r = self.eval(e, env, fuel - 1);
                self.pending = before;
                r
            },
        }
    }

    /// Takes the description the next instance was to be built with.
    pub(crate) fn take_pending(&mut self) -> (r: Option<Rc<TypeExpr>>)
        ensures
            opt_ty(r) == old(self)@.pending,
            final(self)@ == (St { pending: None, ..old(self)@ }),
    {
        let taken = match &self.pending {
            Some(ty) => Some(Rc::clone(ty)),
            None => None,
        };
        self.pending = None;
        taken
    }

    /// What a declaration binds.
    pub(crate) fn initial(
        &mut self,
        name: &str,
        name_span: Span,
        ty: &Option<TypeExpr>,
        value: &Option<Expr>,
        env: ObjId,
        fuel: u64,
    ) -> (r: Result<Value, QuinceError>)
        ensures
            (final(self)@, res(r)) == s_initial(
                fuel as nat,
                old(self)@,
                name@,
                name_span,
                opt_type(*ty),
                opt_expr(*value),
                env,
            ),
        decreases fuel,
    {
        if fuel == 0 {
            return Err(too_far_error(name_span));
        }
        let what = cat3("`", name, "`");
        match value {
            Some(e) => {
                let v = self.evaluated_as(ty, e, env, fuel - 1)?;
                match ty {
                    None => Ok(v),
                    Some(t) => {
                        let w = Written::declared(e);
                        self.coerced(t, v, what.as_str(), e.span, &w, fuel - 1)
                    },
                }
            },
            None => match ty {
                None => Ok(Value::Nil),
                Some(t) => {
                    let full = self.substituted(t);
                    let v = self.default_of(&full, name, name_span, fuel - 1)?;
                    let w = Written::nowhere();
                    self.coerced(t, v, what.as_str(), name_span, &w, fuel - 1)
                },
            },
        }
    }
}

} // verus!
