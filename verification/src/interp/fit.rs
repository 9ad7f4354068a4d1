//! Where a value was written, and the reports that use it when the value does not hold
//! the type it is bound to.

use crate::error::{err, res, ErrV, ErrorKind, QuinceError};
use crate::float::{from_int, int_bits};
use crate::interp::dict::{entry_keys, entry_values, keys_of, values_in};
use crate::interp::error::{does_not_hold, not_held};
use crate::interp::state::{Interp, St};
use crate::interp::object::module_value;
use crate::interp::sound::{born, sound};
use crate::runtime::class::{base, builtin_of, class_of, descends_named, type_text};
use crate::runtime::heap::{at_index, Heap, HeapV};
use crate::runtime::object::opt_handle;
use crate::runtime::types::{admits, arg_at, args_admit, arguments_admit, holds, top};
use crate::runtime::value::{all_builtins, builtin_types, Builtin, ObjId, Value};
use crate::syntax::ast::{
    expr_kind_v, expr_v, group_models, type_expr_v, type_exprs_v, Expr, ExprKind, ExprKindV, ExprV,
    Pair, PairV, TypeExpr, TypeExprV, TypeName, TypeNameV,
};
use crate::syntax::resolve::refuses;
use crate::syntax::token::Span;
use crate::text::{cat2, cat3, digits, digits_of, same};
use vstd::prelude::*;

verus! {

broadcast use group_models;

// -- where a value was written -----------------------------------------------------------

/// What a refusal knows of where the refused value was written: its place where that is
/// narrower than the caller's, the expression that made it, and whether the annotation
/// stands in the same text.
pub struct Written<'a> {
    pub at: Option<Span>,
    pub expr: Option<&'a Expr>,
    pub here: bool,
}

pub struct WrittenV {
    pub at: Option<Span>,
    pub expr: Option<ExprV>,
    pub here: bool,
}

pub open spec fn opt_ref(e: Option<&Expr>) -> Option<ExprV> {
    match e {
        Some(e) => Some(expr_v(*e)),
        None => None,
    }
}

impl<'a> View for Written<'a> {
    type V = WrittenV;

    open spec fn view(&self) -> WrittenV {
        WrittenV { at: self.at, expr: opt_ref(self.expr), here: self.here }
    }
}

/// A value that was not written anywhere.
pub open spec fn unwritten() -> WrittenV {
    WrittenV { at: None, expr: None, here: false }
}

/// An initializer, with its annotation beside it.
pub open spec fn declared_by(e: ExprV) -> WrittenV {
    WrittenV { at: Some(e.span), expr: Some(e), here: true }
}

/// The right side of a write to a name declared elsewhere.
pub open spec fn rebound_by(e: ExprV) -> WrittenV {
    WrittenV { at: Some(e.span), expr: Some(e), here: false }
}

/// A value computed by a whole expression.
pub open spec fn produced_by(span: Span) -> WrittenV {
    WrittenV { at: Some(span), expr: None, here: false }
}

pub open spec fn caret(w: WrittenV, span: Span) -> Span {
    match w.at {
        Some(at) => at,
        None => span,
    }
}

/// The expression an item of a list literal was written as.
pub open spec fn element(w: WrittenV, i: int) -> Option<ExprV> {
    match w.expr {
        Some(e) => match e.kind {
            ExprKindV::List(items) => at_index(items, i),
            _ => None,
        },
        None => None,
    }
}

/// What is known of where a part was written.
pub open spec fn within(w: WrittenV, e: Option<ExprV>) -> WrittenV {
    WrittenV {
        at: match e {
            Some(e) => Some(e.span),
            None => None,
        },
        expr: e,
        here: w.here,
    }
}

/// The pair an entry of a dict literal was written as, where no key was written twice.
pub open spec fn pair_of(w: WrittenV, held: nat, i: int) -> Option<PairV> {
    match w.expr {
        Some(e) => match e.kind {
            ExprKindV::Dict(pairs) => if pairs.len() == held {
                at_index(pairs, i)
            } else {
                None
            },
            _ => None,
        },
        None => None,
    }
}

pub open spec fn pair_value(p: Option<PairV>) -> Option<ExprV> {
    match p {
        Some(p) => Some(p.value),
        None => None,
    }
}

impl<'a> Written<'a> {
    pub(crate) fn nowhere() -> (r: Written<'a>)
        ensures
            r@ == unwritten(),
    {
        Written { at: None, expr: None, here: false }
    }

    pub(crate) fn declared(e: &'a Expr) -> (r: Written<'a>)
        ensures
            r@ == declared_by(e@),
    {
        Written { at: Some(e.span), expr: Some(e), here: true }
    }

    pub(crate) fn rebound(e: &'a Expr) -> (r: Written<'a>)
        ensures
            r@ == rebound_by(e@),
    {
        Written { at: Some(e.span), expr: Some(e), here: false }
    }

    pub(crate) fn produced(span: Span) -> (r: Written<'a>)
        ensures
            r@ == produced_by(span),
    {
        Written { at: Some(span), expr: None, here: false }
    }

    pub(crate) fn caret(&self, span: Span) -> (r: Span)
        ensures
            r == caret(self@, span),
    {
        match self.at {
            Some(at) => at,
            None => span,
        }
    }

    fn element(&self, i: usize) -> (r: Option<&'a Expr>)
        ensures
            opt_ref(r) == element(self@, i as int),
    {
        match self.expr {
            Some(e) => {
                assert(expr_v(*e).kind == expr_kind_v(e.kind));
                match &e.kind {
                    ExprKind::List(items) => {
                        if i < items.len() {
                            Some(&items[i])
                        } else {
                            None
                        }
                    },
                    _ => None,
                }
            },
            None => None,
        }
    }

    fn within(&self, e: Option<&'a Expr>) -> (r: Written<'a>)
        ensures
            r@ == within(self@, opt_ref(e)),
    {
        let at = match e {
            Some(e) => Some(e.span),
            None => None,
        };
        Written { at, expr: e, here: self.here }
    }

    fn pair(&self, held: usize, i: usize) -> (r: Option<&'a Pair>)
        ensures
            match r {
                Some(p) => pair_of(self@, held as nat, i as int) == Some(
                    crate::syntax::ast::pair_v(*p),
                ),
                None => pair_of(self@, held as nat, i as int) is None,
            },
    {
        match self.expr {
            Some(e) => {
                assert(expr_v(*e).kind == expr_kind_v(e.kind));
                match &e.kind {
                    ExprKind::Dict(pairs) => {
                        if pairs.len() == held && i < pairs.len() {
                            Some(&pairs[i])
                        } else {
                            None
                        }
                    },
                    _ => None,
                }
            },
            None => None,
        }
    }
}

// -- what inside a container does not hold -------------------------------------------------------

/// The first value that does not hold a type.
pub open spec fn first_unheld(h: HeapV, ty: TypeExprV, values: Seq<Value>, from: int) -> Option<int>
    decreases values.len() - from,
{
    if from < 0 || from >= values.len() {
        None
    } else if !holds(h, ty, values[from]) {
        Some(from)
    } else {
        first_unheld(h, ty, values, from + 1)
    }
}

pub open spec fn names(ty: TypeExprV, name: Seq<char>) -> bool {
    match ty.name {
        TypeNameV::Named(n) => n == name,
        _ => false,
    }
}

/// The report that points inside a container at the part that does not hold.
pub open spec fn offending(h: HeapV, ty: TypeExprV, v: Value, span: Span, w: WrittenV) -> Option<ErrV>
    decreases ty,
{
    match base(h, v) {
        Value::List(id) => if names(ty, "list"@) && ty.args.len() > 0 {
            offending_item(h, ty, h.list(id), span, w)
        } else {
            None
        },
        Value::Dict(id) => if names(ty, "dict"@) && ty.args.len() > 0 {
            let entries = h.dict(id);
            match first_unheld(h, ty.args[0], keys_of(entries), 0) {
                Some(i) => Some(
                    not_held(
                        h,
                        ty.args[0],
                        keys_of(entries)[i],
                        "the key"@,
                        match pair_of(w, entries.len(), i) {
                            Some(p) => p.key.span,
                            None => span,
                        },
                        w.here,
                    ),
                ),
                None => offending_entry(h, ty, values_in(entries), span, w),
            }
        } else {
            None
        },
        _ => None,
    }
}

pub open spec fn offending_item(
    h: HeapV,
    ty: TypeExprV,
    items: Seq<Value>,
    span: Span,
    w: WrittenV,
) -> Option<ErrV>
    decreases ty, 0int,
{
    if ty.args.len() == 0 {
        None
    } else {
        match first_unheld(h, ty.args[0], items, 0) {
            None => None,
            Some(i) => {
                let inside = within(w, element(w, i));
                let at = caret(inside, span);
                match offending(h, ty.args[0], items[i], at, inside) {
                    Some(e) => Some(e),
                    None => Some(
                        not_held(
                            h,
                            ty.args[0],
                            items[i],
                            "item "@ + digits(i as nat),
                            at,
                            w.here,
                        ),
                    ),
                }
            },
        }
    }
}

pub open spec fn offending_entry(
    h: HeapV,
    ty: TypeExprV,
    values: Seq<Value>,
    span: Span,
    w: WrittenV,
) -> Option<ErrV>
    decreases ty, 0int,
{
    if ty.args.len() <= 1 {
        None
    } else {
        match first_unheld(h, ty.args[1], values, 0) {
            None => None,
            Some(i) => {
                let inside = within(w, pair_value(pair_of(w, values.len(), i)));
                let at = caret(inside, span);
                match offending(h, ty.args[1], values[i], at, inside) {
                    Some(e) => Some(e),
                    None => Some(
                        not_held(h, ty.args[1], values[i], "the value"@, at, w.here),
                    ),
                }
            },
        }
    }
}

pub open spec fn opt_err(e: Option<QuinceError>) -> Option<ErrV> {
    match e {
        Some(e) => Some(e@),
        None => None,
    }
}

impl TypeExpr {
    /// Whether this is a type of this name, whatever its arguments.
    pub(crate) fn names(&self, name: &str) -> (r: bool)
        ensures
            r == names(self@, name@),
    {
        match &self.name {
            TypeName::Named(n) => same(n.as_str(), name),
            _ => false,
        }
    }
}

impl Heap {
    fn first_unheld(&self, ty: &TypeExpr, values: &Vec<Value>) -> (r: Option<usize>)
        ensures
            match r {
                Some(i) => first_unheld(self@, ty@, values@, 0) == Some(i as int) && i
                    < values@.len(),
                None => first_unheld(self@, ty@, values@, 0) is None,
            },
    {
        let mut i: usize = 0;
        while i < values.len()
            invariant
                i <= values@.len(),
                first_unheld(self@, ty@, values@, 0) == first_unheld(
                    self@,
                    ty@,
                    values@,
                    i as int,
                ),
            decreases values@.len() - i,
        {
            if !self.holds(ty, values[i]) {
                return Some(i);
            }
            i += 1;
        }
        None
    }

    /// [`offending`], built.
    pub(crate) fn offending(&self, ty: &TypeExpr, v: Value, span: Span, w: &Written) -> (r: Option<
        QuinceError,
    >)
        ensures
            opt_err(r) == offending(self@, ty@, v, span, w@),
        decreases ty,
    {
        assert(ty@.args == type_exprs_v(ty.args@));
        match self.base(v) {
            Value::List(id) => {
                if ty.names("list") && ty.args.len() > 0 {
                    let items = self.list(id);
                    self.offending_item(ty, &items, span, w)
                } else {
                    None
                }
            },
            Value::Dict(id) => {
                if ty.names("dict") && ty.args.len() > 0 {
                    let entries = self.dict(id);
                    let keys = entry_keys(&entries);
                    match self.first_unheld(&ty.args[0], &keys) {
                        Some(i) => {
                            let at = match w.pair(entries.len(), i) {
                                Some(p) => p.key.span,
                                None => span,
                            };
                            Some(
                                does_not_hold(self, &ty.args[0], keys[i], "the key", at, w.here),
                            )
                        },
                        None => {
                            let values = entry_values(&entries);
                            self.offending_entry(ty, &values, span, w)
                        },
                    }
                } else {
                    None
                }
            },
            _ => None,
        }
    }

    fn offending_item(&self, ty: &TypeExpr, items: &Vec<Value>, span: Span, w: &Written) -> (r:
        Option<QuinceError>)
        ensures
            opt_err(r) == offending_item(self@, ty@, items@, span, w@),
        decreases ty, 0int,
    {
        assert(ty@.args == type_exprs_v(ty.args@));
        if ty.args.len() == 0 {
            return None;
        }
        match self.first_unheld(&ty.args[0], items) {
            None => None,
            Some(i) => {
                let inside = w.within(w.element(i));
                let at = inside.caret(span);
                match self.offending(&ty.args[0], items[i], at, &inside) {
                    Some(e) => Some(e),
                    None => {
                        let place = digits_of(i as u64);
                        let what = cat2("item ", place.as_str());
                        Some(
                            does_not_hold(self, &ty.args[0], items[i], what.as_str(), at, w.here),
                        )
                    },
                }
            },
        }
    }

    fn offending_entry(&self, ty: &TypeExpr, values: &Vec<Value>, span: Span, w: &Written) -> (r:
        Option<QuinceError>)
        ensures
            opt_err(r) == offending_entry(self@, ty@, values@, span, w@),
        decreases ty, 0int,
    {
        assert(ty@.args == type_exprs_v(ty.args@));
        if ty.args.len() <= 1 {
            return None;
        }
        match self.first_unheld(&ty.args[1], values) {
            None => None,
            Some(i) => {
                let part = match w.pair(values.len(), i) {
                    Some(p) => Some(&p.value),
                    None => None,
                };
                let inside = w.within(part);
                let at = inside.caret(span);
                match self.offending(&ty.args[1], values[i], at, &inside) {
                    Some(e) => Some(e),
                    None => Some(
                        does_not_hold(self, &ty.args[1], values[i], "the value", at, w.here),
                    ),
                }
            },
        }
    }
}

// -- writes to a described container -------------------------------------------------------------

/// An int bound to `float`, widened.
pub open spec fn as_named(ty: TypeExprV, v: Value) -> Value {
    match v {
        Value::Int(n) => if names(ty, "float"@) {
            Value::Float(int_bits(n as int))
        } else {
            v
        },
        _ => v,
    }
}

pub(crate) fn widened(ty: &TypeExpr, v: Value) -> (r: Value)
    ensures
        r == as_named(ty@, v),
{
    match v {
        Value::Int(n) => if ty.names("float") {
            Value::Float(from_int(n))
        } else {
            v
        },
        _ => v,
    }
}

/// The type a described container wants of its keys, items or values.
pub open spec fn wanted(h: HeapV, container: ObjId, slot: int) -> Option<TypeExprV> {
    match h.descriptor(container) {
        Some(ty) => at_index(ty.args, slot),
        None => None,
    }
}

/// What a container takes in a write: anything, where nothing describes it.
pub open spec fn admitted(
    h: HeapV,
    container: ObjId,
    slot: int,
    v: Value,
    what: Seq<char>,
    span: Span,
) -> Result<Value, ErrV> {
    match wanted(h, container, slot) {
        None => Ok(v),
        Some(ty) => if holds(h, ty, v) {
            Ok(as_named(ty, v))
        } else {
            Err(not_held(h, ty, v, what, span, false))
        },
    }
}

impl Heap {
    /// [`admitted`], decided.
    pub(crate) fn admitted(
        &self,
        container: ObjId,
        slot: usize,
        v: Value,
        what: &str,
        span: Span,
    ) -> (r: Result<Value, QuinceError>)
        ensures
            res(r) == admitted(self@, container, slot as int, v, what@, span),
    {
        match self.descriptor(container) {
            Some(held) => {
                assert(type_expr_v(*held).args == type_exprs_v(held.args@));
                if slot < held.args.len() {
                    let ty = &held.args[slot];
                    if self.holds(ty, v) {
                        Ok(widened(ty, v))
                    } else {
                        Err(does_not_hold(self, ty, v, what, span, false))
                    }
                } else {
                    Ok(v)
                }
            },
            None => Ok(v),
        }
    }
}

// -- what a value is --------------------------------------------------------------------------------

/// The arguments a value's description carries.
pub open spec fn held_args(h: HeapV, v: Value) -> Seq<TypeExprV> {
    let held = opt_handle(base(h, v));
    if held.len() > 0 && h.descriptor(held[0]) is Some {
        h.descriptor(held[0])->0.args
    } else {
        Seq::empty()
    }
}

/// What `is` answers: what a value is, and not what it could be made into.
pub open spec fn has_type(h: HeapV, ty: TypeExprV, v: Value) -> bool {
    if v == Value::Nil {
        ty.nullable
    } else {
        match ty.name {
            TypeNameV::Any => true,
            TypeNameV::Named(name) => (type_text(h, v) == name || descends_named(
                h,
                class_of(h, v),
                name,
                h.cells.len(),
            )) && arguments_admit(ty, held_args(h, v)),
            _ => false,
        }
    }
}

impl Heap {
    /// [`has_type`], decided.
    pub(crate) fn has_type(&self, ty: &TypeExpr, v: Value) -> (r: bool)
        ensures
            r == has_type(self@, ty@, v),
    {
        if v == Value::Nil {
            return ty.admits_nil();
        }
        match &ty.name {
            TypeName::Any => true,
            TypeName::Named(name) => {
                let kind = self.type_text(v);
                if !same(kind.as_str(), name.as_str()) && !self.descends_named(
                    self.class_of(v),
                    name.as_str(),
                ) {
                    return false;
                }
                let none: Vec<TypeExpr> = Vec::new();
                assert(type_exprs_v(none@) =~= Seq::empty());
                match self.base(v).handle() {
                    Some(id) => match self.descriptor(id) {
                        Some(held) => {
                            assert(type_expr_v(*held).args == type_exprs_v(held.args@));
                            args_admit(ty, &held.args)
                        },
                        None => args_admit(ty, &none),
                    },
                    None => args_admit(ty, &none),
                }
            },
            _ => false,
        }
    }
}

// -- types by name --------------------------------------------------------------------------------

pub open spec fn is_builtin_name(name: Seq<char>) -> bool {
    exists|i: int|
        0 <= i < all_builtins().len() && #[trigger] all_builtins()[i].spelled() == name
}

/// The class the program declares under a name.
pub open spec fn class_named(st: St, name: Seq<char>) -> Option<ObjId> {
    match module_value(st.heap, st.globals, name) {
        Some(Value::Class(id)) => Some(id),
        _ => None,
    }
}

/// Whether a name is that of a type.
pub open spec fn names_a_type(st: St, name: Seq<char>) -> bool {
    is_builtin_name(name) || class_named(st, name) is Some
}

pub open spec fn no_such_type(name: Seq<char>, span: Span) -> ErrV {
    err(ErrorKind::Name, "there is no type called `"@ + name + "`"@, span)
}

pub(crate) fn no_such_type_error(name: &str, span: Span) -> (r: QuinceError)
    ensures
        r@ == no_such_type(name@, span),
{
    QuinceError::new(ErrorKind::Name, cat3("there is no type called `", name, "`"), span)
}

fn builtin_name(name: &str) -> (r: bool)
    ensures
        r == is_builtin_name(name@),
{
    let all = builtin_types();
    let mut i: usize = 0;
    while i < all.len()
        invariant
            i <= all@.len(),
            all@ == all_builtins(),
            forall|j: int| 0 <= j < i ==> #[trigger] all_builtins()[j].spelled() != name@,
        decreases all@.len() - i,
    {
        if same(all[i].name(), name) {
            assert(all_builtins()[i as int].spelled() == name@);
            return true;
        }
        i += 1;
    }
    false
}

impl Interp {
    /// The class the program declares under a name.
    pub(crate) fn class_named(&self, name: &str) -> (r: Option<ObjId>)
        ensures
            r == class_named(self@, name@),
    {
        match self.module_value(self.globals, name) {
            Some(Value::Class(id)) => Some(id),
            _ => None,
        }
    }

    /// Whether a name is that of a type.
    pub(crate) fn names_a_type(&self, name: &str) -> (r: bool)
        ensures
            r == names_a_type(self@, name@),
    {
        builtin_name(name) || self.class_named(name).is_some()
    }
}

// -- laws ---------------------------------------------------------------------------------------------

/// A container nothing describes takes whatever is written to it.
pub proof fn law_an_undescribed_container_takes_anything(
    h: HeapV,
    container: ObjId,
    slot: int,
    v: Value,
    what: Seq<char>,
    span: Span,
)
    requires
        h.descriptor(container) is None,
    ensures
        admitted(h, container, slot, v, what, span) == Ok::<Value, ErrV>(v),
{
}

/// What a described container takes holds the type its description states.
pub proof fn law_a_described_container_takes_what_it_says(
    h: HeapV,
    container: ObjId,
    slot: int,
    v: Value,
    what: Seq<char>,
    span: Span,
)
    requires
        wanted(h, container, slot) is Some,
    ensures
        admitted(h, container, slot, v, what, span) is Ok <==> holds(
            h,
            wanted(h, container, slot)->0,
            v,
        ),
{
}

/// `is` reads an argument that is left out as `any?`: writing it changes no answer.
pub proof fn law_an_argument_left_out_is_anything(h: HeapV, ty: TypeExprV, v: Value)
    ensures
        has_type(h, ty, v) == has_type(h, TypeExprV { args: ty.args.push(top()), ..ty }, v),
{
    let longer = TypeExprV { args: ty.args.push(top()), ..ty };
    let held = held_args(h, v);
    assert(admits(top(), arg_at(held, ty.args.len() as int)));
    if arguments_admit(ty, held) {
        assert forall|i: int| 0 <= i < longer.args.len() implies admits(
            #[trigger] longer.args[i],
            arg_at(held, i),
        ) by {
            if i < ty.args.len() {
                assert(longer.args[i] == ty.args[i]);
            }
        }
    }
    if arguments_admit(longer, held) {
        assert forall|i: int| 0 <= i < ty.args.len() implies admits(
            #[trigger] ty.args[i],
            arg_at(held, i),
        ) by {
            assert(longer.args[i] == ty.args[i]);
        }
    }
}

/// No int is a float, though one may become a float where a float is wanted.
pub proof fn law_no_int_is_a_float(h: HeapV, globals: ObjId, ty: TypeExprV, n: i64)
    requires
        sound(h, globals),
        ty.name == TypeNameV::Named("float"@),
    ensures
        !has_type(h, ty, Value::Int(n)),
        holds(h, ty, Value::Int(n)),
{
    reveal_strlit("int");
    reveal_strlit("float");
    assert("int"@.len() != "float"@.len());
    assert(all_builtins()[2] == Builtin::Int);
    assert(born(h, h.builtins[2], all_builtins()[2]));
}

/// A value that is drawn as a mistake is refused when it is reached: its type does not hold
/// it, whatever ran before.
pub proof fn law_a_mistake_that_is_drawn_is_certain(h: HeapV, globals: ObjId, ty: TypeExprV, v: Value)
    requires
        sound(h, globals),
        !(v is Instance),
        refuses(ty, type_text(h, v)),
    ensures
        !holds(h, ty, v),
{
    let b = builtin_of(v);
    assert(all_builtins()[b.position()] == b);
    assert(born(h, h.builtins[b.position()], all_builtins()[b.position()]));
    if v is Int {
        assert(type_text(h, v) == "int"@);
    }
}

/// `nil` is of a type just where the type admits it.
pub proof fn law_nil_is_what_admits_it(h: HeapV, ty: TypeExprV)
    ensures
        has_type(h, ty, Value::Nil) == ty.nullable,
        holds(h, ty, Value::Nil) == ty.nullable,
{
}

} // verus!
