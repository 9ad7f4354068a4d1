//! Declarations: what a name reads as, and what declaring a function, a class or an
//! extension puts in scope.

use crate::error::{err, err_help, res, ErrV, ErrorKind, QuinceError};
use crate::interp::dispatch::{candidates, param_texts, params_after, params_of, written_params};
use crate::interp::error::{
    helped_type_error, plain_type_error, undefined, undefined_error, used_before,
    used_before_error,
};
use crate::interp::object::{extension, s_may_extend};
use crate::interp::params::{const_binding, s_constant};
use crate::interp::state::{with_heap, with_new, Extension, ExtensionV, Interp, Out, St};
use crate::runtime::class::{method_in, type_text};
use crate::runtime::heap::{slot_put, Heap, HeapV};
use crate::runtime::object::{
    get_named, lookup, nameds_v, put, put_named, Class, ClassV, Function, FunctionV, Named, NamedV,
    ObjV, Object,
};
use crate::runtime::scope::{declared, fresh, fresh_scope, holder, var_of};
use crate::runtime::types::{an, with_article};
use crate::runtime::value::{ObjId, Value};
use crate::syntax::ast::{
    class_decl_v, fn_decl_v, fn_decls_v, group_models, stmt_kind_v, stmt_v, stmts_v, Bind,
    ClassDecl, ClassDeclV, FnDecl, FnDeclV, OP_COUNT, Op, Stmt, StmtKind, StmtKindV, StmtV,
};
use crate::syntax::token::Span;
use crate::text::{cat3, cat5, cat9, lemma_strs_push, same, strs};
use std::rc::Rc;
use vstd::prelude::*;

verus! {

broadcast use {group_models, lemma_strs_push};

// -- reading a name ------------------------------------------------------------------------

/// The value a declared name has.
pub open spec fn s_value_of(st: St, scope: ObjId, name: Seq<char>, span: Span) -> Result<Value, ErrV> {
    match var_of(st.heap, scope, name) {
        Some(var) => match var.value {
            Some(v) => Ok(v),
            None => Err(used_before(name, span)),
        },
        None => Err(undefined(name, span)),
    }
}

/// What a name reads as: the nearest declaration of it, where a `const` type parameter
/// stands outside every local scope and inside the module.
pub open spec fn s_read(st: St, name: Seq<char>, env: ObjId, span: Span) -> Out<Value> {
    match holder(st.heap, env, name, st.heap.cells.len()) {
        Some(scope) => if st.heap.scope(scope).parent is None && const_binding(st, name) is Some {
            let (st1, v) = s_constant(st, const_binding(st, name)->0);
            (st1, Ok(v))
        } else {
            (st, s_value_of(st, scope, name, span))
        },
        None => match const_binding(st, name) {
            Some(c) => {
                let (st1, v) = s_constant(st, c);
                (st1, Ok(v))
            },
            None => (st, Err(undefined(name, span))),
        },
    }
}

impl Interp {
    fn value_of(&self, scope: ObjId, name: &str, span: Span) -> (r: Result<Value, QuinceError>)
        ensures
            res(r) == s_value_of(self@, scope, name@, span),
    {
        match self.heap.var(scope, name) {
            Some((value, _bind, _ty)) => match value {
                Some(v) => Ok(v),
                None => Err(used_before_error(name, span)),
            },
            None => Err(undefined_error(name, span)),
        }
    }

    /// What a name reads as.
    pub(crate) fn read(&mut self, name: &str, env: ObjId, span: Span) -> (r: Result<
        Value,
        QuinceError,
    >)
        ensures
            (final(self)@, res(r)) == s_read(old(self)@, name@, env, span),
    {
        let scope = self.heap.holder(env, name);
        let local = match scope {
            Some(id) => self.heap.scope_parent(id).is_some(),
            None => false,
        };
        if !local {
            if let Some(c) = self.const_binding(name) {
                return Ok(self.constant(c));
            }
        }
        match scope {
            Some(id) => self.value_of(id, name, span),
            None => Err(undefined_error(name, span)),
        }
    }
}

// -- sets of declarations ---------------------------------------------------------------------

/// Whether two functions take the same types.
pub open spec fn same_signature(h: HeapV, a: Value, b: Value, receiver: bool) -> bool {
    match (a, b) {
        (Value::Function(x), Value::Function(y)) => h.function(x) is Some && h.function(y) is Some
            && param_texts(params_after(h.function(x)->0.decl.params, receiver)) == param_texts(
            params_after(h.function(y)->0.decl.params, receiver),
        ),
        _ => false,
    }
}

/// The functions of a set that do not take what `v` takes.
pub open spec fn others(h: HeapV, set: Seq<Value>, v: Value, receiver: bool) -> Seq<Value>
    decreases set.len(),
{
    if set.len() == 0 {
        Seq::empty()
    } else {
        let rest = others(h, set.drop_last(), v, receiver);
        if set.last() is Function && !same_signature(h, set.last(), v, receiver) {
            rest.push(set.last())
        } else {
            rest
        }
    }
}

/// The functions of a set that take what none of `own` takes.
pub open spec fn others_than(h: HeapV, set: Seq<Value>, own: Seq<Value>, receiver: bool) -> Seq<Value>
    decreases own.len(),
{
    if own.len() == 0 {
        set
    } else {
        others(h, others_than(h, set, own.drop_last(), receiver), own.last(), receiver)
    }
}

/// A declaration added to what its name already holds: it replaces one that takes the
/// same, and stands beside the rest.
pub open spec fn s_merged(st: St, existing: Value, new: Value, receiver: bool) -> (St, Value) {
    let set = others(st.heap, candidates(st.heap, existing), new, receiver).push(new);
    if set.len() == 1 {
        (st, new)
    } else {
        (with_new(st, ObjV::Overload(set)), Value::Overload(st.heap.next_id()))
    }
}

/// A class's own declarations beside those it inherits under the same name.
pub open spec fn s_inherited(st: St, own: Value, theirs: Value) -> (St, Value) {
    let mine = candidates(st.heap, own);
    let rest = others_than(
        st.heap,
        others(st.heap, candidates(st.heap, theirs), Value::Nil, true),
        mine,
        true,
    );
    if rest.len() == 0 {
        (st, own)
    } else {
        (with_new(st, ObjV::Overload(rest + mine)), Value::Overload(st.heap.next_id()))
    }
}

fn same_texts(a: &Vec<String>, b: &Vec<String>) -> (r: bool)
    ensures
        r == (strs(a@) == strs(b@)),
{
    if a.len() != b.len() {
        assert(strs(a@).len() != strs(b@).len());
        return false;
    }
    let mut i: usize = 0;
    while i < a.len()
        invariant
            i <= a@.len(),
            a@.len() == b@.len(),
            forall|j: int| 0 <= j < i ==> #[trigger] strs(a@)[j] == strs(b@)[j],
        decreases a@.len() - i,
    {
        if !same(a[i].as_str(), b[i].as_str()) {
            assert(strs(a@)[i as int] != strs(b@)[i as int]);
            return false;
        }
        i += 1;
    }
    assert(strs(a@) =~= strs(b@));
    true
}

impl Heap {
    fn same_signature(&self, a: Value, b: Value, receiver: bool) -> (r: bool)
        ensures
            r == same_signature(self@, a, b, receiver),
    {
        match (a, b) {
            (Value::Function(x), Value::Function(y)) => match (self.function(x), self.function(y)) {
                (Some((first, _, _)), Some((second, _, _))) => {
                    let takes = written_params(&params_of(&first, receiver));
                    let wants = written_params(&params_of(&second, receiver));
                    same_texts(&takes, &wants)
                },
                _ => false,
            },
            _ => false,
        }
    }

    fn others(&self, set: &Vec<Value>, v: Value, receiver: bool) -> (r: Vec<Value>)
        ensures
            r@ == others(self@, set@, v, receiver),
    {
        let mut r: Vec<Value> = Vec::new();
        let mut i: usize = 0;
        assert(set@.take(0) =~= Seq::empty());
        while i < set.len()
            invariant
                i <= set@.len(),
                r@ == others(self@, set@.take(i as int), v, receiver),
            decreases set@.len() - i,
        {
            proof {
                let longer = set@.take(i + 1);
                assert(longer.drop_last() =~= set@.take(i as int));
                assert(longer.last() == set@[i as int]);
            }
            if let Value::Function(_) = set[i] {
                if !self.same_signature(set[i], v, receiver) {
                    r.push(set[i]);
                }
            }
            i += 1;
        }
        assert(set@.take(i as int) =~= set@);
        r
    }

    fn others_than(&self, set: Vec<Value>, own: &Vec<Value>, receiver: bool) -> (r: Vec<Value>)
        ensures
            r@ == others_than(self@, set@, own@, receiver),
    {
        let ghost all = set@;
        let mut r: Vec<Value> = set;
        let mut i: usize = 0;
        assert(own@.take(0) =~= Seq::empty());
        while i < own.len()
            invariant
                i <= own@.len(),
                r@ == others_than(self@, all, own@.take(i as int), receiver),
            decreases own@.len() - i,
        {
            proof {
                let longer = own@.take(i + 1);
                assert(longer.drop_last() =~= own@.take(i as int));
                assert(longer.last() == own@[i as int]);
            }
            r = self.others(&r, own[i], receiver);
            i += 1;
        }
        assert(own@.take(i as int) =~= own@);
        r
    }
}

impl Interp {
    fn merged(&mut self, existing: Value, new: Value, receiver: bool) -> (v: Value)
        ensures
            (final(self)@, v) == s_merged(old(self)@, existing, new, receiver),
    {
        let held = self.heap.candidates(existing);
        let mut set = self.heap.others(&held, new, receiver);
        set.push(new);
        if set.len() == 1 {
            return new;
        }
        Value::Overload(self.heap.add_object(Object::Overload(set)))
    }

    fn inherited(&mut self, own: Value, theirs: Value) -> (v: Value)
        ensures
            (final(self)@, v) == s_inherited(old(self)@, own, theirs),
    {
        let mut mine = self.heap.candidates(own);
        let held = self.heap.candidates(theirs);
        let functions = self.heap.others(&held, Value::Nil, true);
        let mut rest = self.heap.others_than(functions, &mine, true);
        if rest.len() == 0 {
            return own;
        }
        rest.append(&mut mine);
        Value::Overload(self.heap.add_object(Object::Overload(rest)))
    }
}

// -- functions --------------------------------------------------------------------------------

/// A function declared in a scope, beside what the scope already declares under its
/// name.
pub open spec fn s_declare_fn(st: St, decl: FnDeclV, env: ObjId) -> St {
    let st1 = with_new(st, ObjV::Function(FunctionV { decl, env, owner: None }));
    let f = Value::Function(st.heap.next_id());
    let (st2, v) = match var_of(st1.heap, env, decl.name) {
        Some(var) => match var.value {
            Some(Value::Function(old)) => s_merged(st1, Value::Function(old), f, false),
            Some(Value::Overload(old)) => s_merged(st1, Value::Overload(old), f, false),
            _ => (st1, f),
        },
        None => (st1, f),
    };
    with_heap(st2, declared(st2.heap, env, decl.name, v, Bind::Final, None))
}

impl Interp {
    fn new_function(&mut self, decl: &Rc<FnDecl>, env: ObjId, owner: Option<ObjId>) -> (v: Value)
        ensures
            v == Value::Function(old(self)@.heap.next_id()),
            final(self)@ == with_new(
                old(self)@,
                ObjV::Function(FunctionV { decl: fn_decl_v(**decl), env, owner }),
            ),
    {
        let made = Object::Function(Function { decl: Rc::clone(decl), env, owner });
        Value::Function(self.heap.add_object(made))
    }

    pub(crate) fn declare_fn(&mut self, decl: &Rc<FnDecl>, env: ObjId)
        ensures
            final(self)@ == s_declare_fn(old(self)@, fn_decl_v(**decl), env),
    {
        let f = self.new_function(decl, env, None);
        let old_value = match self.heap.var(env, decl.name.as_str()) {
            Some((value, _bind, _ty)) => value,
            None => None,
        };
        let v = match old_value {
            Some(Value::Function(id)) => self.merged(Value::Function(id), f, false),
            Some(Value::Overload(id)) => self.merged(Value::Overload(id), f, false),
            _ => f,
        };
        self.heap.declare(env, decl.name.as_str(), v, Bind::Final, None);
    }
}

// -- classes -----------------------------------------------------------------------------------

/// A class's methods, those declared under one name as a set.
pub open spec fn s_methods(
    st: St,
    decls: Seq<FnDeclV>,
    env: ObjId,
    owner: ObjId,
    i: int,
    table: Seq<NamedV>,
) -> (St, Seq<NamedV>)
    decreases decls.len() - i,
{
    if i < 0 || i >= decls.len() {
        (st, table)
    } else {
        let st1 = with_new(
            st,
            ObjV::Function(FunctionV { decl: decls[i], env, owner: Some(owner) }),
        );
        let f = Value::Function(st.heap.next_id());
        let (st2, v) = match lookup(table, decls[i].name) {
            Some(held) => s_merged(st1, held, f, true),
            None => (st1, f),
        };
        s_methods(st2, decls, env, owner, i + 1, put(table, decls[i].name, v))
    }
}

/// A class's methods beside those inherited under the same names. A constructor is
/// replaced rather than added to.
pub open spec fn s_inherit(st: St, parent: ObjId, i: int, table: Seq<NamedV>) -> (St, Seq<NamedV>)
    decreases table.len() - i,
{
    if i < 0 || i >= table.len() {
        (st, table)
    } else {
        match method_in(st.heap, parent, table[i].name, st.heap.cells.len()) {
            Some(theirs) => if table[i].name == "init"@ {
                s_inherit(st, parent, i + 1, table)
            } else {
                let (st1, v) = s_inherited(st, table[i].value, theirs);
                s_inherit(
                    st1,
                    parent,
                    i + 1,
                    table.update(i, NamedV { name: table[i].name, value: v }),
                )
            },
            None => s_inherit(st, parent, i + 1, table),
        }
    }
}

/// Slots with those of the first `n` declared ops filled in.
pub open spec fn filled_slots(
    decls: Seq<FnDeclV>,
    table: Seq<NamedV>,
    start: Seq<Option<Value>>,
    n: int,
) -> Seq<Option<Value>>
    decreases n,
{
    if n <= 0 || n > decls.len() {
        start
    } else {
        let before = filled_slots(decls, table, start, n - 1);
        match decls[n - 1].op {
            Some(op) => if op.position() < before.len() {
                before.update(op.position(), lookup(table, decls[n - 1].name))
            } else {
                before
            },
            None => before,
        }
    }
}

/// No op answered for.
pub open spec fn no_slots() -> Seq<Option<Value>> {
    Seq::new(OP_COUNT as nat, |i: int| None)
}

/// Whether a value may be extended by a class.
pub open spec fn s_parent(h: HeapV, name: Seq<char>, parent: Seq<char>, v: Value, span: Span) -> Result<
    ObjId,
    ErrV,
> {
    match v {
        Value::Class(id) => if h.class(id).builtin is Some && h.class_slot(id, Op::Init) is None {
            Err(
                err_help(
                    ErrorKind::Type,
                    "`"@ + name + "` cannot extend `"@ + h.class(id).name + "`"@,
                    span,
                    "there is no value a "@ + h.class(id).name
                        + " could be made from, so `super.init` would have nothing to call"@,
                ),
            )
        } else if h.class(id).openness.is_closed_to_inheritance() {
            Err(
                err_help(
                    ErrorKind::Type,
                    "`"@ + name + "` cannot extend `"@ + h.class(id).name + "`"@,
                    span,
                    "`"@ + h.class(id).name + "` is declared `"@ + h.class(id).openness.spelled()
                        + "`, so it has no subclasses — `"@ + name + "` can hold a `"@ + h.class(
                        id,
                    ).name + "`, but it cannot be one"@,
                ),
            )
        } else {
            Ok(id)
        },
        _ => Err(
            err(
                ErrorKind::Type,
                "a class can only extend a class, but `"@ + parent + "` is "@ + type_text(h, v),
                span,
            ),
        ),
    }
}

/// The class a declaration extends.
pub open spec fn s_parent_of(st: St, decl: ClassDeclV, env: ObjId) -> Out<Option<ObjId>> {
    match decl.parent {
        None => (st, Ok(None)),
        Some(parent) => match s_read(st, parent, env, decl.parent_span) {
            (st1, Ok(v)) => match s_parent(st1.heap, decl.name, parent, v, decl.parent_span) {
                Ok(id) => (st1, Ok(Some(id))),
                Err(e) => (st1, Err(e)),
            },
            (st1, Err(e)) => (st1, Err(e)),
        },
    }
}

/// The scope a class's methods close over: one that holds `super`, where there is
/// anything above.
pub open spec fn s_enclosing(st: St, parent: Option<ObjId>, env: ObjId) -> (St, ObjId) {
    match parent {
        None => (st, env),
        Some(id) => {
            let scope = st.heap.next_id();
            let st1 = with_new(st, fresh(Seq::empty(), env));
            (
                with_heap(
                    st1,
                    declared(st1.heap, scope, "super"@, Value::Class(id), Bind::Final, None),
                ),
                scope,
            )
        },
    }
}

pub open spec fn empty_class(decl: ClassDeclV, parent: Option<ObjId>, env: ObjId) -> ClassV {
    ClassV {
        name: decl.name,
        methods: Seq::empty(),
        parent,
        slots: no_slots(),
        builtin: None,
        openness: decl.openness,
        decl: Some(decl),
        env,
    }
}

pub open spec fn inherited_slots(h: HeapV, parent: Option<ObjId>) -> Seq<Option<Value>> {
    match parent {
        Some(id) => h.class(id).slots,
        None => no_slots(),
    }
}

/// A class, made and declared.
pub open spec fn s_make_class(st: St, decl: ClassDeclV, parent: Option<ObjId>, env: ObjId) -> St {
    let (st1, scope) = s_enclosing(st, parent, env);
    let id = st1.heap.next_id();
    let st2 = with_new(st1, ObjV::Class(empty_class(decl, parent, scope)));
    let (st3, own) = s_methods(st2, decl.methods, scope, id, 0, Seq::empty());
    let (st4, table) = match parent {
        Some(above) => s_inherit(st3, above, 0, own),
        None => (st3, own),
    };
    let slots = filled_slots(
        decl.methods,
        table,
        inherited_slots(st4.heap, parent),
        decl.methods.len() as int,
    );
    let made = ClassV { methods: table, slots, ..empty_class(decl, parent, scope) };
    let h5 = st4.heap.with_object(id, ObjV::Class(made));
    with_heap(st4, declared(h5, env, decl.name, Value::Class(id), Bind::Final, None))
}

/// What declaring a class does.
pub open spec fn s_declare_class(st: St, decl: ClassDeclV, env: ObjId) -> Out<()> {
    match s_parent_of(st, decl, env) {
        (st1, Err(e)) => (st1, Err(e)),
        (st1, Ok(parent)) => (s_make_class(st1, decl, parent, env), Ok(())),
    }
}

impl Interp {
    fn methods(&mut self, decls: &Vec<Rc<FnDecl>>, env: ObjId, owner: ObjId) -> (r: Vec<Named>)
        ensures
            (final(self)@, nameds_v(r@)) == s_methods(
                old(self)@,
                fn_decls_v(decls@),
                env,
                owner,
                0,
                Seq::empty(),
            ),
    {
        let ghost all = fn_decls_v(decls@);
        let ghost goal = s_methods(self@, all, env, owner, 0, Seq::empty());
        let mut table: Vec<Named> = Vec::new();
        assert(nameds_v(table@) =~= Seq::empty());
        let mut i: usize = 0;
        while i < decls.len()
            invariant
                i <= decls@.len(),
                all == fn_decls_v(decls@),
                goal == s_methods(self@, all, env, owner, i as int, nameds_v(table@)),
            decreases decls@.len() - i,
        {
            let decl = &decls[i];
            let f = self.new_function(decl, env, Some(owner));
            let v = match get_named(&table, decl.name.as_str()) {
                Some(held) => self.merged(held, f, true),
                None => f,
            };
            put_named(&mut table, decl.name.as_str(), v);
            i += 1;
        }
        table
    }

    fn inherit(&mut self, parent: ObjId, own: Vec<Named>) -> (r: Vec<Named>)
        ensures
            (final(self)@, nameds_v(r@)) == s_inherit(old(self)@, parent, 0, nameds_v(own@)),
    {
        let ghost goal = s_inherit(self@, parent, 0, nameds_v(own@));
        let mut table: Vec<Named> = own;
        let mut i: usize = 0;
        while i < table.len()
            invariant
                i <= table@.len(),
                goal == s_inherit(self@, parent, i as int, nameds_v(table@)),
            decreases table@.len() - i,
        {
            let name = table[i].name.clone();
            if let Some(theirs) = self.heap.method_in(parent, name.as_str()) {
                if !same(name.as_str(), "init") {
                    let ghost before = nameds_v(table@);
                    let value = self.inherited(table[i].value, theirs);
                    let ghost new = NamedV { name: name@, value };
                    table[i] = Named { name, value };
                    assert(nameds_v(table@) =~= before.update(i as int, new));
                }
            }
            i += 1;
        }
        table
    }

    fn parent_of(&mut self, decl: &ClassDecl, env: ObjId) -> (r: Result<
        Option<ObjId>,
        QuinceError,
    >)
        ensures
            (final(self)@, res(r)) == s_parent_of(old(self)@, class_decl_v(*decl), env),
    {
        match &decl.parent {
            None => Ok(None),
            Some(parent) => {
                let v = self.read(parent.as_str(), env, decl.parent_span)?;
                match self.heap.extendable(
                    decl.name.as_str(),
                    parent.as_str(),
                    v,
                    decl.parent_span,
                ) {
                    Ok(id) => Ok(Some(id)),
                    Err(e) => Err(e),
                }
            },
        }
    }

    fn enclosing(&mut self, parent: Option<ObjId>, env: ObjId) -> (scope: ObjId)
        ensures
            (final(self)@, scope) == s_enclosing(old(self)@, parent, env),
    {
        match parent {
            None => env,
            Some(id) => {
                let none: Vec<String> = Vec::new();
                assert(strs(none@) =~= Seq::empty());
                let scope = self.heap.add_object(fresh_scope(&none, env));
                self.heap.declare(scope, "super", Value::Class(id), Bind::Final, None);
                scope
            },
        }
    }

    #[verifier::spinoff_prover]
    fn make_class(&mut self, decl: &Rc<ClassDecl>, parent: Option<ObjId>, env: ObjId)
        ensures
            final(self)@ == s_make_class(old(self)@, class_decl_v(**decl), parent, env),
    {
        assert(class_decl_v(**decl).methods == fn_decls_v(decl.methods@));
        let scope = self.enclosing(parent, env);
        let none: Vec<Named> = Vec::new();
        assert(nameds_v(none@) =~= Seq::empty());
        let empty = Class {
            name: decl.name.clone(),
            methods: none,
            parent,
            slots: empty_slots(),
            builtin: None,
            openness: decl.openness,
            decl: Some(Rc::clone(decl)),
            env: scope,
        };
        assert(empty@ == empty_class(class_decl_v(**decl), parent, scope));
        let id = self.heap.add_object(Object::Class(empty));
        let own = self.methods(&decl.methods, scope, id);
        let table = match parent {
            Some(above) => self.inherit(above, own),
            None => own,
        };
        let start = match parent {
            Some(above) => self.heap.class_slots(above),
            None => empty_slots(),
        };
        let slots = fill_slots(&decl.methods, &table, start);
        let made = Class {
            name: decl.name.clone(),
            methods: table,
            parent,
            slots,
            builtin: None,
            openness: decl.openness,
            decl: Some(Rc::clone(decl)),
            env: scope,
        };
        self.heap.set_object(id, Object::Class(made));
        self.heap.declare(env, decl.name.as_str(), Value::Class(id), Bind::Final, None);
    }

    /// Declares a class.
    pub(crate) fn declare_class(&mut self, decl: &Rc<ClassDecl>, env: ObjId) -> (r: Result<
        (),
        QuinceError,
    >)
        ensures
            (final(self)@, res(r)) == s_declare_class(old(self)@, class_decl_v(**decl), env),
    {
        let parent = self.parent_of(decl, env)?;
        self.make_class(decl, parent, env);
        Ok(())
    }
}

pub(crate) fn empty_slots() -> (r: Vec<Option<Value>>)
    ensures
        r@ == no_slots(),
{
    let mut r: Vec<Option<Value>> = Vec::new();
    while r.len() < OP_COUNT
        invariant
            r@.len() <= OP_COUNT,
            forall|i: int| 0 <= i < r@.len() ==> r@[i] is None,
        decreases OP_COUNT - r@.len(),
    {
        r.push(None);
    }
    assert(r@ =~= no_slots());
    r
}

fn fill_slots(decls: &Vec<Rc<FnDecl>>, table: &Vec<Named>, start: Vec<Option<Value>>) -> (r: Vec<
    Option<Value>,
>)
    ensures
        r@ == filled_slots(
            fn_decls_v(decls@),
            nameds_v(table@),
            start@,
            decls@.len() as int,
        ),
{
    let ghost all = fn_decls_v(decls@);
    let ghost first = start@;
    let mut r: Vec<Option<Value>> = start;
    let mut i: usize = 0;
    while i < decls.len()
        invariant
            i <= decls@.len(),
            all == fn_decls_v(decls@),
            r@ == filled_slots(all, nameds_v(table@), first, i as int),
        decreases decls@.len() - i,
    {
        if let Some(op) = decls[i].op {
            let at: usize = op.index();
            if at < r.len() {
                r[at] = get_named(table, decls[i].name.as_str());
            }
        }
        i += 1;
    }
    r
}

impl Heap {
    fn extendable(&self, name: &str, parent: &str, v: Value, span: Span) -> (r: Result<
        ObjId,
        QuinceError,
    >)
        ensures
            res(r) == s_parent(self@, name@, parent@, v, span),
    {
        match v {
            Value::Class(id) => {
                let above = self.class_name(id);
                if self.class_builtin(id).is_some() && self.class_slot(id, Op::Init).is_none() {
                    let help = cat3(
                        "there is no value a ",
                        above.as_str(),
                        " could be made from, so `super.init` would have nothing to call",
                    );
                    return Err(
                        helped_type_error(
                            cat5("`", name, "` cannot extend `", above.as_str(), "`"),
                            span,
                            help.as_str(),
                        ),
                    );
                }
                let openness = self.class_openness(id);
                if openness.closes_inheritance() {
                    let help = cat9(
                        "`",
                        above.as_str(),
                        "` is declared `",
                        openness.word(),
                        "`, so it has no subclasses — `",
                        name,
                        "` can hold a `",
                        above.as_str(),
                        "`, but it cannot be one",
                    );
                    return Err(
                        helped_type_error(
                            cat5("`", name, "` cannot extend `", above.as_str(), "`"),
                            span,
                            help.as_str(),
                        ),
                    );
                }
                Ok(id)
            },
            _ => {
                let kind = self.type_text(v);
                let mut message = cat3("a class can only extend a class, but `", parent, "` is ");
                message.append(kind.as_str());
                Err(plain_type_error(message, span))
            },
        }
    }
}

// -- extensions ----------------------------------------------------------------------------------

/// Where a class's extension of a name stands.
pub open spec fn extension_place(s: Seq<ExtensionV>, class: ObjId, name: Seq<char>, from: int) -> Option<
    int,
>
    decreases s.len() - from,
{
    if from < 0 || from >= s.len() {
        None
    } else if s[from].class == class && s[from].name == name {
        Some(from)
    } else {
        extension_place(s, class, name, from + 1)
    }
}

/// The extensions with one of them set.
pub open spec fn extension_put(
    s: Seq<ExtensionV>,
    class: ObjId,
    name: Seq<char>,
    method: Value,
) -> Seq<ExtensionV> {
    match extension_place(s, class, name, 0) {
        Some(i) => s.update(i, ExtensionV { class, name, method }),
        None => s.push(ExtensionV { class, name, method }),
    }
}

/// Whether a class may be given every one of these methods.
pub open spec fn s_may_extend_all(st: St, id: ObjId, decls: Seq<FnDeclV>, span: Span, from: int) -> Result<
    (),
    ErrV,
>
    decreases decls.len() - from,
{
    if from < 0 || from >= decls.len() {
        Ok(())
    } else {
        match s_may_extend(st, id, decls[from], span) {
            Ok(_) => s_may_extend_all(st, id, decls, span, from + 1),
            Err(e) => Err(e),
        }
    }
}

/// One method added to a class.
pub open spec fn s_add_extension(st: St, id: ObjId, decl: FnDeclV, env: ObjId) -> St {
    let st1 = with_new(st, ObjV::Function(FunctionV { decl, env, owner: None }));
    let f = Value::Function(st.heap.next_id());
    let (st2, v) = match extension(st1.extensions, id, decl.name, 0) {
        Some(held) => s_merged(st1, held, f, true),
        None => (st1, f),
    };
    let st3 = St { extensions: extension_put(st2.extensions, id, decl.name, v), ..st2 };
    match decl.op {
        Some(op) => with_heap(st3, slot_put(st3.heap, id, op, v)),
        None => st3,
    }
}

/// Methods from `i` on added to a class.
pub open spec fn s_add_extensions(st: St, id: ObjId, decls: Seq<FnDeclV>, env: ObjId, i: int) -> St
    decreases decls.len() - i,
{
    if i < 0 || i >= decls.len() {
        st
    } else {
        s_add_extensions(s_add_extension(st, id, decls[i], env), id, decls, env, i + 1)
    }
}

/// What an `extend` block does: all of it, or nothing.
pub open spec fn s_extend(
    st: St,
    target: Seq<char>,
    span: Span,
    methods: Seq<FnDeclV>,
    env: ObjId,
) -> Out<()> {
    match s_read(st, target, env, span) {
        (st1, Err(e)) => (st1, Err(e)),
        (st1, Ok(Value::Class(id))) => match s_may_extend_all(st1, id, methods, span, 0) {
            Ok(_) => (s_add_extensions(st1, id, methods, env, 0), Ok(())),
            Err(e) => (st1, Err(e)),
        },
        (st1, Ok(v)) => (
            st1,
            Err(
                err(
                    ErrorKind::Type,
                    "only a type can be extended, but `"@ + target + "` is "@ + an(
                        type_text(st1.heap, v),
                    ),
                    span,
                ),
            ),
        ),
    }
}

impl Interp {
    fn put_extension(&mut self, class: ObjId, name: &str, method: Value)
        ensures
            final(self)@ == (St {
                extensions: extension_put(old(self)@.extensions, class, name@, method),
                ..old(self)@
            }),
    {
        let ghost before = self@.extensions;
        let mut i: usize = 0;
        while i < self.extensions.len()
            invariant
                i <= self.extensions@.len(),
                self@ == old(self)@,
                before == self@.extensions,
                extension_place(before, class, name@, 0) == extension_place(
                    before,
                    class,
                    name@,
                    i as int,
                ),
            decreases self.extensions@.len() - i,
        {
            if self.extensions[i].class == class && same(self.extensions[i].name.as_str(), name) {
                self.extensions[i] = Extension { class, name: name.to_owned(), method };
                assert(self@.extensions =~= before.update(
                    i as int,
                    ExtensionV { class, name: name@, method },
                ));
                return;
            }
            i += 1;
        }
        self.extensions.push(Extension { class, name: name.to_owned(), method });
        assert(self@.extensions =~= before.push(ExtensionV { class, name: name@, method }));
    }

    fn add_extension(&mut self, id: ObjId, decl: &Rc<FnDecl>, env: ObjId)
        ensures
            final(self)@ == s_add_extension(old(self)@, id, fn_decl_v(**decl), env),
    {
        let f = self.new_function(decl, env, None);
        let v = match self.find_extension(id, decl.name.as_str()) {
            Some(held) => self.merged(held, f, true),
            None => f,
        };
        self.put_extension(id, decl.name.as_str(), v);
        if let Some(op) = decl.op {
            self.heap.put_slot(id, op, v);
        }
    }

    fn may_extend_all(&self, id: ObjId, decls: &Vec<Rc<FnDecl>>, span: Span) -> (r: Result<
        (),
        QuinceError,
    >)
        ensures
            res(r) == s_may_extend_all(self@, id, fn_decls_v(decls@), span, 0),
    {
        let mut i: usize = 0;
        while i < decls.len()
            invariant
                i <= decls@.len(),
                s_may_extend_all(self@, id, fn_decls_v(decls@), span, 0) == s_may_extend_all(
                    self@,
                    id,
                    fn_decls_v(decls@),
                    span,
                    i as int,
                ),
            decreases decls@.len() - i,
        {
            self.may_extend(id, &decls[i], span)?;
            i += 1;
        }
        Ok(())
    }

    /// Adds the methods of an `extend` block.
    pub(crate) fn extend(
        &mut self,
        target: &str,
        span: Span,
        methods: &Vec<Rc<FnDecl>>,
        env: ObjId,
    ) -> (r: Result<(), QuinceError>)
        ensures
            (final(self)@, res(r)) == s_extend(
                old(self)@,
                target@,
                span,
                fn_decls_v(methods@),
                env,
            ),
    {
        let v = self.read(target, env, span)?;
        let id = match v {
            Value::Class(id) => id,
            _ => {
                let kind = self.heap.type_text(v);
                let noun = with_article(kind.as_str());
                let mut message = cat3("only a type can be extended, but `", target, "` is ");
                message.append(noun.as_str());
                return Err(plain_type_error(message, span));
            },
        };
        self.may_extend_all(id, methods, span)?;
        let ghost goal = s_add_extensions(self@, id, fn_decls_v(methods@), env, 0);
        let mut i: usize = 0;
        while i < methods.len()
            invariant
                i <= methods@.len(),
                goal == s_add_extensions(self@, id, fn_decls_v(methods@), env, i as int),
            decreases methods@.len() - i,
        {
            self.add_extension(id, &methods[i], env);
            i += 1;
        }
        Ok(())
    }
}

// -- hoisting ------------------------------------------------------------------------------------

/// The name a statement declares in the scope it stands in.
pub open spec fn declares(s: StmtV) -> Option<Seq<char>> {
    match s.kind {
        StmtKindV::Let { name, .. } => Some(name),
        StmtKindV::Fn(decl) => Some(decl.name),
        StmtKindV::Class(decl) => Some(decl.name),
        _ => None,
    }
}

/// The names the first `n` statements declare.
pub open spec fn hoisted(stmts: Seq<StmtV>, n: int) -> Seq<Seq<char>>
    decreases n,
{
    if n <= 0 || n > stmts.len() {
        Seq::empty()
    } else {
        match declares(stmts[n - 1]) {
            Some(name) => hoisted(stmts, n - 1).push(name),
            None => hoisted(stmts, n - 1),
        }
    }
}

/// A block's scope: these names, then the ones it declares, none with a value yet.
pub open spec fn block_scope(first: Seq<Seq<char>>, stmts: Seq<StmtV>, parent: ObjId) -> ObjV {
    fresh(first + hoisted(stmts, stmts.len() as int), parent)
}

fn declared_name(s: &Stmt) -> (r: Option<&String>)
    ensures
        match r {
            Some(name) => declares(stmt_v(*s)) == Some(name@),
            None => declares(stmt_v(*s)) is None,
        },
{
    assert(stmt_v(*s).kind == stmt_kind_v(s.kind));
    match &s.kind {
        StmtKind::Let { name, name_span: _, ty: _, value: _, bind: _, visibility: _ } => Some(name),
        StmtKind::Fn(decl) => Some(&decl.name),
        StmtKind::Class(decl) => Some(&decl.name),
        _ => None,
    }
}

/// [`block_scope`], made.
pub(crate) fn make_scope(first: Vec<String>, stmts: &Vec<Stmt>, parent: ObjId) -> (r: Object)
    ensures
        r@ == block_scope(strs(first@), stmts_v(stmts@), parent),
{
    let ghost start = strs(first@);
    let ghost all = stmts_v(stmts@);
    let mut names: Vec<String> = first;
    let mut i: usize = 0;
    assert(strs(names@) =~= start + hoisted(all, 0));
    while i < stmts.len()
        invariant
            i <= stmts@.len(),
            all == stmts_v(stmts@),
            strs(names@) == start + hoisted(all, i as int),
        decreases stmts@.len() - i,
    {
        let ghost before = strs(names@);
        if let Some(name) = declared_name(&stmts[i]) {
            names.push(name.clone());
            assert(strs(names@) =~= before.push(name@));
            assert(strs(names@) =~= start + hoisted(all, i + 1));
        }
        i += 1;
    }
    fresh_scope(&names, parent)
}

// -- laws ------------------------------------------------------------------------------------------

/// A declaration that takes what another of its set takes replaces it.
pub proof fn law_a_redeclared_signature_replaces(h: HeapV, set: Seq<Value>, new: Value, receiver: bool)
    ensures
        forall|i: int|
            0 <= i < others(h, set, new, receiver).len() ==> !same_signature(
                h,
                #[trigger] others(h, set, new, receiver)[i],
                new,
                receiver,
            ),
    decreases set.len(),
{
    if set.len() > 0 {
        law_a_redeclared_signature_replaces(h, set.drop_last(), new, receiver);
        let rest = others(h, set.drop_last(), new, receiver);
        assert forall|i: int|
            0 <= i < others(h, set, new, receiver).len() implies !same_signature(
            h,
            #[trigger] others(h, set, new, receiver)[i],
            new,
            receiver,
        ) by {
            if i < rest.len() {
                assert(!same_signature(h, rest[i], new, receiver));
                assert(others(h, set, new, receiver)[i] == rest[i]);
            }
        }
    }
}

/// An op a subclass does not declare is the one it inherits.
pub proof fn law_an_undeclared_op_is_inherited(
    decls: Seq<FnDeclV>,
    table: Seq<NamedV>,
    start: Seq<Option<Value>>,
    op: Op,
    n: int,
)
    requires
        0 <= n <= decls.len(),
        0 <= op.position() < start.len(),
        forall|i: int| 0 <= i < n ==> (#[trigger] decls[i]).op != Some(op),
    ensures
        filled_slots(decls, table, start, n)[op.position()] == start[op.position()],
        filled_slots(decls, table, start, n).len() == start.len(),
    decreases n,
{
    if n > 0 {
        law_an_undeclared_op_is_inherited(decls, table, start, op, n - 1);
        if let Some(other) = decls[n - 1].op {
            assert(other != op);
        }
    }
}

} // verus!
