//! What kind of thing a value is: its class, the classes that one extends, and the
//! value it stands for.

use crate::runtime::heap::{Heap, HeapV};
use crate::runtime::object::lookup;
use crate::runtime::value::{Builtin, ObjId, Value};
use crate::syntax::ast::Op;
use crate::text::same;
use vstd::prelude::*;

verus! {

/// The builtin type of a value that is no instance.
pub open spec fn builtin_of(v: Value) -> Builtin {
    match v {
        Value::Nil => Builtin::Nil,
        Value::Bool(_) => Builtin::Bool,
        Value::Int(_) => Builtin::Int,
        Value::Float(_) => Builtin::Float,
        Value::Str(_) => Builtin::Str,
        Value::List(_) => Builtin::List,
        Value::Tuple(_) => Builtin::Tuple,
        Value::Dict(_) => Builtin::Dict,
        Value::Function(_) | Value::Overload(_) | Value::Native(_) | Value::BoundMethod(_) =>
            Builtin::Function,
        Value::Class(_) => Builtin::Class,
        Value::Instance(_) => Builtin::Nil,
        Value::Module(_) => Builtin::Module,
    }
}

/// The class of a value.
pub open spec fn class_of(h: HeapV, v: Value) -> ObjId {
    match v {
        Value::Instance(id) => h.instance(id).class,
        _ => h.builtin_class(builtin_of(v)),
    }
}

/// What a value's type is called.
pub open spec fn type_text(h: HeapV, v: Value) -> Seq<char> {
    match v {
        Value::Instance(id) => h.class(h.instance(id).class).name,
        _ => builtin_of(v).spelled(),
    }
}

/// The value an instance of a class extending a builtin is; any other value is itself.
pub open spec fn base(h: HeapV, v: Value) -> Value {
    match v {
        Value::Instance(id) => match h.instance(id).payload {
            Some(p) => p,
            None => v,
        },
        _ => v,
    }
}

/// The op a value's class answers for.
pub open spec fn slot_of(h: HeapV, v: Value, op: Op) -> Option<Value> {
    h.class_slot(class_of(h, v), op)
}

/// The method a class or one it extends declares; at most `n` classes are looked at.
pub open spec fn method_in(h: HeapV, id: ObjId, name: Seq<char>, n: nat) -> Option<Value>
    decreases n,
{
    if n == 0 {
        None
    } else {
        match lookup(h.class(id).methods, name) {
            Some(v) => Some(v),
            None => match h.class(id).parent {
                Some(parent) => method_in(h, parent, name, (n - 1) as nat),
                None => None,
            },
        }
    }
}

/// Whether a class is another or extends it, at any remove.
pub open spec fn descends(h: HeapV, id: ObjId, ancestor: ObjId, n: nat) -> bool
    decreases n,
{
    if n == 0 {
        false
    } else if id == ancestor {
        true
    } else {
        match h.class(id).parent {
            Some(parent) => descends(h, parent, ancestor, (n - 1) as nat),
            None => false,
        }
    }
}

/// Whether a class, or one it extends, has this name.
pub open spec fn descends_named(h: HeapV, id: ObjId, name: Seq<char>, n: nat) -> bool
    decreases n,
{
    if n == 0 {
        false
    } else if h.class(id).name == name {
        true
    } else {
        match h.class(id).parent {
            Some(parent) => descends_named(h, parent, name, (n - 1) as nat),
            None => false,
        }
    }
}

/// The builtin a class extends, at any remove.
pub open spec fn builtin_base(h: HeapV, id: ObjId, n: nat) -> Option<Builtin>
    decreases n,
{
    if n == 0 {
        None
    } else {
        match h.class(id).builtin {
            Some(b) => Some(b),
            None => match h.class(id).parent {
                Some(parent) => builtin_base(h, parent, (n - 1) as nat),
                None => None,
            },
        }
    }
}

/// The classes from one up to the last it extends.
pub open spec fn lineage(h: HeapV, id: ObjId, n: nat) -> Seq<ObjId>
    decreases n,
{
    if n == 0 {
        Seq::empty()
    } else {
        seq![id] + match h.class(id).parent {
            Some(parent) => lineage(h, parent, (n - 1) as nat),
            None => Seq::empty(),
        }
    }
}

/// Whether a value is of the type a name names, or of one that extends it.
pub open spec fn is_a(h: HeapV, v: Value, name: Seq<char>) -> bool {
    type_text(h, v) == name || descends_named(h, class_of(h, v), name, h.cells.len())
}

/// Whether a value counts as true, leaving its class out of it: what is absent, zero
/// or empty does not.
pub open spec fn truthy_base(h: HeapV, v: Value) -> bool {
    match base(h, v) {
        Value::Nil => false,
        Value::Bool(b) => b,
        Value::Int(n) => n != 0,
        Value::Float(bits) => bits != 0 && bits != 0x8000_0000_0000_0000,
        Value::Str(id) => h.text(id).len() > 0,
        Value::List(id) => h.list(id).len() > 0,
        Value::Tuple(id) => h.tuple(id).len() > 0,
        Value::Dict(id) => h.dict(id).len() > 0,
        _ => true,
    }
}

pub fn builtin_kind(v: Value) -> (r: Builtin)
    ensures
        r == builtin_of(v),
{
    match v {
        Value::Nil => Builtin::Nil,
        Value::Bool(_) => Builtin::Bool,
        Value::Int(_) => Builtin::Int,
        Value::Float(_) => Builtin::Float,
        Value::Str(_) => Builtin::Str,
        Value::List(_) => Builtin::List,
        Value::Tuple(_) => Builtin::Tuple,
        Value::Dict(_) => Builtin::Dict,
        Value::Function(_) => Builtin::Function,
        Value::Overload(_) => Builtin::Function,
        Value::Native(_) => Builtin::Function,
        Value::BoundMethod(_) => Builtin::Function,
        Value::Class(_) => Builtin::Class,
        Value::Instance(_) => Builtin::Nil,
        Value::Module(_) => Builtin::Module,
    }
}

impl Heap {
    pub fn class_of(&self, v: Value) -> (r: ObjId)
        ensures
            r == class_of(self@, v),
    {
        match v {
            Value::Instance(id) => self.instance_class(id),
            _ => self.builtin_class(builtin_kind(v)),
        }
    }

    /// What a value's type is called.
    pub fn type_text(&self, v: Value) -> (r: String)
        ensures
            r@ == type_text(self@, v),
    {
        match v {
            Value::Instance(id) => self.class_name(self.instance_class(id)),
            _ => builtin_kind(v).name().to_owned(),
        }
    }

    pub fn base(&self, v: Value) -> (r: Value)
        ensures
            r == base(self@, v),
    {
        match v {
            Value::Instance(id) => match self.payload(id) {
                Some(p) => p,
                None => v,
            },
            _ => v,
        }
    }

    pub fn slot_of(&self, v: Value, op: Op) -> (r: Option<Value>)
        ensures
            r == slot_of(self@, v, op),
    {
        self.class_slot(self.class_of(v), op)
    }

    /// The method a class or one it extends declares.
    pub fn method_in(&self, id: ObjId, name: &str) -> (r: Option<Value>)
        ensures
            r == method_in(self@, id, name@, self@.cells.len()),
    {
        let mut n: usize = self.cells.len();
        let mut at: ObjId = id;
        while n > 0
            invariant
                method_in(self@, id, name@, self@.cells.len()) == method_in(
                    self@,
                    at,
                    name@,
                    n as nat,
                ),
            decreases n,
        {
            if let Some(v) = self.own_method(at, name) {
                return Some(v);
            }
            match self.class_parent(at) {
                Some(parent) => {
                    at = parent;
                },
                None => {
                    return None;
                },
            }
            n -= 1;
        }
        None
    }

    /// Whether a class is another or extends it.
    pub fn descends(&self, id: ObjId, ancestor: ObjId) -> (r: bool)
        ensures
            r == descends(self@, id, ancestor, self@.cells.len()),
    {
        let mut n: usize = self.cells.len();
        let mut at: ObjId = id;
        while n > 0
            invariant
                descends(self@, id, ancestor, self@.cells.len()) == descends(
                    self@,
                    at,
                    ancestor,
                    n as nat,
                ),
            decreases n,
        {
            if at == ancestor {
                return true;
            }
            match self.class_parent(at) {
                Some(parent) => {
                    at = parent;
                },
                None => {
                    return false;
                },
            }
            n -= 1;
        }
        false
    }

    /// Whether a class, or one it extends, has this name.
    pub fn descends_named(&self, id: ObjId, name: &str) -> (r: bool)
        ensures
            r == descends_named(self@, id, name@, self@.cells.len()),
    {
        let mut n: usize = self.cells.len();
        let mut at: ObjId = id;
        while n > 0
            invariant
                descends_named(self@, id, name@, self@.cells.len()) == descends_named(
                    self@,
                    at,
                    name@,
                    n as nat,
                ),
            decreases n,
        {
            let called = self.class_name(at);
            if same(called.as_str(), name) {
                return true;
            }
            match self.class_parent(at) {
                Some(parent) => {
                    at = parent;
                },
                None => {
                    return false;
                },
            }
            n -= 1;
        }
        false
    }

    /// The builtin a class extends.
    pub fn builtin_base(&self, id: ObjId) -> (r: Option<Builtin>)
        ensures
            r == builtin_base(self@, id, self@.cells.len()),
    {
        let mut n: usize = self.cells.len();
        let mut at: ObjId = id;
        while n > 0
            invariant
                builtin_base(self@, id, self@.cells.len()) == builtin_base(self@, at, n as nat),
            decreases n,
        {
            if let Some(b) = self.class_builtin(at) {
                return Some(b);
            }
            match self.class_parent(at) {
                Some(parent) => {
                    at = parent;
                },
                None => {
                    return None;
                },
            }
            n -= 1;
        }
        None
    }

    /// The classes from one up to the last it extends.
    pub fn lineage(&self, id: ObjId) -> (r: Vec<ObjId>)
        ensures
            r@ == lineage(self@, id, self@.cells.len()),
    {
        let mut n: usize = self.cells.len();
        let mut at: ObjId = id;
        let mut r: Vec<ObjId> = Vec::new();
        assert(r@ + lineage(self@, at, n as nat) =~= lineage(self@, id, self@.cells.len()));
        while n > 0
            invariant
                lineage(self@, id, self@.cells.len()) == r@ + lineage(self@, at, n as nat),
            decreases n,
        {
            let ghost before = r@;
            r.push(at);
            match self.class_parent(at) {
                Some(parent) => {
                    proof {
                        let rest = lineage(self@, parent, (n - 1) as nat);
                        assert(before + (seq![at] + rest) =~= r@ + rest);
                    }
                    at = parent;
                },
                None => {
                    assert(before + (seq![at] + Seq::<ObjId>::empty()) =~= r@);
                    return r;
                },
            }
            n -= 1;
        }
        assert(r@ + Seq::<ObjId>::empty() =~= r@);
        r
    }

    pub fn is_a(&self, v: Value, name: &str) -> (r: bool)
        ensures
            r == is_a(self@, v, name@),
    {
        let called = self.type_text(v);
        same(called.as_str(), name) || self.descends_named(self.class_of(v), name)
    }

    pub fn truthy_base(&self, v: Value) -> (r: bool)
        ensures
            r == truthy_base(self@, v),
    {
        match self.base(v) {
            Value::Nil => false,
            Value::Bool(b) => b,
            Value::Int(n) => n != 0,
            Value::Float(bits) => bits != 0 && bits != 0x8000_0000_0000_0000,
            Value::Str(id) => {
                let s = self.text(id);
                s.as_str().unicode_len() > 0
            },
            Value::List(id) => self.list_len(id) > 0,
            Value::Tuple(id) => self.tuple(id).len() > 0,
            Value::Dict(id) => self.dict_len(id) > 0,
            _ => true,
        }
    }
}

/// A class extends whatever the classes it extends do.
pub proof fn law_descent_goes_through_the_parent(h: HeapV, id: ObjId, ancestor: ObjId, n: nat)
    requires
        h.class(id).parent is Some,
        descends(h, h.class(id).parent->0, ancestor, n),
    ensures
        descends(h, id, ancestor, n + 1),
{
}

/// A method found on a class is the one its nearest class declares: a declaration
/// hides every one further up.
pub proof fn law_the_nearest_method_wins(h: HeapV, id: ObjId, name: Seq<char>, n: nat)
    requires
        n > 0,
        lookup(h.class(id).methods, name) is Some,
    ensures
        method_in(h, id, name, n) == lookup(h.class(id).methods, name),
{
}

} // verus!
