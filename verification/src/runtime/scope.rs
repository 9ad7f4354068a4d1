//! Scopes: where a name is found, and what declaring or assigning it changes.

use crate::error::opt_str;
use crate::runtime::heap::{Heap, HeapV};
use crate::runtime::object::{opt_ty, vars_v, ObjV, Object, Scope, ScopeV, Var, VarV};
use crate::runtime::value::{ObjId, Value};
use crate::syntax::ast::{Bind, TypeExpr, TypeExprV};
use crate::text::{same, strs};
use std::rc::Rc;
use vstd::prelude::*;

verus! {

/// Where a name first stands among variables.
pub open spec fn var_place(s: Seq<VarV>, name: Seq<char>, from: int) -> Option<int>
    decreases s.len() - from,
{
    if from < 0 || from >= s.len() {
        None
    } else if s[from].name == name {
        Some(from)
    } else {
        var_place(s, name, from + 1)
    }
}

/// The variable of a scope under a name.
pub open spec fn var_of(h: HeapV, id: ObjId, name: Seq<char>) -> Option<VarV> {
    match var_place(h.scope(id).vars, name, 0) {
        Some(i) => Some(h.scope(id).vars[i]),
        None => None,
    }
}

/// The scope, from `env` outwards, that declares a name; at most `n` are looked at.
pub open spec fn holder(h: HeapV, env: ObjId, name: Seq<char>, n: nat) -> Option<ObjId>
    decreases n,
{
    if n == 0 {
        None
    } else if var_place(h.scope(env).vars, name, 0) is Some {
        Some(env)
    } else {
        match h.scope(env).parent {
            Some(parent) => holder(h, parent, name, (n - 1) as nat),
            None => None,
        }
    }
}

/// The module a scope belongs to; at most `n` scopes are looked at.
pub open spec fn outermost(h: HeapV, env: ObjId, n: nat) -> ObjId
    decreases n,
{
    if n == 0 {
        env
    } else {
        match h.scope(env).parent {
            Some(parent) => outermost(h, parent, (n - 1) as nat),
            None => env,
        }
    }
}

/// The module a scope belongs to.
pub open spec fn module_of(h: HeapV, env: ObjId) -> ObjId {
    outermost(h, env, h.cells.len())
}

/// The heap with a name declared in a scope: given a value where it is there, and
/// added at the end where it is not.
pub open spec fn declared(
    h: HeapV,
    id: ObjId,
    name: Seq<char>,
    value: Value,
    bind: Bind,
    ty: Option<TypeExprV>,
) -> HeapV {
    match h.obj(id) {
        Some(ObjV::Scope(s)) => {
            let var = VarV { name, value: Some(value), bind, ty };
            h.with_object(
                id,
                ObjV::Scope(
                    ScopeV {
                        vars: match var_place(s.vars, name, 0) {
                            Some(i) => s.vars.update(i, var),
                            None => s.vars.push(var),
                        },
                        ..s
                    },
                ),
            )
        },
        _ => h,
    }
}

/// The heap with a declared name given another value.
pub open spec fn assigned(h: HeapV, id: ObjId, name: Seq<char>, value: Value) -> HeapV {
    match h.obj(id) {
        Some(ObjV::Scope(s)) => match var_place(s.vars, name, 0) {
            Some(i) => h.with_object(
                id,
                ObjV::Scope(
                    ScopeV {
                        vars: s.vars.update(i, VarV { value: Some(value), ..s.vars[i] }),
                        ..s
                    },
                ),
            ),
            None => h,
        },
        _ => h,
    }
}

/// A scope in which these names are declared and have no value yet.
pub open spec fn fresh(names: Seq<Seq<char>>, parent: ObjId) -> ObjV {
    ObjV::Scope(
        ScopeV {
            vars: Seq::new(
                names.len(),
                |i: int| VarV { name: names[i], value: None, bind: Bind::Let, ty: None },
            ),
            parent: Some(parent),
            name: None,
            path: None,
        },
    )
}

/// [`fresh`], made.
pub fn fresh_scope(names: &Vec<String>, parent: ObjId) -> (r: Object)
    ensures
        r@ == fresh(strs(names@), parent),
{
    let mut vars: Vec<Var> = Vec::new();
    let mut i: usize = 0;
    let ghost goal = fresh(strs(names@), parent)->Scope_0.vars;
    while i < names.len()
        invariant
            i <= names@.len(),
            goal == fresh(strs(names@), parent)->Scope_0.vars,
            vars_v(vars@) == goal.take(i as int),
        decreases names@.len() - i,
    {
        let ghost before = vars_v(vars@);
        vars.push(Var { name: names[i].clone(), value: None, bind: Bind::Let, ty: None });
        assert(vars_v(vars@) =~= before.push(goal[i as int]));
        assert(vars_v(vars@) =~= goal.take(i + 1));
        i += 1;
    }
    assert(vars_v(vars@) =~= goal);
    Object::Scope(Scope { vars, parent: Some(parent), name: None, path: None })
}

fn var_index(s: &Vec<Var>, name: &str) -> (r: Option<usize>)
    ensures
        match r {
            Some(i) => var_place(vars_v(s@), name@, 0) == Some(i as int) && i < s@.len(),
            None => var_place(vars_v(s@), name@, 0) is None,
        },
{
    let mut i: usize = 0;
    while i < s.len()
        invariant
            i <= s@.len(),
            var_place(vars_v(s@), name@, 0) == var_place(vars_v(s@), name@, i as int),
        decreases s@.len() - i,
    {
        if same(s[i].name.as_str(), name) {
            return Some(i);
        }
        i += 1;
    }
    None
}

impl Heap {
    pub fn scope_parent(&self, id: ObjId) -> (r: Option<ObjId>)
        ensures
            r == self@.scope(id).parent,
    {
        match self.object(id) {
            Some(Object::Scope(s)) => s.parent,
            _ => None,
        }
    }

    /// The name of a module.
    pub fn scope_name(&self, id: ObjId) -> (r: Option<String>)
        ensures
            opt_str(r) == self@.scope(id).name,
    {
        match self.object(id) {
            Some(Object::Scope(s)) => match &s.name {
                Some(name) => Some(name.clone()),
                None => None,
            },
            _ => None,
        }
    }

    /// The file a module was read from.
    pub fn scope_path(&self, id: ObjId) -> (r: Option<String>)
        ensures
            opt_str(r) == self@.scope(id).path,
    {
        match self.object(id) {
            Some(Object::Scope(s)) => match &s.path {
                Some(path) => Some(path.clone()),
                None => None,
            },
            _ => None,
        }
    }

    /// A variable's value, binding and type.
    pub fn var(&self, id: ObjId, name: &str) -> (r: Option<
        (Option<Value>, Bind, Option<Rc<TypeExpr>>),
    >)
        ensures
            match r {
                Some((value, bind, ty)) => var_of(self@, id, name@) == Some(
                    VarV { name: name@, value, bind, ty: opt_ty(ty) },
                ),
                None => var_of(self@, id, name@) is None,
            },
    {
        match self.object(id) {
            Some(Object::Scope(s)) => match var_index(&s.vars, name) {
                Some(i) => {
                    proof {
                        lemma_var_place(vars_v(s.vars@), name@, 0);
                    }
                    Some(
                        (
                            s.vars[i].value,
                            s.vars[i].bind,
                            match &s.vars[i].ty {
                                Some(ty) => Some(Rc::clone(ty)),
                                None => None,
                            },
                        ),
                    )
                },
                None => None,
            },
            _ => None,
        }
    }

    /// The scope that declares a name.
    pub fn holder(&self, env: ObjId, name: &str) -> (r: Option<ObjId>)
        ensures
            r == holder(self@, env, name@, self@.cells.len()),
    {
        let mut n: usize = self.cells.len();
        let mut at: ObjId = env;
        while n > 0
            invariant
                holder(self@, env, name@, self@.cells.len()) == holder(self@, at, name@, n as nat),
            decreases n,
        {
            let here = match self.object(at) {
                Some(Object::Scope(s)) => var_index(&s.vars, name).is_some(),
                _ => false,
            };
            if here {
                return Some(at);
            }
            match self.scope_parent(at) {
                Some(parent) => {
                    at = parent;
                },
                None => {
                    return None;
                },
            }
            n -= 1;
        }
        None
    }

    /// The module a scope belongs to.
    pub fn module_of(&self, env: ObjId) -> (r: ObjId)
        ensures
            r == module_of(self@, env),
    {
        let mut n: usize = self.cells.len();
        let mut at: ObjId = env;
        while n > 0
            invariant
                module_of(self@, env) == outermost(self@, at, n as nat),
            decreases n,
        {
            match self.scope_parent(at) {
                Some(parent) => {
                    at = parent;
                },
                None => {
                    return at;
                },
            }
            n -= 1;
        }
        at
    }

    /// Declares a name in a scope.
    pub fn declare(
        &mut self,
        id: ObjId,
        name: &str,
        value: Value,
        bind: Bind,
        ty: Option<Rc<TypeExpr>>,
    )
        ensures
            final(self)@ == declared(old(self)@, id, name@, value, bind, opt_ty(ty)),
    {
        let ghost before = self@;
        let ghost model = opt_ty(ty);
        if id < self.cells.len() {
            match &mut self.cells[id] {
                Some(cell) => match &mut cell.object {
                    Object::Scope(s) => {
                        let ghost vars = vars_v(s.vars@);
                        let ghost new = VarV { name: name@, value: Some(value), bind, ty: model };
                        let var = Var { name: name.to_owned(), value: Some(value), bind, ty };
                        match var_index(&s.vars, name) {
                            Some(i) => {
                                s.vars[i] = var;
                                assert(vars_v(s.vars@) =~= vars.update(i as int, new));
                            },
                            None => {
                                s.vars.push(var);
                                assert(vars_v(s.vars@) =~= vars.push(new));
                            },
                        }
                    },
                    _ => {},
                },
                None => {},
            }
        }
        assert(self@.cells =~= declared(before, id, name@, value, bind, model).cells);
    }

    /// Gives a declared name another value.
    pub fn assign(&mut self, id: ObjId, name: &str, value: Value)
        ensures
            final(self)@ == assigned(old(self)@, id, name@, value),
    {
        let ghost before = self@;
        if id < self.cells.len() {
            match &mut self.cells[id] {
                Some(cell) => match &mut cell.object {
                    Object::Scope(s) => {
                        let ghost vars = vars_v(s.vars@);
                        match var_index(&s.vars, name) {
                            Some(i) => {
                                s.vars[i].value = Some(value);
                                assert(vars_v(s.vars@) =~= vars.update(
                                    i as int,
                                    VarV { value: Some(value), ..vars[i as int] },
                                ));
                            },
                            None => {},
                        }
                    },
                    _ => {},
                },
                None => {},
            }
        }
        assert(self@.cells =~= assigned(before, id, name@, value).cells);
    }
}

/// A place that is found holds the name.
pub proof fn lemma_var_place(s: Seq<VarV>, name: Seq<char>, from: int)
    ensures
        match var_place(s, name, from) {
            Some(i) => from <= i < s.len() && s[i].name == name,
            None => true,
        },
    decreases s.len() - from,
{
    if 0 <= from < s.len() && s[from].name != name {
        lemma_var_place(s, name, from + 1);
    }
}

/// A name just declared is found in that scope, with the value it was given.
pub proof fn law_a_declared_name_is_found(
    h: HeapV,
    id: ObjId,
    name: Seq<char>,
    value: Value,
    bind: Bind,
    ty: Option<TypeExprV>,
)
    requires
        h.obj(id) is Some,
        h.obj(id)->0 is Scope,
    ensures
        var_of(declared(h, id, name, value, bind, ty), id, name) == Some(
            VarV { name, value: Some(value), bind, ty },
        ),
{
    let vars = h.scope(id).vars;
    let new = VarV { name, value: Some(value), bind, ty };
    lemma_var_place(vars, name, 0);
    match var_place(vars, name, 0) {
        Some(i) => {
            lemma_place_stays(vars, vars.update(i, new), name, 0);
        },
        None => {
            lemma_place_pushed(vars, new, 0);
        },
    }
}

proof fn lemma_place_stays(s: Seq<VarV>, t: Seq<VarV>, name: Seq<char>, from: int)
    requires
        s.len() == t.len(),
        forall|i: int| 0 <= i < s.len() ==> (#[trigger] s[i]).name == t[i].name,
    ensures
        var_place(s, name, from) == var_place(t, name, from),
    decreases s.len() - from,
{
    if 0 <= from < s.len() {
        lemma_place_stays(s, t, name, from + 1);
    }
}

proof fn lemma_place_pushed(s: Seq<VarV>, v: VarV, from: int)
    requires
        0 <= from <= s.len(),
        var_place(s, v.name, from) is None,
    ensures
        var_place(s.push(v), v.name, from) == Some(s.len() as int),
    decreases s.len() - from,
{
    if from < s.len() {
        lemma_place_pushed(s, v, from + 1);
    }
}

/// Whether no two variables of a scope have one name.
pub open spec fn names_distinct(vars: Seq<VarV>) -> bool {
    forall|i: int, j: int| 0 <= i < j < vars.len() ==> (#[trigger] vars[i]).name != (#[trigger] vars[j]).name
}

proof fn lemma_place_none(s: Seq<VarV>, name: Seq<char>, from: int)
    requires
        0 <= from,
        var_place(s, name, from) is None,
    ensures
        forall|i: int| from <= i < s.len() ==> (#[trigger] s[i]).name != name,
    decreases s.len() - from,
{
    if from < s.len() {
        lemma_place_none(s, name, from + 1);
    }
}

proof fn lemma_place_of_another(s: Seq<VarV>, v: VarV, name: Seq<char>, from: int)
    requires
        0 <= from,
        v.name != name,
    ensures
        var_place(s.push(v), name, from) == var_place(s, name, from),
    decreases s.len() - from,
{
    if from <= s.len() {
        if from < s.len() {
            lemma_place_of_another(s, v, name, from + 1);
        } else {
            assert(var_place(s.push(v), name, from + 1) is None);
        }
    }
}

/// Declaring a name leaves every other name of the scope, and every other scope, as it was.
pub proof fn law_declaring_a_name_leaves_the_others(
    h: HeapV,
    id: ObjId,
    name: Seq<char>,
    value: Value,
    bind: Bind,
    ty: Option<TypeExprV>,
    scope: ObjId,
    other: Seq<char>,
)
    requires
        scope != id || other != name,
    ensures
        var_of(declared(h, id, name, value, bind, ty), scope, other) == var_of(h, scope, other),
{
    if let Some(ObjV::Scope(s)) = h.obj(id) {
        if scope == id {
            let var = VarV { name, value: Some(value), bind, ty };
            lemma_var_place(s.vars, name, 0);
            lemma_var_place(s.vars, other, 0);
            match var_place(s.vars, name, 0) {
                Some(i) => {
                    lemma_place_stays(s.vars, s.vars.update(i, var), other, 0);
                },
                None => {
                    lemma_place_of_another(s.vars, var, other, 0);
                },
            }
        }
    }
}

/// Declaring a name keeps the names of a scope distinct.
pub proof fn law_declaring_a_name_keeps_names_distinct(
    h: HeapV,
    id: ObjId,
    name: Seq<char>,
    value: Value,
    bind: Bind,
    ty: Option<TypeExprV>,
    scope: ObjId,
)
    requires
        names_distinct(h.scope(scope).vars),
    ensures
        names_distinct(declared(h, id, name, value, bind, ty).scope(scope).vars),
{
    if let Some(ObjV::Scope(s)) = h.obj(id) {
        if scope == id {
            lemma_var_place(s.vars, name, 0);
            if var_place(s.vars, name, 0) is None {
                lemma_place_none(s.vars, name, 0);
            }
        }
    }
}

} // verus!
