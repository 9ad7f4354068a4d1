//! The objects the heap holds, and their models.

use crate::error::opt_str;
use crate::runtime::value::{handle_of, Builtin, ObjId, Value};
use crate::syntax::ast::{
    Bind, ClassDecl, ClassDeclV, FnDecl, FnDeclV, Openness, TypeExpr, TypeExprV,
};
use std::rc::Rc;
use vstd::prelude::*;

verus! {

/// A name in a scope. A name declared in a block is there from the block's start,
/// and has a value once its declaration has run.
pub struct Var {
    pub name: String,
    pub value: Option<Value>,
    pub bind: Bind,
    pub ty: Option<Rc<TypeExpr>>,
}

pub struct VarV {
    pub name: Seq<char>,
    pub value: Option<Value>,
    pub bind: Bind,
    pub ty: Option<TypeExprV>,
}

/// The model of a shared type that may be absent.
pub open spec fn opt_ty(ty: Option<Rc<TypeExpr>>) -> Option<TypeExprV> {
    match ty {
        Some(ty) => Some((*ty)@),
        None => None,
    }
}

impl View for Var {
    type V = VarV;

    open spec fn view(&self) -> VarV {
        VarV { name: self.name@, value: self.value, bind: self.bind, ty: opt_ty(self.ty) }
    }
}

pub open spec fn vars_v(s: Seq<Var>) -> Seq<VarV> {
    Seq::new(s.len(), |i: int| s[i]@)
}

/// A name with a value: a field or a method.
pub struct Named {
    pub name: String,
    pub value: Value,
}

pub struct NamedV {
    pub name: Seq<char>,
    pub value: Value,
}

impl View for Named {
    type V = NamedV;

    open spec fn view(&self) -> NamedV {
        NamedV { name: self.name@, value: self.value }
    }
}

pub open spec fn nameds_v(s: Seq<Named>) -> Seq<NamedV> {
    Seq::new(s.len(), |i: int| s[i]@)
}

/// Where a name first stands among named values.
pub open spec fn place(s: Seq<NamedV>, name: Seq<char>, from: int) -> Option<int>
    decreases s.len() - from,
{
    if from < 0 || from >= s.len() {
        None
    } else if s[from].name == name {
        Some(from)
    } else {
        place(s, name, from + 1)
    }
}

/// The value under a name.
pub open spec fn lookup(s: Seq<NamedV>, name: Seq<char>) -> Option<Value> {
    match place(s, name, 0) {
        Some(i) => Some(s[i].value),
        None => None,
    }
}

/// The named values with one of them set, at the end where it is new.
pub open spec fn put(s: Seq<NamedV>, name: Seq<char>, value: Value) -> Seq<NamedV> {
    match place(s, name, 0) {
        Some(i) => s.update(i, NamedV { name, value }),
        None => s.push(NamedV { name, value }),
    }
}

/// [`place`], computed.
pub fn place_of(s: &Vec<Named>, name: &str) -> (r: Option<usize>)
    ensures
        match r {
            Some(i) => place(nameds_v(s@), name@, 0) == Some(i as int) && i < s@.len(),
            None => place(nameds_v(s@), name@, 0) is None,
        },
{
    let mut i: usize = 0;
    while i < s.len()
        invariant
            i <= s@.len(),
            place(nameds_v(s@), name@, 0) == place(nameds_v(s@), name@, i as int),
        decreases s@.len() - i,
    {
        if crate::text::same(s[i].name.as_str(), name) {
            return Some(i);
        }
        i += 1;
    }
    None
}

/// [`lookup`], computed.
pub fn get_named(s: &Vec<Named>, name: &str) -> (r: Option<Value>)
    ensures
        r == lookup(nameds_v(s@), name@),
{
    match place_of(s, name) {
        Some(i) => Some(s[i].value),
        None => None,
    }
}

/// [`put`], computed.
pub fn put_named(s: &mut Vec<Named>, name: &str, value: Value)
    ensures
        nameds_v(final(s)@) == put(nameds_v(old(s)@), name@, value),
{
    let ghost before = nameds_v(s@);
    match place_of(s, name) {
        Some(i) => {
            s[i] = Named { name: name.to_owned(), value };
            assert(nameds_v(s@) =~= before.update(i as int, NamedV { name: name@, value }));
        },
        None => {
            s.push(Named { name: name.to_owned(), value });
            assert(nameds_v(s@) =~= before.push(NamedV { name: name@, value }));
        },
    }
}

/// A function: what was declared, and the scope it was declared in.
pub struct Function {
    pub decl: Rc<FnDecl>,
    pub env: ObjId,
    /// The class whose body declares it, for a method.
    pub owner: Option<ObjId>,
}

pub struct FunctionV {
    pub decl: FnDeclV,
    pub env: ObjId,
    pub owner: Option<ObjId>,
}

pub struct Class {
    pub name: String,
    pub methods: Vec<Named>,
    pub parent: Option<ObjId>,
    /// What each op does here, in slot order.
    pub slots: Vec<Option<Value>>,
    pub builtin: Option<Builtin>,
    pub openness: Openness,
    pub decl: Option<Rc<ClassDecl>>,
    /// The scope a field's initializer is evaluated in.
    pub env: ObjId,
}

pub struct ClassV {
    pub name: Seq<char>,
    pub methods: Seq<NamedV>,
    pub parent: Option<ObjId>,
    pub slots: Seq<Option<Value>>,
    pub builtin: Option<Builtin>,
    pub openness: Openness,
    pub decl: Option<ClassDeclV>,
    pub env: ObjId,
}

pub struct Instance {
    pub class: ObjId,
    pub fields: Vec<Named>,
    /// The value an instance of a class extending a builtin is.
    pub payload: Option<Value>,
}

pub struct InstanceV {
    pub class: ObjId,
    pub fields: Seq<NamedV>,
    pub payload: Option<Value>,
}

/// A scope: a block's names, or the top-level names of a module.
pub struct Scope {
    pub vars: Vec<Var>,
    pub parent: Option<ObjId>,
    /// What a module is called; absent for a block.
    pub name: Option<String>,
    pub path: Option<String>,
}

pub struct ScopeV {
    pub vars: Seq<VarV>,
    pub parent: Option<ObjId>,
    pub name: Option<Seq<char>>,
    pub path: Option<Seq<char>>,
}

/// An entry of a dict, in the order they were first inserted.
#[derive(Clone, Copy, PartialEq, Eq, Structural)]
pub struct Entry {
    pub key: Value,
    pub value: Value,
}

pub enum Object {
    Str(String),
    List(Vec<Value>),
    Tuple(Vec<Value>),
    Dict(Vec<Entry>),
    Function(Function),
    Overload(Vec<Value>),
    BoundMethod { receiver: Value, method: Value },
    Class(Class),
    Instance(Instance),
    Scope(Scope),
}

pub enum ObjV {
    Str(Seq<char>),
    List(Seq<Value>),
    Tuple(Seq<Value>),
    Dict(Seq<Entry>),
    Function(FunctionV),
    Overload(Seq<Value>),
    BoundMethod { receiver: Value, method: Value },
    Class(ClassV),
    Instance(InstanceV),
    Scope(ScopeV),
}

impl View for Function {
    type V = FunctionV;

    open spec fn view(&self) -> FunctionV {
        FunctionV { decl: (*self.decl)@, env: self.env, owner: self.owner }
    }
}

pub open spec fn opt_class_decl(decl: Option<Rc<ClassDecl>>) -> Option<ClassDeclV> {
    match decl {
        Some(decl) => Some((*decl)@),
        None => None,
    }
}

impl View for Class {
    type V = ClassV;

    open spec fn view(&self) -> ClassV {
        ClassV {
            name: self.name@,
            methods: nameds_v(self.methods@),
            parent: self.parent,
            slots: self.slots@,
            builtin: self.builtin,
            openness: self.openness,
            decl: opt_class_decl(self.decl),
            env: self.env,
        }
    }
}

impl View for Instance {
    type V = InstanceV;

    open spec fn view(&self) -> InstanceV {
        InstanceV { class: self.class, fields: nameds_v(self.fields@), payload: self.payload }
    }
}

impl View for Scope {
    type V = ScopeV;

    open spec fn view(&self) -> ScopeV {
        ScopeV {
            vars: vars_v(self.vars@),
            parent: self.parent,
            name: opt_str(self.name),
            path: opt_str(self.path),
        }
    }
}

impl View for Object {
    type V = ObjV;

    open spec fn view(&self) -> ObjV {
        match *self {
            Object::Str(s) => ObjV::Str(s@),
            Object::List(s) => ObjV::List(s@),
            Object::Tuple(s) => ObjV::Tuple(s@),
            Object::Dict(s) => ObjV::Dict(s@),
            Object::Function(x) => ObjV::Function(x@),
            Object::Overload(s) => ObjV::Overload(s@),
            Object::BoundMethod { receiver, method } => ObjV::BoundMethod { receiver, method },
            Object::Class(x) => ObjV::Class(x@),
            Object::Instance(x) => ObjV::Instance(x@),
            Object::Scope(x) => ObjV::Scope(x@),
        }
    }
}

/// An object with what the heap keeps beside it: whether it is frozen, and the type
/// it was checked against.
pub struct Cell {
    pub object: Object,
    pub frozen: bool,
    pub descriptor: Option<Rc<TypeExpr>>,
}

pub struct CellV {
    pub object: ObjV,
    pub frozen: bool,
    pub descriptor: Option<TypeExprV>,
}

impl View for Cell {
    type V = CellV;

    open spec fn view(&self) -> CellV {
        CellV { object: self.object@, frozen: self.frozen, descriptor: opt_ty(self.descriptor) }
    }
}

pub open spec fn opt_cell(c: Option<Cell>) -> Option<CellV> {
    match c {
        Some(c) => Some(c@),
        None => None,
    }
}

pub open spec fn cells_v(s: Seq<Option<Cell>>) -> Seq<Option<CellV>> {
    Seq::new(s.len(), |i: int| opt_cell(s[i]))
}

// -- what an object refers to --------------------------------------------------------

/// The handles among values.
pub open spec fn handles(s: Seq<Value>) -> Seq<ObjId>
    decreases s.len(),
{
    if s.len() == 0 {
        Seq::empty()
    } else {
        handles(s.drop_last()) + opt_handle(s.last())
    }
}

pub open spec fn opt_handle(v: Value) -> Seq<ObjId> {
    match handle_of(v) {
        Some(id) => seq![id],
        None => Seq::empty(),
    }
}

pub open spec fn opt_id(id: Option<ObjId>) -> Seq<ObjId> {
    match id {
        Some(id) => seq![id],
        None => Seq::empty(),
    }
}

/// The values of named values.
pub open spec fn values_of(s: Seq<NamedV>) -> Seq<Value> {
    Seq::new(s.len(), |i: int| s[i].value)
}

/// Keys and values of a dict, one after the other.
pub open spec fn flat(s: Seq<Entry>) -> Seq<Value> {
    Seq::new(
        2 * s.len(),
        |i: int|
            if i % 2 == 0 {
                s[i / 2].key
            } else {
                s[i / 2].value
            },
    )
}

/// What fills an optional value in, for walking.
pub open spec fn or_nil(v: Option<Value>) -> Value {
    match v {
        Some(v) => v,
        None => Value::Nil,
    }
}

/// The values a scope holds.
pub open spec fn scope_values(s: Seq<VarV>) -> Seq<Value> {
    Seq::new(s.len(), |i: int| or_nil(s[i].value))
}

/// The values in a class's slots.
pub open spec fn slot_values(s: Seq<Option<Value>>) -> Seq<Value> {
    Seq::new(s.len(), |i: int| or_nil(s[i]))
}

/// Everything an object keeps alive.
pub open spec fn edges(o: ObjV) -> Seq<ObjId> {
    match o {
        ObjV::Str(_) => Seq::empty(),
        ObjV::List(s) => handles(s),
        ObjV::Tuple(s) => handles(s),
        ObjV::Dict(s) => handles(flat(s)),
        ObjV::Function(f) => seq![f.env] + opt_id(f.owner),
        ObjV::Overload(s) => handles(s),
        ObjV::BoundMethod { receiver, method } => handles(seq![receiver, method]),
        ObjV::Class(c) => handles(values_of(c.methods)) + handles(slot_values(c.slots)) + opt_id(
            c.parent,
        ) + seq![c.env],
        ObjV::Instance(x) => handles(values_of(x.fields)) + handles(seq![or_nil(x.payload)])
            + seq![x.class],
        ObjV::Scope(s) => handles(scope_values(s.vars)) + opt_id(s.parent),
    }
}

/// What an object holds, for freezing: its contents, and not what it is made by.
pub open spec fn contents(o: ObjV) -> Seq<ObjId> {
    match o {
        ObjV::List(s) => handles(s),
        ObjV::Tuple(s) => handles(s),
        ObjV::Dict(s) => handles(flat(s)),
        ObjV::Instance(x) => handles(values_of(x.fields)) + handles(seq![or_nil(x.payload)]),
        _ => Seq::empty(),
    }
}

fn push_handle(out: &mut Vec<ObjId>, v: Value)
    ensures
        final(out)@ == old(out)@ + opt_handle(v),
{
    let ghost before = out@;
    match v.handle() {
        Some(id) => {
            out.push(id);
            assert(out@ =~= before + seq![id]);
        },
        None => {
            assert(out@ =~= before + Seq::<ObjId>::empty());
        },
    }
}

proof fn lemma_handles_push(s: Seq<Value>, v: Value)
    ensures
        handles(s.push(v)) == handles(s) + opt_handle(v),
{
    assert(s.push(v).drop_last() =~= s);
}

pub(crate) fn push_handles(out: &mut Vec<ObjId>, s: &Vec<Value>)
    ensures
        final(out)@ == old(out)@ + handles(s@),
{
    let ghost before = out@;
    let mut i: usize = 0;
    assert(out@ =~= before + handles(s@.take(0)));
    while i < s.len()
        invariant
            i <= s@.len(),
            out@ == before + handles(s@.take(i as int)),
        decreases s@.len() - i,
    {
        push_handle(out, s[i]);
        proof {
            lemma_handles_push(s@.take(i as int), s@[i as int]);
            assert(s@.take(i as int).push(s@[i as int]) =~= s@.take(i + 1));
            assert(out@ =~= before + handles(s@.take(i + 1)));
        }
        i += 1;
    }
    assert(s@.take(i as int) =~= s@);
}

fn named_values(s: &Vec<Named>) -> (r: Vec<Value>)
    ensures
        r@ == values_of(nameds_v(s@)),
{
    let mut r: Vec<Value> = Vec::new();
    let mut i: usize = 0;
    while i < s.len()
        invariant
            i <= s@.len(),
            r@ == values_of(nameds_v(s@)).take(i as int),
        decreases s@.len() - i,
    {
        r.push(s[i].value);
        assert(r@ =~= values_of(nameds_v(s@)).take(i + 1));
        i += 1;
    }
    assert(r@ =~= values_of(nameds_v(s@)));
    r
}

fn flattened(s: &Vec<Entry>) -> (r: Vec<Value>)
    ensures
        r@ == flat(s@),
{
    let mut r: Vec<Value> = Vec::new();
    let mut i: usize = 0;
    while i < s.len()
        invariant
            i <= s@.len(),
            r@ == flat(s@).take(2 * i as int),
        decreases s@.len() - i,
    {
        r.push(s[i].key);
        r.push(s[i].value);
        assert(r@ =~= flat(s@).take(2 * (i + 1)));
        i += 1;
    }
    assert(r@ =~= flat(s@));
    r
}

fn held(v: Option<Value>) -> (r: Value)
    ensures
        r == or_nil(v),
{
    match v {
        Some(v) => v,
        None => Value::Nil,
    }
}

fn slots_held(s: &Vec<Option<Value>>) -> (r: Vec<Value>)
    ensures
        r@ == slot_values(s@),
{
    let mut r: Vec<Value> = Vec::new();
    let mut i: usize = 0;
    while i < s.len()
        invariant
            i <= s@.len(),
            r@ == slot_values(s@).take(i as int),
        decreases s@.len() - i,
    {
        r.push(held(s[i]));
        assert(r@ =~= slot_values(s@).take(i + 1));
        i += 1;
    }
    assert(r@ =~= slot_values(s@));
    r
}

fn vars_held(s: &Vec<Var>) -> (r: Vec<Value>)
    ensures
        r@ == scope_values(vars_v(s@)),
{
    let mut r: Vec<Value> = Vec::new();
    let mut i: usize = 0;
    while i < s.len()
        invariant
            i <= s@.len(),
            r@ == scope_values(vars_v(s@)).take(i as int),
        decreases s@.len() - i,
    {
        r.push(held(s[i].value));
        assert(r@ =~= scope_values(vars_v(s@)).take(i + 1));
        i += 1;
    }
    assert(r@ =~= scope_values(vars_v(s@)));
    r
}

fn push_id(out: &mut Vec<ObjId>, id: Option<ObjId>)
    ensures
        final(out)@ == old(out)@ + opt_id(id),
{
    let ghost before = out@;
    match id {
        Some(id) => {
            out.push(id);
            assert(out@ =~= before + seq![id]);
        },
        None => {
            assert(out@ =~= before + Seq::<ObjId>::empty());
        },
    }
}

proof fn lemma_handles_two(a: Value, b: Value)
    ensures
        handles(seq![a, b]) == opt_handle(a) + opt_handle(b),
        handles(seq![a]) == opt_handle(a),
{
    reveal_with_fuel(handles, 3);
    assert(seq![a, b].drop_last() =~= seq![a]);
    assert(seq![a].drop_last() =~= Seq::<Value>::empty());
    assert(Seq::<ObjId>::empty() + opt_handle(a) =~= opt_handle(a));
}

impl Object {
    /// [`edges`], computed.
    pub fn referred(&self) -> (r: Vec<ObjId>)
        ensures
            r@ == edges(self@),
    {
        let mut out: Vec<ObjId> = Vec::new();
        match self {
            Object::Str(_) => {},
            Object::List(s) => {
                push_handles(&mut out, s);
            },
            Object::Tuple(s) => {
                push_handles(&mut out, s);
            },
            Object::Dict(s) => {
                let all = flattened(s);
                push_handles(&mut out, &all);
            },
            Object::Function(f) => {
                out.push(f.env);
                push_id(&mut out, f.owner);
            },
            Object::Overload(s) => {
                push_handles(&mut out, s);
            },
            Object::BoundMethod { receiver, method } => {
                push_handle(&mut out, *receiver);
                push_handle(&mut out, *method);
                proof {
                    lemma_handles_two(*receiver, *method);
                }
            },
            Object::Class(c) => {
                let methods = named_values(&c.methods);
                push_handles(&mut out, &methods);
                let slots = slots_held(&c.slots);
                push_handles(&mut out, &slots);
                push_id(&mut out, c.parent);
                push_id(&mut out, Some(c.env));
            },
            Object::Instance(x) => {
                let fields = named_values(&x.fields);
                push_handles(&mut out, &fields);
                push_handle(&mut out, held(x.payload));
                push_id(&mut out, Some(x.class));
                proof {
                    lemma_handles_two(or_nil(x.payload), Value::Nil);
                }
            },
            Object::Scope(s) => {
                let vars = vars_held(&s.vars);
                push_handles(&mut out, &vars);
                push_id(&mut out, s.parent);
            },
        }
        assert(out@ =~= edges(self@));
        out
    }

    /// [`contents`], computed.
    pub fn contained(&self) -> (r: Vec<ObjId>)
        ensures
            r@ == contents(self@),
    {
        let mut out: Vec<ObjId> = Vec::new();
        match self {
            Object::List(s) => {
                push_handles(&mut out, s);
            },
            Object::Tuple(s) => {
                push_handles(&mut out, s);
            },
            Object::Dict(s) => {
                let all = flattened(s);
                push_handles(&mut out, &all);
            },
            Object::Instance(x) => {
                let fields = named_values(&x.fields);
                push_handles(&mut out, &fields);
                push_handle(&mut out, held(x.payload));
                proof {
                    lemma_handles_two(or_nil(x.payload), Value::Nil);
                }
            },
            _ => {},
        }
        assert(out@ =~= contents(self@));
        out
    }
}

/// Whether two objects are of one kind.
pub open spec fn same_kind(a: ObjV, b: ObjV) -> bool {
    match a {
        ObjV::Str(_) => b is Str,
        ObjV::List(_) => b is List,
        ObjV::Tuple(_) => b is Tuple,
        ObjV::Dict(_) => b is Dict,
        ObjV::Function(_) => b is Function,
        ObjV::Overload(_) => b is Overload,
        ObjV::BoundMethod { .. } => b is BoundMethod,
        ObjV::Class(_) => b is Class,
        ObjV::Instance(_) => b is Instance,
        ObjV::Scope(_) => b is Scope,
    }
}

impl Object {
    /// Whether another object is of the same kind.
    pub fn is_kind_of(&self, other: &Object) -> (r: bool)
        ensures
            r == same_kind(self@, other@),
    {
        match (self, other) {
            (Object::Str(_), Object::Str(_)) => true,
            (Object::List(_), Object::List(_)) => true,
            (Object::Tuple(_), Object::Tuple(_)) => true,
            (Object::Dict(_), Object::Dict(_)) => true,
            (Object::Function(_), Object::Function(_)) => true,
            (Object::Overload(_), Object::Overload(_)) => true,
            (Object::BoundMethod { .. }, Object::BoundMethod { .. }) => true,
            (Object::Class(_), Object::Class(_)) => true,
            (Object::Instance(_), Object::Instance(_)) => true,
            (Object::Scope(_), Object::Scope(_)) => true,
            _ => false,
        }
    }
}

} // verus!
