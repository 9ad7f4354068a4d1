//! The heap: objects behind handles, and the collector that reclaims them.
//!
//! Reading through a handle that holds no object of the kind asked for gives the
//! empty one of that kind, so that every reader is total.

use crate::runtime::object::{
    cells_v, contents, edges, get_named, lookup, opt_cell, opt_class_decl, opt_handle, opt_ty, put,
    put_named, same_kind, Cell, CellV, ClassV, Entry, FunctionV, InstanceV, ObjV, Object, ScopeV,
};
use crate::runtime::value::{Builtin, ObjId, Value};
use crate::syntax::ast::{ClassDecl, FnDecl, Op, Openness, TypeExpr, TypeExprV};
use std::rc::Rc;
use vstd::prelude::*;

verus! {

/// The fewest objects a collection is worth running for.
pub const FLOOR: usize = 256;

/// Every object of a program.
pub struct Heap {
    pub cells: Vec<Option<Cell>>,
    pub free: Vec<ObjId>,
    /// How many objects there have to be before the next collection.
    pub threshold: usize,
    /// How many collections have run.
    pub collections: usize,
    /// The class of each builtin type, in their order.
    pub builtins: Vec<ObjId>,
}

#[verifier::ext_equal]
pub struct HeapV {
    pub cells: Seq<Option<CellV>>,
    pub free: Seq<ObjId>,
    pub threshold: usize,
    pub collections: usize,
    pub builtins: Seq<ObjId>,
}

impl View for Heap {
    type V = HeapV;

    open spec fn view(&self) -> HeapV {
        HeapV {
            cells: cells_v(self.cells@),
            free: self.free@,
            threshold: self.threshold,
            collections: self.collections,
            builtins: self.builtins@,
        }
    }
}

pub open spec fn no_class() -> ClassV {
    ClassV {
        name: Seq::empty(),
        methods: Seq::empty(),
        parent: None,
        slots: Seq::empty(),
        builtin: None,
        openness: Openness::Open,
        decl: None,
        env: 0,
    }
}

pub open spec fn no_instance() -> InstanceV {
    InstanceV { class: 0, fields: Seq::empty(), payload: None }
}

pub open spec fn no_scope() -> ScopeV {
    ScopeV { vars: Seq::empty(), parent: None, name: None, path: None }
}

impl HeapV {
    pub open spec fn cell(self, id: ObjId) -> Option<CellV> {
        if id < self.cells.len() {
            self.cells[id as int]
        } else {
            None
        }
    }

    pub open spec fn obj(self, id: ObjId) -> Option<ObjV> {
        match self.cell(id) {
            Some(c) => Some(c.object),
            None => None,
        }
    }

    pub open spec fn text(self, id: ObjId) -> Seq<char> {
        match self.obj(id) {
            Some(ObjV::Str(s)) => s,
            _ => Seq::empty(),
        }
    }

    pub open spec fn list(self, id: ObjId) -> Seq<Value> {
        match self.obj(id) {
            Some(ObjV::List(s)) => s,
            _ => Seq::empty(),
        }
    }

    pub open spec fn tuple(self, id: ObjId) -> Seq<Value> {
        match self.obj(id) {
            Some(ObjV::Tuple(s)) => s,
            _ => Seq::empty(),
        }
    }

    pub open spec fn dict(self, id: ObjId) -> Seq<Entry> {
        match self.obj(id) {
            Some(ObjV::Dict(s)) => s,
            _ => Seq::empty(),
        }
    }

    pub open spec fn function(self, id: ObjId) -> Option<FunctionV> {
        match self.obj(id) {
            Some(ObjV::Function(f)) => Some(f),
            _ => None,
        }
    }

    pub open spec fn overload(self, id: ObjId) -> Seq<Value> {
        match self.obj(id) {
            Some(ObjV::Overload(s)) => s,
            _ => Seq::empty(),
        }
    }

    pub open spec fn bound(self, id: ObjId) -> (Value, Value) {
        match self.obj(id) {
            Some(ObjV::BoundMethod { receiver, method }) => (receiver, method),
            _ => (Value::Nil, Value::Nil),
        }
    }

    pub open spec fn class(self, id: ObjId) -> ClassV {
        match self.obj(id) {
            Some(ObjV::Class(c)) => c,
            _ => no_class(),
        }
    }

    pub open spec fn instance(self, id: ObjId) -> InstanceV {
        match self.obj(id) {
            Some(ObjV::Instance(x)) => x,
            _ => no_instance(),
        }
    }

    pub open spec fn scope(self, id: ObjId) -> ScopeV {
        match self.obj(id) {
            Some(ObjV::Scope(s)) => s,
            _ => no_scope(),
        }
    }

    pub open spec fn frozen(self, id: ObjId) -> bool {
        match self.cell(id) {
            Some(c) => c.frozen,
            None => false,
        }
    }

    pub open spec fn descriptor(self, id: ObjId) -> Option<TypeExprV> {
        match self.cell(id) {
            Some(c) => c.descriptor,
            None => None,
        }
    }

    /// How many objects there are.
    pub open spec fn live(self) -> int {
        if self.free.len() <= self.cells.len() {
            self.cells.len() - self.free.len()
        } else {
            0
        }
    }

    pub open spec fn builtin_class(self, builtin: Builtin) -> ObjId {
        if builtin.position() < self.builtins.len() {
            self.builtins[builtin.position()]
        } else {
            0
        }
    }

    /// The op a class answers for, declared or inherited.
    pub open spec fn class_slot(self, id: ObjId, op: Op) -> Option<Value> {
        let slots = self.class(id).slots;
        if op.position() < slots.len() {
            slots[op.position()]
        } else {
            None
        }
    }

    /// The heap with the object behind a live handle replaced by another of its kind. What is
    /// not there stays away, and no object changes its kind.
    pub open spec fn with_object(self, id: ObjId, object: ObjV) -> HeapV {
        match self.cell(id) {
            Some(c) => if same_kind(c.object, object) {
                HeapV { cells: self.cells.update(id as int, Some(CellV { object, ..c })), ..self }
            } else {
                self
            },
            None => self,
        }
    }

    /// The heap with an object described by a type. What was described stays as it was.
    pub open spec fn described(self, id: ObjId, ty: TypeExprV) -> HeapV {
        match self.cell(id) {
            Some(c) => if c.descriptor is Some {
                self
            } else {
                HeapV {
                    cells: self.cells.update(
                        id as int,
                        Some(CellV { descriptor: Some(ty), ..c }),
                    ),
                    ..self
                }
            },
            None => self,
        }
    }

    /// Where the next object goes.
    pub open spec fn next_id(self) -> ObjId {
        if self.free.len() > 0 && self.free.last() < self.cells.len() {
            self.free.last()
        } else {
            self.cells.len() as usize
        }
    }

    /// Whether the places it means to give out next are places it has that hold nothing, each
    /// once.
    pub open spec fn tidy(self) -> bool {
        &&& self.free.no_duplicates()
        &&& forall|i: int|
            0 <= i < self.free.len() ==> #[trigger] self.free[i] < self.cells.len()
                && self.cells[self.free[i] as int] is None
    }

    /// The heap with one more object.
    pub open spec fn with_new(self, object: ObjV) -> HeapV {
        let cell = Some(CellV { object, frozen: false, descriptor: None });
        if self.free.len() > 0 && self.free.last() < self.cells.len() {
            HeapV {
                cells: self.cells.update(self.free.last() as int, cell),
                free: self.free.drop_last(),
                ..self
            }
        } else {
            HeapV { cells: self.cells.push(cell), ..self }
        }
    }
}

// -- reachability --------------------------------------------------------------------

/// What may be followed from an object.
#[derive(Clone, Copy, PartialEq, Eq, Structural)]
pub enum Follow {
    /// Everything it keeps alive.
    All,
    /// Only what it holds.
    Contents,
}

pub open spec fn followed(o: ObjV, follow: Follow) -> Seq<ObjId> {
    match follow {
        Follow::All => edges(o),
        Follow::Contents => contents(o),
    }
}

pub open spec fn live_at(cells: Seq<Option<CellV>>, id: ObjId) -> bool {
    id < cells.len() && cells[id as int] is Some
}

/// Whether one object leads straight to another.
pub open spec fn leads(cells: Seq<Option<CellV>>, follow: Follow, a: ObjId, b: ObjId) -> bool {
    &&& live_at(cells, a)
    &&& live_at(cells, b)
    &&& followed(cells[a as int]->0.object, follow).contains(b)
}

/// Whether a path starts at a root, and each object on it leads to the next.
pub open spec fn is_path(
    cells: Seq<Option<CellV>>,
    follow: Follow,
    roots: Seq<ObjId>,
    path: Seq<ObjId>,
) -> bool {
    &&& path.len() > 0
    &&& roots.contains(path[0])
    &&& live_at(cells, path[0])
    &&& forall|i: int|
        0 <= i < path.len() - 1 ==> leads(cells, follow, #[trigger] path[i], path[i + 1])
}

/// Whether a handle can be reached from the roots.
pub open spec fn reachable(
    cells: Seq<Option<CellV>>,
    follow: Follow,
    roots: Seq<ObjId>,
    id: ObjId,
) -> bool {
    exists|path: Seq<ObjId>| #[trigger]
        is_path(cells, follow, roots, path) && path.last() == id
}

/// What is a root, and there, is reachable.
pub proof fn lemma_root_is_reachable(
    cells: Seq<Option<CellV>>,
    follow: Follow,
    roots: Seq<ObjId>,
    id: ObjId,
)
    requires
        roots.contains(id),
        live_at(cells, id),
    ensures
        reachable(cells, follow, roots, id),
{
    let path = seq![id];
    assert(is_path(cells, follow, roots, path));
    assert(path.last() == id);
}

proof fn lemma_step_reachable(
    cells: Seq<Option<CellV>>,
    follow: Follow,
    roots: Seq<ObjId>,
    a: ObjId,
    b: ObjId,
)
    requires
        reachable(cells, follow, roots, a),
        leads(cells, follow, a, b),
    ensures
        reachable(cells, follow, roots, b),
{
    let path = choose|path: Seq<ObjId>| #[trigger]
        is_path(cells, follow, roots, path) && path.last() == a;
    let longer = path.push(b);
    assert forall|i: int| 0 <= i < longer.len() - 1 implies leads(
        cells,
        follow,
        #[trigger] longer[i],
        longer[i + 1],
    ) by {
        if i < path.len() - 1 {
            assert(leads(cells, follow, path[i], path[i + 1]));
        }
    }
    assert(is_path(cells, follow, roots, longer));
    assert(longer.last() == b);
}

/// A set that holds the live roots and everything its members lead to holds everything
/// reachable.
proof fn lemma_closed_holds_reachable(
    cells: Seq<Option<CellV>>,
    follow: Follow,
    roots: Seq<ObjId>,
    marked: Seq<bool>,
    path: Seq<ObjId>,
)
    requires
        marked.len() == cells.len(),
        is_path(cells, follow, roots, path),
        forall|r: ObjId|
            #[trigger] roots.contains(r) && live_at(cells, r) ==> marked[r as int],
        forall|a: ObjId, b: ObjId|
            #[trigger] leads(cells, follow, a, b) && marked[a as int] ==> marked[b as int],
    ensures
        marked[path.last() as int],
    decreases path.len(),
{
    if path.len() > 1 {
        let shorter = path.drop_last();
        assert forall|i: int| 0 <= i < shorter.len() - 1 implies leads(
            cells,
            follow,
            #[trigger] shorter[i],
            shorter[i + 1],
        ) by {
            assert(leads(cells, follow, path[i], path[i + 1]));
        }
        lemma_closed_holds_reachable(cells, follow, roots, marked, shorter);
        assert(leads(cells, follow, path[path.len() - 2], path[path.len() - 1]));
    }
}

/// How many flags are not set.
spec fn unset(marked: Seq<bool>) -> nat
    decreases marked.len(),
{
    if marked.len() == 0 {
        0
    } else {
        unset(marked.drop_last()) + if marked.last() {
            0nat
        } else {
            1nat
        }
    }
}

proof fn lemma_unset(marked: Seq<bool>, i: int)
    requires
        0 <= i < marked.len(),
        !marked[i],
    ensures
        unset(marked.update(i, true)) < unset(marked),
    decreases marked.len(),
{
    let next = marked.update(i, true);
    if i == marked.len() - 1 {
        assert(next.drop_last() =~= marked.drop_last());
    } else {
        assert(next.drop_last() =~= marked.drop_last().update(i, true));
        lemma_unset(marked.drop_last(), i);
    }
}

// -- collecting and freezing ----------------------------------------------------------

/// The positions, below `n`, that hold no object.
pub open spec fn gaps(cells: Seq<Option<CellV>>, n: int) -> Seq<ObjId>
    decreases n,
{
    if n <= 0 || n > cells.len() {
        Seq::empty()
    } else if cells[n - 1] is None {
        gaps(cells, n - 1).push((n - 1) as usize)
    } else {
        gaps(cells, n - 1)
    }
}

/// The cells that are reachable, and gaps where the others were.
pub open spec fn kept(cells: Seq<Option<CellV>>, roots: Seq<ObjId>) -> Seq<Option<CellV>> {
    Seq::new(
        cells.len(),
        |i: int|
            if reachable(cells, Follow::All, roots, i as usize) {
                cells[i]
            } else {
                None
            },
    )
}

pub open spec fn next_threshold(live: int) -> usize {
    if live <= FLOOR / 2 {
        FLOOR
    } else if live <= usize::MAX / 2 {
        (2 * live) as usize
    } else {
        usize::MAX
    }
}

pub open spec fn counted(n: usize) -> usize {
    if n < usize::MAX {
        (n + 1) as usize
    } else {
        n
    }
}

/// The heap after a collection: what the roots reach, unchanged, and nothing else.
pub open spec fn collected(h: HeapV, roots: Seq<ObjId>) -> HeapV {
    let cells = kept(h.cells, roots);
    let free = gaps(cells, cells.len() as int);
    HeapV {
        cells,
        free,
        threshold: next_threshold(cells.len() - free.len()),
        collections: counted(h.collections),
        builtins: h.builtins,
    }
}

/// The heap with a value, and everything it holds, frozen.
pub open spec fn frozen_from(h: HeapV, roots: Seq<ObjId>) -> HeapV {
    HeapV {
        cells: Seq::new(
            h.cells.len(),
            |i: int|
                if reachable(h.cells, Follow::Contents, roots, i as usize) {
                    Some(CellV { frozen: true, ..h.cells[i]->0 })
                } else {
                    h.cells[i]
                },
        ),
        ..h
    }
}

impl Heap {
    pub fn new() -> (r: Heap)
        ensures
            r@ == (HeapV {
                cells: Seq::empty(),
                free: Seq::empty(),
                threshold: FLOOR,
                collections: 0,
                builtins: Seq::empty(),
            }),
    {
        let r = Heap {
            cells: Vec::new(),
            free: Vec::new(),
            threshold: FLOOR,
            collections: 0,
            builtins: Vec::new(),
        };
        assert(cells_v(r.cells@) =~= Seq::empty());
        r
    }

    /// Puts a new object on the heap.
    pub fn add_object(&mut self, object: Object) -> (id: ObjId)
        ensures
            id == old(self)@.next_id(),
            final(self)@ == old(self)@.with_new(object@),
    {
        let ghost before = self@;
        let ghost model = object@;
        let cell = Cell { object, frozen: false, descriptor: None };
        let free: usize = self.free.len();
        if free > 0 && self.free[free - 1] < self.cells.len() {
            let id: ObjId = self.free[free - 1];
            self.free.pop();
            self.cells[id] = Some(cell);
            assert(self@.cells =~= before.with_new(model).cells);
            assert(self@.free =~= before.with_new(model).free);
            id
        } else {
            let id: ObjId = self.cells.len();
            self.cells.push(Some(cell));
            assert(self@.cells =~= before.with_new(model).cells);
            id
        }
    }

    pub fn object(&self, id: ObjId) -> (r: Option<&Object>)
        ensures
            match r {
                Some(o) => self@.obj(id) == Some(o@),
                None => self@.obj(id) is None,
            },
    {
        if id < self.cells.len() {
            match &self.cells[id] {
                Some(cell) => Some(&cell.object),
                None => None,
            }
        } else {
            None
        }
    }

    /// Replaces the object behind a live handle.
    pub fn set_object(&mut self, id: ObjId, object: Object)
        ensures
            final(self)@ == old(self)@.with_object(id, object@),
    {
        let ghost before = self@;
        let ghost model = object@;
        if id < self.cells.len() {
            let cell = match &self.cells[id] {
                Some(cell) => {
                    if !cell.object.is_kind_of(&object) {
                        return ;
                    }
                    Some(
                        Cell {
                            object,
                            frozen: cell.frozen,
                            descriptor: match &cell.descriptor {
                                Some(ty) => Some(Rc::clone(ty)),
                                None => None,
                            },
                        },
                    )
                },
                None => None,
            };
            self.cells[id] = cell;
        }
        assert(self@.cells =~= before.with_object(id, model).cells);
    }

    pub fn push_item(&mut self, id: ObjId, value: Value)
        ensures
            final(self)@ == match old(self)@.obj(id) {
                Some(ObjV::List(s)) => old(self)@.with_object(id, ObjV::List(s.push(value))),
                _ => old(self)@,
            },
    {
        let ghost before = self@;
        if id < self.cells.len() {
            match &mut self.cells[id] {
                Some(cell) => match &mut cell.object {
                    Object::List(items) => {
                        items.push(value);
                    },
                    _ => {},
                },
                None => {},
            }
        }
        assert(self@.cells =~= match before.obj(id) {
            Some(ObjV::List(s)) => before.with_object(id, ObjV::List(s.push(value))),
            _ => before,
        }.cells);
    }
    /// Changes the item at a position of a list.
    pub fn set_item(&mut self, id: ObjId, i: usize, value: Value)
        ensures
            final(self)@ == match old(self)@.obj(id) {
                Some(ObjV::List(s)) => if i < s.len() {
                    old(self)@.with_object(id, ObjV::List(s.update(i as int, value)))
                } else {
                    old(self)@
                },
                _ => old(self)@,
            },
    {
        let ghost before = self@;
        if id < self.cells.len() {
            match &mut self.cells[id] {
                Some(cell) => match &mut cell.object {
                    Object::List(items) => {
                        if i < items.len() {
                            items[i] = value;
                        }
                    },
                    _ => {},
                },
                None => {},
            }
        }
        assert(self@.cells =~= match before.obj(id) {
            Some(ObjV::List(s)) => if i < s.len() {
                before.with_object(id, ObjV::List(s.update(i as int, value)))
            } else {
                before
            },
            _ => before,
        }.cells);
    }

    /// Sets a field of an instance.
    pub fn put_field(&mut self, id: ObjId, name: &str, value: Value)
        ensures
            final(self)@ == field_put(old(self)@, id, name@, value),
    {
        let ghost before = self@;
        if id < self.cells.len() {
            match &mut self.cells[id] {
                Some(cell) => match &mut cell.object {
                    Object::Instance(x) => {
                        put_named(&mut x.fields, name, value);
                    },
                    _ => {},
                },
                None => {},
            }
        }
        assert(self@.cells =~= field_put(before, id, name@, value).cells);
    }

    /// Gives an instance the value it is.
    pub fn put_payload(&mut self, id: ObjId, value: Value)
        ensures
            final(self)@ == payload_put(old(self)@, id, value),
    {
        let ghost before = self@;
        if id < self.cells.len() {
            match &mut self.cells[id] {
                Some(cell) => match &mut cell.object {
                    Object::Instance(x) => {
                        x.payload = Some(value);
                    },
                    _ => {},
                },
                None => {},
            }
        }
        assert(self@.cells =~= payload_put(before, id, value).cells);
    }

    /// Fills a slot of a class.
    pub fn put_slot(&mut self, id: ObjId, op: Op, value: Value)
        ensures
            final(self)@ == slot_put(old(self)@, id, op, value),
    {
        let ghost before = self@;
        if id < self.cells.len() {
            match &mut self.cells[id] {
                Some(cell) => match &mut cell.object {
                    Object::Class(c) => {
                        let i: usize = op.index();
                        if i < c.slots.len() {
                            c.slots[i] = Some(value);
                        }
                    },
                    _ => {},
                },
                None => {},
            }
        }
        assert(self@.cells =~= slot_put(before, id, op, value).cells);
    }

    pub fn frozen(&self, id: ObjId) -> (r: bool)
        ensures
            r == self@.frozen(id),
    {
        if id < self.cells.len() {
            match &self.cells[id] {
                Some(cell) => cell.frozen,
                None => false,
            }
        } else {
            false
        }
    }

    /// The type an object was checked against.
    pub fn descriptor(&self, id: ObjId) -> (r: Option<Rc<TypeExpr>>)
        ensures
            opt_ty(r) == self@.descriptor(id),
    {
        if id < self.cells.len() {
            match &self.cells[id] {
                Some(cell) => match &cell.descriptor {
                    Some(ty) => Some(Rc::clone(ty)),
                    None => None,
                },
                None => None,
            }
        } else {
            None
        }
    }

    /// Remembers the type an object was checked against.
    pub fn describe(&mut self, id: ObjId, ty: Rc<TypeExpr>)
        ensures
            final(self)@ == old(self)@.described(id, (*ty)@),
    {
        let ghost before = self@;
        let ghost model = (*ty)@;
        if id < self.cells.len() {
            match &mut self.cells[id] {
                Some(cell) => {
                    if cell.descriptor.is_none() {
                        cell.descriptor = Some(ty);
                    }
                },
                None => {},
            }
        }
        assert(self@.cells =~= before.described(id, model).cells);
    }

    pub fn text(&self, id: ObjId) -> (r: String)
        ensures
            r@ == self@.text(id),
    {
        match self.object(id) {
            Some(Object::Str(s)) => s.clone(),
            _ => {
                let none = String::new();
                assert(none@ =~= Seq::empty());
                none
            },
        }
    }

    pub fn list_len(&self, id: ObjId) -> (r: usize)
        ensures
            r == self@.list(id).len(),
    {
        match self.object(id) {
            Some(Object::List(s)) => s.len(),
            _ => 0,
        }
    }

    pub fn list_item(&self, id: ObjId, i: usize) -> (r: Option<Value>)
        ensures
            r == at_index(self@.list(id), i as int),
    {
        match self.object(id) {
            Some(Object::List(s)) => if i < s.len() {
                Some(s[i])
            } else {
                None
            },
            _ => None,
        }
    }

    /// A copy of a list's items.
    pub fn list(&self, id: ObjId) -> (r: Vec<Value>)
        ensures
            r@ == self@.list(id),
    {
        match self.object(id) {
            Some(Object::List(s)) => copy_values(s),
            _ => {
                let none: Vec<Value> = Vec::new();
                assert(none@ =~= Seq::empty());
                none
            },
        }
    }

    /// A copy of a tuple's items.
    pub fn tuple(&self, id: ObjId) -> (r: Vec<Value>)
        ensures
            r@ == self@.tuple(id),
    {
        match self.object(id) {
            Some(Object::Tuple(s)) => copy_values(s),
            _ => {
                let none: Vec<Value> = Vec::new();
                assert(none@ =~= Seq::empty());
                none
            },
        }
    }

    /// A copy of a dict's entries.
    pub fn dict(&self, id: ObjId) -> (r: Vec<Entry>)
        ensures
            r@ == self@.dict(id),
    {
        match self.object(id) {
            Some(Object::Dict(s)) => copy_entries(s),
            _ => {
                let none: Vec<Entry> = Vec::new();
                assert(none@ =~= Seq::empty());
                none
            },
        }
    }

    pub fn dict_len(&self, id: ObjId) -> (r: usize)
        ensures
            r == self@.dict(id).len(),
    {
        match self.object(id) {
            Some(Object::Dict(s)) => s.len(),
            _ => 0,
        }
    }

    /// A copy of an overload's candidates.
    pub fn overload(&self, id: ObjId) -> (r: Vec<Value>)
        ensures
            r@ == self@.overload(id),
    {
        match self.object(id) {
            Some(Object::Overload(s)) => copy_values(s),
            _ => {
                let none: Vec<Value> = Vec::new();
                assert(none@ =~= Seq::empty());
                none
            },
        }
    }

    pub fn bound(&self, id: ObjId) -> (r: (Value, Value))
        ensures
            r == self@.bound(id),
    {
        match self.object(id) {
            Some(Object::BoundMethod { receiver, method }) => (*receiver, *method),
            _ => (Value::Nil, Value::Nil),
        }
    }

    /// A function's declaration, scope and owner.
    pub fn function(&self, id: ObjId) -> (r: Option<(Rc<FnDecl>, ObjId, Option<ObjId>)>)
        ensures
            match r {
                Some((decl, env, owner)) => self@.function(id) == Some(
                    FunctionV { decl: (*decl)@, env, owner },
                ),
                None => self@.function(id) is None,
            },
    {
        match self.object(id) {
            Some(Object::Function(f)) => Some((Rc::clone(&f.decl), f.env, f.owner)),
            _ => None,
        }
    }

    pub fn class_name(&self, id: ObjId) -> (r: String)
        ensures
            r@ == self@.class(id).name,
    {
        match self.object(id) {
            Some(Object::Class(c)) => c.name.clone(),
            _ => {
                let none = String::new();
                assert(none@ =~= Seq::empty());
                none
            },
        }
    }

    pub fn class_parent(&self, id: ObjId) -> (r: Option<ObjId>)
        ensures
            r == self@.class(id).parent,
    {
        match self.object(id) {
            Some(Object::Class(c)) => c.parent,
            _ => None,
        }
    }

    pub fn class_builtin(&self, id: ObjId) -> (r: Option<Builtin>)
        ensures
            r == self@.class(id).builtin,
    {
        match self.object(id) {
            Some(Object::Class(c)) => c.builtin,
            _ => None,
        }
    }

    pub fn class_openness(&self, id: ObjId) -> (r: Openness)
        ensures
            r == self@.class(id).openness,
    {
        match self.object(id) {
            Some(Object::Class(c)) => c.openness,
            _ => Openness::Open,
        }
    }

    pub fn class_decl(&self, id: ObjId) -> (r: Option<Rc<ClassDecl>>)
        ensures
            opt_class_decl(r) == self@.class(id).decl,
    {
        match self.object(id) {
            Some(Object::Class(c)) => match &c.decl {
                Some(decl) => Some(Rc::clone(decl)),
                None => None,
            },
            _ => None,
        }
    }

    pub fn class_env(&self, id: ObjId) -> (r: ObjId)
        ensures
            r == self@.class(id).env,
    {
        match self.object(id) {
            Some(Object::Class(c)) => c.env,
            _ => 0,
        }
    }

    pub fn class_slot(&self, id: ObjId, op: Op) -> (r: Option<Value>)
        ensures
            r == self@.class_slot(id, op),
    {
        let i: usize = op.index();
        match self.object(id) {
            Some(Object::Class(c)) => if i < c.slots.len() {
                c.slots[i]
            } else {
                None
            },
            _ => None,
        }
    }

    /// A copy of a class's slots.
    pub fn class_slots(&self, id: ObjId) -> (r: Vec<Option<Value>>)
        ensures
            r@ == self@.class(id).slots,
    {
        let mut r: Vec<Option<Value>> = Vec::new();
        match self.object(id) {
            Some(Object::Class(c)) => {
                let mut i: usize = 0;
                while i < c.slots.len()
                    invariant
                        i <= c.slots@.len(),
                        r@ == c.slots@.take(i as int),
                    decreases c.slots@.len() - i,
                {
                    r.push(c.slots[i]);
                    assert(r@ =~= c.slots@.take(i + 1));
                    i += 1;
                }
                assert(r@ =~= c.slots@);
            },
            _ => {
                assert(r@ =~= Seq::empty());
            },
        }
        r
    }

    /// The method a class itself declares under a name.
    pub fn own_method(&self, id: ObjId, name: &str) -> (r: Option<Value>)
        ensures
            r == lookup(self@.class(id).methods, name@),
    {
        match self.object(id) {
            Some(Object::Class(c)) => get_named(&c.methods, name),
            _ => None,
        }
    }

    pub fn instance_class(&self, id: ObjId) -> (r: ObjId)
        ensures
            r == self@.instance(id).class,
    {
        match self.object(id) {
            Some(Object::Instance(x)) => x.class,
            _ => 0,
        }
    }

    pub fn payload(&self, id: ObjId) -> (r: Option<Value>)
        ensures
            r == self@.instance(id).payload,
    {
        match self.object(id) {
            Some(Object::Instance(x)) => x.payload,
            _ => None,
        }
    }

    pub fn field(&self, id: ObjId, name: &str) -> (r: Option<Value>)
        ensures
            r == lookup(self@.instance(id).fields, name@),
    {
        match self.object(id) {
            Some(Object::Instance(x)) => get_named(&x.fields, name),
            _ => None,
        }
    }

    pub fn live(&self) -> (r: usize)
        ensures
            r == self@.live(),
    {
        if self.free.len() <= self.cells.len() {
            self.cells.len() - self.free.len()
        } else {
            0
        }
    }

    pub fn should_collect(&self) -> (r: bool)
        ensures
            r == (self@.live() >= self@.threshold),
    {
        self.live() >= self.threshold
    }

    pub fn builtin_class(&self, builtin: Builtin) -> (r: ObjId)
        ensures
            r == self@.builtin_class(builtin),
    {
        let i: usize = builtin.index();
        if i < self.builtins.len() {
            self.builtins[i]
        } else {
            0
        }
    }

    fn follow(&self, id: ObjId, follow: Follow) -> (r: Vec<ObjId>)
        requires
            live_at(self@.cells, id),
        ensures
            r@ == followed(self@.cells[id as int]->0.object, follow),
    {
        match &self.cells[id] {
            Some(cell) => match follow {
                Follow::All => cell.object.referred(),
                Follow::Contents => cell.object.contained(),
            },
            None => Vec::new(),
        }
    }

    /// Which objects the roots reach.
    fn mark(&self, roots: &Vec<ObjId>, follow: Follow) -> (marked: Vec<bool>)
        ensures
            marked@.len() == self@.cells.len(),
            forall|i: ObjId|
                i < marked@.len() ==> #[trigger] marked@[i as int] == reachable(
                    self@.cells,
                    follow,
                    roots@,
                    i,
                ),
    {
        let ghost cells = self@.cells;
        let n: usize = self.cells.len();
        let mut marked: Vec<bool> = Vec::new();
        let mut k: usize = 0;
        while k < n
            invariant
                k <= n,
                marked@.len() == k,
                forall|i: int| 0 <= i < k ==> !marked@[i],
            decreases n - k,
        {
            marked.push(false);
            k += 1;
        }
        let mut work: Vec<ObjId> = Vec::new();
        let mut j: usize = 0;
        while j < roots.len()
            invariant
                j <= roots@.len(),
                work@ == roots@.take(j as int),
            decreases roots@.len() - j,
        {
            work.push(roots[j]);
            assert(work@ =~= roots@.take(j + 1));
            j += 1;
        }
        assert(work@ =~= roots@);
        proof {
            assert forall|i: int| 0 <= i < work@.len() && live_at(cells, work@[i]) implies reachable(
                cells,
                follow,
                roots@,
                #[trigger] work@[i],
            ) by {
                lemma_root_is_reachable(cells, follow, roots@, work@[i]);
            }
            assert forall|r: ObjId| #[trigger]
                roots@.contains(r) && live_at(cells, r) implies marked@[r as int]
                || work@.contains(r) by {}
        }
        while work.len() > 0
            invariant
                cells == self@.cells,
                n == cells.len(),
                n == self.cells@.len(),
                marked@.len() == n,
                forall|i: int|
                    0 <= i < work@.len() && live_at(cells, work@[i]) ==> reachable(
                        cells,
                        follow,
                        roots@,
                        #[trigger] work@[i],
                    ),
                forall|i: ObjId|
                    i < n && #[trigger] marked@[i as int] ==> live_at(cells, i) && reachable(
                        cells,
                        follow,
                        roots@,
                        i,
                    ),
                forall|r: ObjId| #[trigger]
                    roots@.contains(r) && live_at(cells, r) ==> marked@[r as int]
                        || work@.contains(r),
                forall|a: ObjId, b: ObjId| #[trigger]
                    leads(cells, follow, a, b) && marked@[a as int] ==> marked@[b as int]
                        || work@.contains(b),
            decreases unset(marked@), work@.len(),
        {
            let ghost before_work = work@;
            let ghost before = marked@;
            let id: ObjId = match work.pop() {
                Some(id) => id,
                None => 0,
            };
            assert(before_work.drop_last() =~= work@);
            assert(id == before_work.last());
            assert forall|b: ObjId| #[trigger] before_work.contains(b) implies b == id
                || work@.contains(b) by {
                let k = choose|k: int| 0 <= k < before_work.len() && before_work[k] == b;
                if k < before_work.len() - 1 {
                    assert(work@[k] == b);
                }
            }
            if id < n && self.cells[id].is_some() && !marked[id] {
                assert(live_at(cells, id));
                assert(before_work[before_work.len() - 1] == id);
                let next = self.follow(id, follow);
                proof {
                    lemma_unset(marked@, id as int);
                }
                marked[id] = true;
                let ghost popped = work@;
                let mut m: usize = 0;
                while m < next.len()
                    invariant
                        m <= next@.len(),
                        work@ == popped + next@.take(m as int),
                    decreases next@.len() - m,
                {
                    work.push(next[m]);
                    assert(work@ =~= popped + next@.take(m + 1));
                    m += 1;
                }
                assert(work@ =~= popped + next@);
                proof {
                    assert forall|i: int|
                        0 <= i < work@.len() && live_at(cells, work@[i]) implies reachable(
                        cells,
                        follow,
                        roots@,
                        #[trigger] work@[i],
                    ) by {
                        if i < popped.len() {
                            assert(before_work[i] == work@[i]);
                        } else {
                            assert(next@[i - popped.len()] == work@[i]);
                            assert(next@.contains(work@[i]));
                            assert(leads(cells, follow, id, work@[i]));
                            lemma_step_reachable(cells, follow, roots@, id, work@[i]);
                        }
                    }
                    assert forall|b: ObjId| popped.contains(b) implies #[trigger] work@.contains(b) by {
                        let k = choose|k: int| 0 <= k < popped.len() && popped[k] == b;
                        assert(work@[k] == b);
                    }
                    assert forall|a: ObjId, b: ObjId| #[trigger]
                        leads(cells, follow, a, b) && marked@[a as int] implies marked@[b as int]
                        || work@.contains(b) by {
                        if a == id {
                            let k = choose|k: int| 0 <= k < next@.len() && next@[k] == b;
                            assert(work@[popped.len() + k] == b);
                        } else {
                            assert(before[a as int]);
                            assert(before[b as int] || before_work.contains(b));
                        }
                    }
                }
            } else {
                proof {
                    assert forall|a: ObjId, b: ObjId| #[trigger]
                        leads(cells, follow, a, b) && marked@[a as int] implies marked@[b as int]
                        || work@.contains(b) by {
                        if before_work.contains(b) && b == id {
                            assert(live_at(cells, b));
                        }
                    }
                    assert forall|i: int|
                        0 <= i < work@.len() && live_at(cells, work@[i]) implies reachable(
                        cells,
                        follow,
                        roots@,
                        #[trigger] work@[i],
                    ) by {
                        assert(before_work[i] == work@[i]);
                    }
                }
            }
        }
        proof {
            assert forall|i: ObjId| i < marked@.len() implies #[trigger] marked@[i as int]
                == reachable(cells, follow, roots@, i) by {
                if reachable(cells, follow, roots@, i) {
                    let path = choose|path: Seq<ObjId>| #[trigger]
                        is_path(cells, follow, roots@, path) && path.last() == i;
                    lemma_closed_holds_reachable(cells, follow, roots@, marked@, path);
                }
            }
        }
        marked
    }

    /// Reclaims every object the roots do not reach.
    pub fn collect(&mut self, roots: &Vec<ObjId>)
        ensures
            final(self)@ == collected(old(self)@, roots@),
    {
        let ghost before = self@;
        let marked = self.mark(roots, Follow::All);
        let n: usize = self.cells.len();
        let mut free: Vec<ObjId> = Vec::new();
        let ghost goal = kept(before.cells, roots@);
        let mut i: usize = 0;
        while i < n
            invariant
                i <= n,
                n == self.cells@.len(),
                n == before.cells.len(),
                n == marked@.len(),
                goal == kept(before.cells, roots@),
                forall|k: ObjId|
                    k < marked@.len() ==> #[trigger] marked@[k as int] == reachable(
                        before.cells,
                        Follow::All,
                        roots@,
                        k,
                    ),
                forall|k: int| 0 <= k < i ==> opt_cell(#[trigger] self.cells@[k]) == goal[k],
                forall|k: int|
                    i <= k < n ==> opt_cell(#[trigger] self.cells@[k]) == before.cells[k],
                free@ == gaps(goal, i as int),
                self.builtins@ == before.builtins,
                self.collections == before.collections,
            decreases n - i,
        {
            assert(goal[i as int] == if marked@[i as int] {
                before.cells[i as int]
            } else {
                None
            });
            if !marked[i] {
                self.cells[i] = None;
            }
            if self.cells[i].is_none() {
                free.push(i);
            }
            i += 1;
        }
        assert(self@.cells =~= goal);
        proof {
            lemma_gaps_len(goal, n as int);
        }
        let live: usize = n - free.len();
        self.threshold = if live <= FLOOR / 2 {
            FLOOR
        } else if live <= usize::MAX / 2 {
            2 * live
        } else {
            usize::MAX
        };
        self.free = free;
        if self.collections < usize::MAX {
            self.collections = self.collections + 1;
        }
    }

    /// Freezes a value and everything it holds.
    pub fn freeze(&mut self, value: Value)
        ensures
            final(self)@ == frozen_by(old(self)@, value),
    {
        let ghost before = self@;
        let mut roots: Vec<ObjId> = Vec::new();
        match value.handle() {
            Some(id) => {
                roots.push(id);
            },
            None => {},
        }
        assert(roots@ =~= opt_handle(value));
        let marked = self.mark(&roots, Follow::Contents);
        let n: usize = self.cells.len();
        let ghost goal = frozen_from(before, roots@).cells;
        let mut i: usize = 0;
        while i < n
            invariant
                i <= n,
                n == self.cells@.len(),
                n == before.cells.len(),
                n == marked@.len(),
                goal == frozen_from(before, roots@).cells,
                forall|k: ObjId|
                    k < marked@.len() ==> #[trigger] marked@[k as int] == reachable(
                        before.cells,
                        Follow::Contents,
                        roots@,
                        k,
                    ),
                forall|k: int| 0 <= k < i ==> opt_cell(#[trigger] self.cells@[k]) == goal[k],
                forall|k: int|
                    i <= k < n ==> opt_cell(#[trigger] self.cells@[k]) == before.cells[k],
                self.builtins@ == before.builtins,
                self.collections == before.collections,
                self.threshold == before.threshold,
                self.free@ == before.free,
            decreases n - i,
        {
            proof {
                if marked@[i as int] {
                    lemma_reachable_live(before.cells, Follow::Contents, roots@, i);
                }
            }
            if marked[i] {
                match &mut self.cells[i] {
                    Some(cell) => {
                        cell.frozen = true;
                    },
                    None => {},
                }
            }
            i += 1;
        }
        assert(self@.cells =~= goal);
    }
}

/// The item at a position, where there is one.
pub open spec fn at_index<T>(s: Seq<T>, i: int) -> Option<T> {
    if 0 <= i < s.len() {
        Some(s[i])
    } else {
        None
    }
}

pub open spec fn field_put(h: HeapV, id: ObjId, name: Seq<char>, value: Value) -> HeapV {
    match h.obj(id) {
        Some(ObjV::Instance(x)) => h.with_object(
            id,
            ObjV::Instance(InstanceV { fields: put(x.fields, name, value), ..x }),
        ),
        _ => h,
    }
}

pub open spec fn payload_put(h: HeapV, id: ObjId, value: Value) -> HeapV {
    match h.obj(id) {
        Some(ObjV::Instance(x)) => h.with_object(
            id,
            ObjV::Instance(InstanceV { payload: Some(value), ..x }),
        ),
        _ => h,
    }
}

pub open spec fn slot_put(h: HeapV, id: ObjId, op: Op, value: Value) -> HeapV {
    match h.obj(id) {
        Some(ObjV::Class(c)) => if op.position() < c.slots.len() {
            h.with_object(
                id,
                ObjV::Class(ClassV { slots: c.slots.update(op.position(), Some(value)), ..c }),
            )
        } else {
            h
        },
        _ => h,
    }
}

/// The heap with a value frozen through and through.
pub open spec fn frozen_by(h: HeapV, value: Value) -> HeapV {
    frozen_from(h, opt_handle(value))
}

proof fn lemma_gaps_len(cells: Seq<Option<CellV>>, n: int)
    ensures
        gaps(cells, n).len() <= if n < 0 {
            0
        } else {
            n
        },
    decreases n,
{
    if 0 < n <= cells.len() {
        lemma_gaps_len(cells, n - 1);
    }
}

/// What is reachable is there.
pub proof fn lemma_reachable_live(
    cells: Seq<Option<CellV>>,
    follow: Follow,
    roots: Seq<ObjId>,
    id: ObjId,
)
    requires
        reachable(cells, follow, roots, id),
    ensures
        live_at(cells, id),
{
    let path = choose|path: Seq<ObjId>| #[trigger]
        is_path(cells, follow, roots, path) && path.last() == id;
    if path.len() > 1 {
        assert(leads(cells, follow, path[path.len() - 2], path[path.len() - 1]));
    }
}

/// A new object goes to a place that held nothing, is what that place then holds, and moves
/// nothing: every other place holds what it did.
pub proof fn law_a_new_object_moves_nothing(h: HeapV, object: ObjV)
    requires
        h.tidy(),
        h.cells.len() < usize::MAX,
    ensures
        h.with_new(object).tidy(),
        h.cells.len() <= h.with_new(object).cells.len() <= h.cells.len() + 1,
        h.with_new(object).obj(h.next_id()) == Some(object),
        h.cell(h.next_id()) is None,
        h.next_id() != h.with_new(object).next_id(),
        forall|id: ObjId|
            id != h.next_id() ==> #[trigger] h.with_new(object).cell(id) == h.cell(id),
{
    let next = h.with_new(object);
    if h.free.len() > 0 {
        let last = h.free.len() - 1;
        assert(h.free[last] < h.cells.len());
        let rest = h.free.drop_last();
        assert forall|i: int| 0 <= i < rest.len() implies #[trigger] rest[i] == h.free[i] by {}
        assert forall|i: int| 0 <= i < rest.len() implies #[trigger] next.free[i] < next.cells.len()
            && next.cells[next.free[i] as int] is None by {
            assert(next.free[i] == h.free[i]);
            assert(h.free[i] != h.free[last]);
        }
        if rest.len() > 0 {
            assert(next.free[rest.len() - 1] == h.free[rest.len() - 1]);
        }
    }
}

proof fn lemma_gaps(cells: Seq<Option<CellV>>, n: int)
    requires
        cells.len() <= usize::MAX,
        n <= cells.len(),
    ensures
        gaps(cells, n).no_duplicates(),
        forall|i: int|
            0 <= i < gaps(cells, n).len() ==> #[trigger] gaps(cells, n)[i] < n && cells[gaps(
                cells,
                n,
            )[i] as int] is None,
    decreases n,
{
    if n > 0 {
        lemma_gaps(cells, n - 1);
    }
}

/// A collection leaves every place that no object holds to be given out, each once.
pub proof fn law_a_collection_leaves_the_heap_tidy(h: HeapV, roots: Seq<ObjId>)
    requires
        h.cells.len() <= usize::MAX,
    ensures
        collected(h, roots).tidy(),
{
    lemma_gaps(collected(h, roots).cells, collected(h, roots).cells.len() as int);
}

/// A collection keeps every object the roots reach exactly as it was.
pub proof fn law_collection_keeps_the_reachable(h: HeapV, roots: Seq<ObjId>, id: ObjId)
    requires
        reachable(h.cells, Follow::All, roots, id),
    ensures
        collected(h, roots).cell(id) == h.cell(id),
        h.cell(id) is Some,
{
    lemma_reachable_live(h.cells, Follow::All, roots, id);
}

/// A collection leaves no object the roots do not reach.
pub proof fn law_collection_reclaims_the_rest(h: HeapV, roots: Seq<ObjId>, id: ObjId)
    requires
        !reachable(h.cells, Follow::All, roots, id),
    ensures
        collected(h, roots).cell(id) is None,
{
}

/// Freezing changes nothing but whether objects are frozen, and thaws none.
pub proof fn law_freezing_keeps_contents(h: HeapV, value: Value, id: ObjId)
    ensures
        frozen_by(h, value).obj(id) == h.obj(id),
        frozen_by(h, value).descriptor(id) == h.descriptor(id),
        h.frozen(id) ==> frozen_by(h, value).frozen(id),
{
    if reachable(h.cells, Follow::Contents, opt_handle(value), id) {
        lemma_reachable_live(h.cells, Follow::Contents, opt_handle(value), id);
    }
}

/// A copy of values.
pub fn copy_values(s: &Vec<Value>) -> (r: Vec<Value>)
    ensures
        r@ == s@,
{
    let mut r: Vec<Value> = Vec::new();
    let mut i: usize = 0;
    while i < s.len()
        invariant
            i <= s@.len(),
            r@ == s@.take(i as int),
        decreases s@.len() - i,
    {
        r.push(s[i]);
        assert(r@ =~= s@.take(i + 1));
        i += 1;
    }
    assert(r@ =~= s@);
    r
}

/// A copy of entries.
pub fn copy_entries(s: &Vec<Entry>) -> (r: Vec<Entry>)
    ensures
        r@ == s@,
{
    let mut r: Vec<Entry> = Vec::new();
    let mut i: usize = 0;
    while i < s.len()
        invariant
            i <= s@.len(),
            r@ == s@.take(i as int),
        decreases s@.len() - i,
    {
        r.push(s[i]);
        assert(r@ =~= s@.take(i + 1));
        i += 1;
    }
    assert(r@ =~= s@);
    r
}

} // verus!
