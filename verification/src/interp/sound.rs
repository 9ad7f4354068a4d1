//! What holds of every heap a program runs on.

use crate::interp::coerce::entries_put;
use crate::interp::dict::{dict_put, entry_put};
use crate::interp::module::names_declared;
use crate::interp::state::{roots, s_collect, St};
use crate::runtime::heap::{
    frozen_by, law_a_collection_leaves_the_heap_tidy, law_a_new_object_moves_nothing,
    law_collection_keeps_the_reachable, lemma_reachable_live, lemma_root_is_reachable, reachable,
    slot_put, Follow, HeapV,
};
use crate::runtime::object::{opt_handle, ObjV};
use crate::runtime::scope::{
    assigned, declared, law_declaring_a_name_keeps_names_distinct, lemma_var_place, names_distinct,
};
use crate::runtime::value::{all_builtins, Builtin, ObjId, Value};
use crate::syntax::ast::{Bind, ImportNameV, Op, TypeExprV};
use vstd::prelude::*;

verus! {

/// Whether a place holds a builtin type as it was born: under its name, and extending nothing.
pub open spec fn born(h: HeapV, id: ObjId, b: Builtin) -> bool {
    &&& h.obj(id) is Some
    &&& h.obj(id)->0 is Class
    &&& h.class(id).name == b.spelled()
    &&& h.class(id).parent is None
}

/// What a heap keeps while a program runs on it: it gives out only places that hold nothing,
/// the program's own scope is there and holds each name once, and the builtin types are as
/// they were born.
pub open spec fn sound(h: HeapV, globals: ObjId) -> bool {
    &&& h.tidy()
    &&& h.obj(globals) is Some
    &&& h.obj(globals)->0 is Scope
    &&& names_distinct(h.scope(globals).vars)
    &&& h.builtins.len() == all_builtins().len()
    &&& forall|i: int|
        0 <= i < h.builtins.len() ==> #[trigger] born(h, h.builtins[i], all_builtins()[i])
}

/// Whether what happened to a heap kept it sound. The one limit is how many places there are.
#[verifier::opaque]
pub open spec fn keeps(a: HeapV, b: HeapV, globals: ObjId) -> bool {
    &&& a.builtins == b.builtins
    &&& a.cells.len() <= b.cells.len()
    &&& sound(a, globals) && b.cells.len() <= usize::MAX ==> sound(b, globals)
}

pub broadcast proof fn lemma_keeps_itself(h: HeapV, globals: ObjId)
    ensures
        #[trigger] keeps(h, h, globals),
{
    reveal(keeps);
}

pub broadcast proof fn lemma_keeps_on(a: HeapV, b: HeapV, c: HeapV, globals: ObjId)
    requires
        #[trigger] keeps(a, b, globals),
        #[trigger] keeps(b, c, globals),
    ensures
        keeps(a, c, globals),
{
    reveal(keeps);
}

pub broadcast proof fn lemma_new_keeps(a: HeapV, h: HeapV, object: ObjV, globals: ObjId)
    requires
        #[trigger] keeps(a, h, globals),
    ensures
        keeps(a, #[trigger] h.with_new(object), globals),
{
    reveal(keeps);
    let next = h.with_new(object);
    if sound(h, globals) && next.cells.len() <= usize::MAX {
        if h.cells.len() < usize::MAX {
            law_a_new_object_moves_nothing(h, object);
        } else {
            assert(h.free.len() > 0);
            lemma_reused(h, object);
        }
        assert(next.cell(globals) == h.cell(globals));
        assert forall|i: int| 0 <= i < next.builtins.len() implies #[trigger] born(
            next,
            next.builtins[i],
            all_builtins()[i],
        ) by {
            assert(born(h, h.builtins[i], all_builtins()[i]));
            assert(next.cell(h.builtins[i]) == h.cell(h.builtins[i]));
        }
    }
}

proof fn lemma_reused(h: HeapV, object: ObjV)
    requires
        h.tidy(),
        h.free.len() > 0,
        h.cells.len() <= usize::MAX,
    ensures
        h.with_new(object).tidy(),
        h.cell(h.next_id()) is None,
        forall|id: ObjId|
            id != h.next_id() ==> #[trigger] h.with_new(object).cell(id) == h.cell(id),
{
    let next = h.with_new(object);
    let last = h.free.len() - 1;
    assert(h.free[last] < h.cells.len());
    let rest = h.free.drop_last();
    assert forall|i: int| 0 <= i < rest.len() implies #[trigger] next.free[i] < next.cells.len()
        && next.cells[next.free[i] as int] is None by {
        assert(next.free[i] == h.free[i]);
        assert(h.free[i] != h.free[last]);
    }
}

/// A change to what a place holds, of the same kind, that touches neither the program's scope
/// nor a class's name and parent, keeps a heap sound.
proof fn lemma_change(a: HeapV, h: HeapV, next: HeapV, globals: ObjId)
    requires
        keeps(a, h, globals),
        next.builtins == h.builtins,
        next.free == h.free,
        next.cells.len() == h.cells.len(),
        forall|id: ObjId| (#[trigger] next.cell(id) is None) == (h.cell(id) is None),
        sound(h, globals) ==> next.obj(globals) is Some && next.obj(globals)->0 is Scope
            && names_distinct(next.scope(globals).vars),
        forall|i: int|
            0 <= i < h.builtins.len() && i < all_builtins().len() && #[trigger] born(
                h,
                h.builtins[i],
                all_builtins()[i],
            ) ==> born(next, h.builtins[i], all_builtins()[i]),
    ensures
        keeps(a, next, globals),
{
    reveal(keeps);
    if sound(h, globals) {
        assert forall|i: int| 0 <= i < next.free.len() implies #[trigger] next.free[i] < next.cells.len()
            && next.cells[next.free[i] as int] is None by {
            assert(h.free[i] < h.cells.len());
            assert(next.cell(h.free[i]) is None == h.cell(h.free[i]) is None);
        }
        assert forall|i: int| 0 <= i < next.builtins.len() implies #[trigger] born(
            next,
            next.builtins[i],
            all_builtins()[i],
        ) by {
            assert(born(h, h.builtins[i], all_builtins()[i]));
        }
    }
}

pub broadcast proof fn lemma_object_keeps(a: HeapV, h: HeapV, id: ObjId, object: ObjV, globals: ObjId)
    requires
        #[trigger] keeps(a, h, globals),
        !(object is Scope),
        !(object is Class),
    ensures
        keeps(a, #[trigger] h.with_object(id, object), globals),
{
    let next = h.with_object(id, object);
    lemma_change(a, h, next, globals);
}

pub broadcast proof fn lemma_slot_keeps(a: HeapV, h: HeapV, id: ObjId, op: Op, value: Value, globals: ObjId)
    requires
        #[trigger] keeps(a, h, globals),
    ensures
        keeps(a, #[trigger] slot_put(h, id, op, value), globals),
{
    lemma_change(a, h, slot_put(h, id, op, value), globals);
}

pub broadcast proof fn lemma_declared_keeps(
    a: HeapV,
    h: HeapV,
    id: ObjId,
    name: Seq<char>,
    value: Value,
    bind: Bind,
    ty: Option<TypeExprV>,
    globals: ObjId,
)
    requires
        #[trigger] keeps(a, h, globals),
    ensures
        keeps(a, #[trigger] declared(h, id, name, value, bind, ty), globals),
{
    let next = declared(h, id, name, value, bind, ty);
    if sound(h, globals) {
        law_declaring_a_name_keeps_names_distinct(h, id, name, value, bind, ty, globals);
    }
    lemma_change(a, h, next, globals);
}

pub broadcast proof fn lemma_assigned_keeps(
    a: HeapV,
    h: HeapV,
    id: ObjId,
    name: Seq<char>,
    value: Value,
    globals: ObjId,
)
    requires
        #[trigger] keeps(a, h, globals),
    ensures
        keeps(a, #[trigger] assigned(h, id, name, value), globals),
{
    let next = assigned(h, id, name, value);
    if sound(h, globals) {
        lemma_var_place(h.scope(id).vars, name, 0);
        assert forall|i: int, j: int|
            0 <= i < j < next.scope(globals).vars.len() implies (#[trigger] next.scope(globals).vars[i]).name
            != (#[trigger] next.scope(globals).vars[j]).name by {
            assert(next.scope(globals).vars[i].name == h.scope(globals).vars[i].name);
            assert(next.scope(globals).vars[j].name == h.scope(globals).vars[j].name);
        }
    }
    lemma_change(a, h, next, globals);
}

pub broadcast proof fn lemma_described_keeps(a: HeapV, h: HeapV, id: ObjId, ty: TypeExprV, globals: ObjId)
    requires
        #[trigger] keeps(a, h, globals),
    ensures
        keeps(a, #[trigger] h.described(id, ty), globals),
{
    lemma_change(a, h, h.described(id, ty), globals);
}

pub broadcast proof fn lemma_frozen_keeps(a: HeapV, h: HeapV, value: Value, globals: ObjId)
    requires
        #[trigger] keeps(a, h, globals),
    ensures
        keeps(a, #[trigger] frozen_by(h, value), globals),
{
    let next = frozen_by(h, value);
    assert forall|id: ObjId| (#[trigger] next.cell(id) is None) == (h.cell(id) is None) && next.obj(id)
        == h.obj(id) by {
        if reachable(h.cells, Follow::Contents, opt_handle(value), id) {
            lemma_reachable_live(h.cells, Follow::Contents, opt_handle(value), id);
        }
    }
    assert forall|id: ObjId| #[trigger] next.obj(id) == h.obj(id) by {
        assert(next.cell(id) is None == h.cell(id) is None);
    }
    assert(next.obj(globals) == h.obj(globals));
    assert forall|i: int|
        0 <= i < h.builtins.len() && i < all_builtins().len() && #[trigger] born(
            h,
            h.builtins[i],
            all_builtins()[i],
        ) implies born(next, h.builtins[i], all_builtins()[i]) by {
        assert(next.obj(h.builtins[i]) == h.obj(h.builtins[i]));
    }
    lemma_change(a, h, next, globals);
}

pub broadcast proof fn lemma_names_keep(
    a: HeapV,
    h: HeapV,
    into: ObjId,
    names: Seq<ImportNameV>,
    values: Seq<Value>,
    i: int,
    globals: ObjId,
)
    requires
        #[trigger] keeps(a, h, globals),
    ensures
        keeps(a, #[trigger] names_declared(h, into, names, values, i), globals),
    decreases names.len() - i,
{
    if 0 <= i < names.len() && i < values.len() {
        lemma_declared_keeps(a, h, into, names[i].name, values[i], Bind::Final, None, globals);
        lemma_names_keep(
            a,
            declared(h, into, names[i].name, values[i], Bind::Final, None),
            into,
            names,
            values,
            i + 1,
            globals,
        );
    }
}

pub broadcast proof fn lemma_entries_keep(
    a: HeapV,
    h: HeapV,
    id: ObjId,
    keys: Seq<Value>,
    values: Seq<Value>,
    i: int,
    globals: ObjId,
)
    requires
        #[trigger] keeps(a, h, globals),
    ensures
        keeps(a, #[trigger] entries_put(h, id, keys, values, i), globals),
    decreases keys.len() - i,
{
    if 0 <= i < keys.len() && i < values.len() {
        let entries = ObjV::Dict(dict_put(h, h.dict(id), keys[i], values[i]));
        lemma_object_keeps(a, h, id, entries, globals);
        lemma_entries_keep(a, entry_put(h, id, keys[i], values[i]), id, keys, values, i + 1, globals);
    }
}

/// A collection keeps what is rooted, and the program's scope and the builtin types are.
pub broadcast proof fn lemma_collect_keeps(a: HeapV, st: St)
    requires
        #[trigger] keeps(a, st.heap, st.globals),
    ensures
        keeps(a, #[trigger] s_collect(st).heap, st.globals),
{
    reveal(keeps);
    let h = st.heap;
    let next = s_collect(st).heap;
    let rs = roots(st);
    if sound(h, st.globals) && next.cells.len() <= usize::MAX && h.live() >= h.threshold {
        law_a_collection_leaves_the_heap_tidy(h, rs);
        assert(rs[0] == st.globals);
        lemma_root_is_reachable(h.cells, Follow::All, rs, st.globals);
        law_collection_keeps_the_reachable(h, rs, st.globals);
        assert forall|i: int| 0 <= i < next.builtins.len() implies #[trigger] born(
            next,
            next.builtins[i],
            all_builtins()[i],
        ) by {
            let id = h.builtins[i];
            assert(born(h, id, all_builtins()[i]));
            assert(rs[rs.len() - h.builtins.len() + i] == id);
            lemma_root_is_reachable(h.cells, Follow::All, rs, id);
            law_collection_keeps_the_reachable(h, rs, id);
        }
    }
}

/// A class that is filled in where it was just made is no builtin type.
pub proof fn lemma_made_keeps(a: HeapV, h: HeapV, later: HeapV, object: ObjV, made: ObjV, globals: ObjId)
    requires
        keeps(a, h, globals),
        keeps(h.with_new(object), later, globals),
        made is Class,
    ensures
        keeps(a, later.with_object(h.next_id(), made), globals),
{
    reveal(keeps);
    let id = h.next_id();
    let next = later.with_object(id, made);
    lemma_new_keeps(a, h, object, globals);
    lemma_keeps_on(a, h.with_new(object), later, globals);
    if sound(a, globals) && next.cells.len() <= usize::MAX {
        if h.cells.len() < usize::MAX {
            law_a_new_object_moves_nothing(h, object);
        } else {
            lemma_reused(h, object);
        }
        assert forall|i: int|
            0 <= i < later.builtins.len() && i < all_builtins().len() && #[trigger] born(
                later,
                later.builtins[i],
                all_builtins()[i],
            ) implies born(next, later.builtins[i], all_builtins()[i]) by {
            assert(born(h, h.builtins[i], all_builtins()[i]));
        }
        assert(next.cell(globals) == later.cell(globals) || next.scope(globals) == later.scope(globals));
        lemma_change(a, later, next, globals);
    }
}

pub broadcast group group_keeps {
    lemma_keeps_itself,
    lemma_keeps_on,
    lemma_new_keeps,
    lemma_object_keeps,
    lemma_slot_keeps,
    lemma_declared_keeps,
    lemma_assigned_keeps,
    lemma_described_keeps,
    lemma_frozen_keeps,
    lemma_names_keep,
    lemma_entries_keep,
    lemma_collect_keeps,
}

} // verus!
