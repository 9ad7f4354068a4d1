//! How deep a value nests, how wide it is, and what its classes answer for.

use crate::interp::dict::keys_stand_once;
use crate::interp::ops::items_of;
use crate::runtime::class::{base, slot_of};
use crate::runtime::heap::HeapV;
use crate::runtime::value::Value;
use crate::syntax::ast::Op;
use vstd::prelude::*;

verus! {

/// Whether a value holds no cycle: containers nest in it at most `depth` deep, and none of
/// them holds more than `width` items or entries.
pub open spec fn within(h: HeapV, v: Value, depth: nat, width: nat) -> bool
    decreases depth,
{
    match base(h, v) {
        Value::List(_) | Value::Tuple(_) => {
            let items = items_of(h, base(h, v));
            &&& depth > 0
            &&& items.len() <= width
            &&& forall|i: int|
                0 <= i < items.len() ==> within(h, #[trigger] items[i], (depth - 1) as nat, width)
        },
        Value::Dict(id) => {
            let entries = h.dict(id);
            &&& depth > 0
            &&& entries.len() <= width
            &&& forall|i: int|
                0 <= i < entries.len() ==> within(
                    h,
                    (#[trigger] entries[i]).key,
                    (depth - 1) as nat,
                    width,
                ) && within(h, entries[i].value, (depth - 1) as nat, width)
        },
        _ => true,
    }
}

/// Whether no class answers an op for a value, nor for anything it holds `depth` steps in.
pub open spec fn unanswered(h: HeapV, v: Value, op: Op, depth: nat) -> bool
    decreases depth,
{
    &&& slot_of(h, v, op) is None
    &&& depth > 0 ==> match base(h, v) {
        Value::List(_) | Value::Tuple(_) => {
            let items = items_of(h, base(h, v));
            forall|i: int|
                0 <= i < items.len() ==> unanswered(h, #[trigger] items[i], op, (depth - 1) as nat)
        },
        Value::Dict(id) => {
            let entries = h.dict(id);
            forall|i: int|
                0 <= i < entries.len() ==> unanswered(
                    h,
                    (#[trigger] entries[i]).key,
                    op,
                    (depth - 1) as nat,
                ) && unanswered(h, entries[i].value, op, (depth - 1) as nat)
        },
        _ => true,
    }
}

/// Whether each dict that a value is or holds, `depth` steps in, has each of its keys once, as
/// every dict has.
pub open spec fn dicts_sound(h: HeapV, v: Value, depth: nat) -> bool
    decreases depth,
{
    match base(h, v) {
        Value::List(_) | Value::Tuple(_) => {
            let items = items_of(h, base(h, v));
            depth > 0 ==> forall|i: int|
                0 <= i < items.len() ==> dicts_sound(h, #[trigger] items[i], (depth - 1) as nat)
        },
        Value::Dict(id) => {
            let entries = h.dict(id);
            &&& keys_stand_once(h, entries)
            &&& depth > 0 ==> forall|i: int|
                0 <= i < entries.len() ==> dicts_sound(
                    h,
                    (#[trigger] entries[i]).value,
                    (depth - 1) as nat,
                )
        },
        _ => true,
    }
}

} // verus!
