//! How a value displays where no class is asked: by what it holds alone, with nothing run.

use crate::error::ErrV;
use crate::interp::nesting::{unanswered, within};
use crate::interp::ops::items_of;
use crate::interp::paint::{bare_text, style_of, Style};
use crate::interp::show::{
    enclosed, s_base_text, s_display, s_entry_texts, s_item_texts, s_repr, string_op, Ask,
};
use crate::interp::state::St;
use crate::runtime::class::base;
use crate::runtime::heap::{at_index, Heap, HeapV};
use crate::runtime::object::Entry;
use crate::runtime::value::{ObjId, Value};
use crate::syntax::ast::Op;
use crate::text::{cat3, join, joined, lemma_strs_push, quote, quoted, strs};
use vstd::prelude::*;

verus! {

broadcast use lemma_strs_push;

// -- the plain text of a value ------------------------------------------------------------------

/// How a value displays on its own, its containers `depth` deep. Any deeper shows as dots.
pub open spec fn plain_display(h: HeapV, v: Value, color: bool, depth: nat) -> Seq<char>
    decreases depth, 1int,
{
    let held = base(h, v);
    match held {
        Value::List(_) => enclosed(
            "["@,
            inside_items(h, items_of(h, held), color, depth),
            "]"@,
            color,
        ),
        Value::Tuple(_) => enclosed(
            "("@,
            inside_items(h, items_of(h, held), color, depth),
            ")"@,
            color,
        ),
        Value::Dict(id) => enclosed("{"@, inside_entries(h, h.dict(id), color, depth), "}"@, color),
        _ => style_of(held).painted(bare_text(h, held, v), color),
    }
}

/// How a value displays inside another: a string in quotes.
pub open spec fn plain_repr(h: HeapV, v: Value, color: bool, depth: nat) -> Seq<char>
    decreases depth, 2int,
{
    match base(h, v) {
        Value::Str(id) => Style::Green.painted(quoted(h.text(id)), color),
        _ => plain_display(h, v, color, depth),
    }
}

/// How items display, each inside their container.
pub open spec fn plain_reprs(h: HeapV, items: Seq<Value>, color: bool, depth: nat) -> Seq<Seq<char>>
    decreases depth, 3int,
{
    Seq::new(items.len(), |i: int| plain_repr(h, items[i], color, depth))
}

/// How entries display, each inside their dict.
pub open spec fn plain_entries(h: HeapV, entries: Seq<Entry>, color: bool, depth: nat) -> Seq<Seq<char>>
    decreases depth, 3int,
{
    Seq::new(
        entries.len(),
        |i: int|
            plain_repr(h, entries[i].key, color, depth) + ": "@ + plain_repr(
                h,
                entries[i].value,
                color,
                depth,
            ),
    )
}

pub open spec fn inside_items(h: HeapV, items: Seq<Value>, color: bool, depth: nat) -> Seq<char>
    decreases depth, 0int,
{
    if depth == 0 {
        "..."@
    } else {
        joined(plain_reprs(h, items, color, (depth - 1) as nat), ", "@)
    }
}

pub open spec fn inside_entries(h: HeapV, entries: Seq<Entry>, color: bool, depth: nat) -> Seq<char>
    decreases depth, 0int,
{
    if depth == 0 {
        "..."@
    } else {
        joined(plain_entries(h, entries, color, (depth - 1) as nat), ", "@)
    }
}

// -- written -------------------------------------------------------------------------------------

fn items_text(heap: &Heap, items: &Vec<Value>, depth: usize) -> (r: String)
    ensures
        r@ == inside_items(heap@, items@, false, depth as nat),
    decreases depth, 0int,
{
    if depth == 0 {
        return "...".to_owned();
    }
    let ghost goal = plain_reprs(heap@, items@, false, (depth - 1) as nat);
    let mut texts: Vec<String> = Vec::new();
    let mut i: usize = 0;
    while i < items.len()
        invariant
            i <= items@.len(),
            depth > 0,
            goal == plain_reprs(heap@, items@, false, (depth - 1) as nat),
            strs(texts@) =~= goal.take(i as int),
        decreases items@.len() - i,
    {
        let ghost before = strs(texts@);
        let text = repr_text(heap, items[i], depth - 1);
        texts.push(text);
        assert(strs(texts@) =~= before.push(goal[i as int]));
        i += 1;
    }
    assert(goal.take(i as int) =~= goal);
    join(&texts, ", ")
}

fn entries_text(heap: &Heap, entries: &Vec<Entry>, depth: usize) -> (r: String)
    ensures
        r@ == inside_entries(heap@, entries@, false, depth as nat),
    decreases depth, 0int,
{
    if depth == 0 {
        return "...".to_owned();
    }
    let ghost goal = plain_entries(heap@, entries@, false, (depth - 1) as nat);
    let mut texts: Vec<String> = Vec::new();
    let mut i: usize = 0;
    while i < entries.len()
        invariant
            i <= entries@.len(),
            depth > 0,
            goal == plain_entries(heap@, entries@, false, (depth - 1) as nat),
            strs(texts@) =~= goal.take(i as int),
        decreases entries@.len() - i,
    {
        let ghost before = strs(texts@);
        let key = repr_text(heap, entries[i].key, depth - 1);
        let value = repr_text(heap, entries[i].value, depth - 1);
        texts.push(cat3(key.as_str(), ": ", value.as_str()));
        assert(strs(texts@) =~= before.push(goal[i as int]));
        i += 1;
    }
    assert(goal.take(i as int) =~= goal);
    join(&texts, ", ")
}

fn display_text(heap: &Heap, v: Value, depth: usize) -> (r: String)
    ensures
        r@ == plain_display(heap@, v, false, depth as nat),
    decreases depth, 1int,
{
    let held = heap.base(v);
    match held {
        Value::List(id) => {
            let items = heap.list(id);
            cat3("[", items_text(heap, &items, depth).as_str(), "]")
        },
        Value::Tuple(id) => {
            let items = heap.tuple(id);
            cat3("(", items_text(heap, &items, depth).as_str(), ")")
        },
        Value::Dict(id) => {
            let entries = heap.dict(id);
            cat3("{", entries_text(heap, &entries, depth).as_str(), "}")
        },
        _ => heap.bare_text(held, v),
    }
}

fn repr_text(heap: &Heap, v: Value, depth: usize) -> (r: String)
    ensures
        r@ == plain_repr(heap@, v, false, depth as nat),
    decreases depth, 2int,
{
    match heap.base(v) {
        Value::Str(id) => quote(heap.text(id).as_str()),
        _ => display_text(heap, v, depth),
    }
}

impl Value {
    /// How the value displays, asking no class. It nests no deeper than the heap has places,
    /// unless it holds itself.
    pub fn display_base(self, heap: &Heap) -> (r: String)
        ensures
            r@ == plain_display(heap@, self, false, heap@.cells.len()),
    {
        display_text(heap, self, heap.cells.len())
    }

    /// How the value displays inside another, asking no class.
    pub fn repr_base(self, heap: &Heap) -> (r: String)
        ensures
            r@ == plain_repr(heap@, self, false, heap@.cells.len()),
    {
        repr_text(heap, self, heap.cells.len())
    }
}

// -- the two renderers agree ------------------------------------------------------------------------

/// Whether displaying a value runs nothing: no class is asked, or none of those asked answers.
pub open spec fn calm(h: HeapV, v: Value, ask: Ask, depth: nat) -> bool {
    ask == Ask::Nothing || unanswered(h, v, Op::Str, depth)
}

/// How many steps displaying a value takes at most.
pub open spec fn display_steps(depth: nat, width: nat) -> nat {
    2 + depth * (width + 4)
}

pub(crate) proof fn lemma_display_steps(depth: nat, width: nat)
    requires
        depth > 0,
    ensures
        display_steps(depth, width) == display_steps((depth - 1) as nat, width) + width + 4,
{
    assert(depth * (width + 4) == (depth - 1) * (width + 4) + (width + 4)) by (nonlinear_arith);
}

pub(crate) proof fn lemma_repr_is_plain(f: nat, st: St, v: Value, color: bool, ask: Ask, depth: nat, width: nat)
    requires
        within(st.heap, v, depth, width),
        calm(st.heap, v, ask, depth),
        f >= display_steps(depth, width) + 1,
    ensures
        s_repr(f, st, v, color, ask) == (
            st,
            Ok::<Seq<char>, ErrV>(plain_repr(st.heap, v, color, depth)),
        ),
    decreases depth, f,
{
    assert(string_op(st.heap, v, ask) is None);
    assert(f > 0);
    if !(base(st.heap, v) is Str) {
        lemma_display_is_plain((f - 1) as nat, st, v, color, ask, depth, width);
    }
}

pub(crate) proof fn lemma_display_is_plain(f: nat, st: St, v: Value, color: bool, ask: Ask, depth: nat, width: nat)
    requires
        within(st.heap, v, depth, width),
        calm(st.heap, v, ask, depth),
        f >= display_steps(depth, width),
    ensures
        s_display(f, st, v, color, ask) == (
            st,
            Ok::<Seq<char>, ErrV>(plain_display(st.heap, v, color, depth)),
        ),
    decreases depth, f,
{
    let h = st.heap;
    let held = base(h, v);
    assert(string_op(h, v, ask) is None);
    assert(depth * (width + 4) >= 0) by (nonlinear_arith);
    assert(f >= 2);
    assert(s_display(f, st, v, color, ask) == s_base_text((f - 1) as nat, st, v, color, ask));
    match held {
        Value::List(_) | Value::Tuple(_) => {
            lemma_display_steps(depth, width);
            let goal = plain_reprs(h, items_of(h, held), color, (depth - 1) as nat);
            assert(goal.take(0) =~= Seq::empty());
            lemma_items_are_plain((f - 2) as nat, st, v, color, ask, depth, width, 0);
        },
        Value::Dict(id) => {
            lemma_display_steps(depth, width);
            let goal = plain_entries(h, h.dict(id), color, (depth - 1) as nat);
            assert(goal.take(0) =~= Seq::empty());
            lemma_entries_are_plain((f - 2) as nat, st, v, id, color, ask, depth, width, 0);
        },
        _ => {},
    }
}

proof fn lemma_items_are_plain(
    f: nat,
    st: St,
    v: Value,
    color: bool,
    ask: Ask,
    depth: nat,
    width: nat,
    i: int,
)
    requires
        within(st.heap, v, depth, width),
        calm(st.heap, v, ask, depth),
        depth > 0,
        base(st.heap, v) is List || base(st.heap, v) is Tuple,
        0 <= i <= items_of(st.heap, base(st.heap, v)).len(),
        f >= display_steps((depth - 1) as nat, width) + width + 2 - i,
    ensures
        ({
            let held = base(st.heap, v);
            let goal = plain_reprs(st.heap, items_of(st.heap, held), color, (depth - 1) as nat);
            s_item_texts(f, st, held, color, ask, i, goal.take(i)) == (
                st,
                Ok::<Seq<Seq<char>>, ErrV>(goal),
            )
        }),
    decreases depth, f,
{
    let h = st.heap;
    let held = base(h, v);
    let items = items_of(h, held);
    let goal = plain_reprs(h, items, color, (depth - 1) as nat);
    if i < items.len() {
        assert(at_index(items, i) == Some(items[i]));
        assert(within(h, items[i], (depth - 1) as nat, width));
        if ask == Ask::Class {
            assert(unanswered(h, items[i], Op::Str, (depth - 1) as nat));
        }
        assert(f > 0);
        lemma_repr_is_plain((f - 1) as nat, st, items[i], color, ask, (depth - 1) as nat, width);
        assert(goal.take(i).push(goal[i]) =~= goal.take(i + 1));
        lemma_items_are_plain((f - 1) as nat, st, v, color, ask, depth, width, i + 1);
    } else {
        assert(at_index(items, i) is None);
        assert(goal.take(i) =~= goal);
    }
}

proof fn lemma_entries_are_plain(
    f: nat,
    st: St,
    v: Value,
    id: ObjId,
    color: bool,
    ask: Ask,
    depth: nat,
    width: nat,
    i: int,
)
    requires
        within(st.heap, v, depth, width),
        calm(st.heap, v, ask, depth),
        depth > 0,
        base(st.heap, v) == Value::Dict(id),
        0 <= i <= st.heap.dict(id).len(),
        f >= display_steps((depth - 1) as nat, width) + width + 2 - i,
    ensures
        ({
            let goal = plain_entries(st.heap, st.heap.dict(id), color, (depth - 1) as nat);
            s_entry_texts(f, st, st.heap.dict(id), color, ask, i, goal.take(i)) == (
                st,
                Ok::<Seq<Seq<char>>, ErrV>(goal),
            )
        }),
    decreases depth, f,
{
    let h = st.heap;
    let entries = h.dict(id);
    let goal = plain_entries(h, entries, color, (depth - 1) as nat);
    if i < entries.len() {
        assert(within(h, entries[i].key, (depth - 1) as nat, width));
        assert(within(h, entries[i].value, (depth - 1) as nat, width));
        if ask == Ask::Class {
            assert(unanswered(h, entries[i].key, Op::Str, (depth - 1) as nat));
            assert(unanswered(h, entries[i].value, Op::Str, (depth - 1) as nat));
        }
        assert(f > 0);
        lemma_repr_is_plain((f - 1) as nat, st, entries[i].key, color, ask, (depth - 1) as nat, width);
        lemma_repr_is_plain((f - 1) as nat, st, entries[i].value, color, ask, (depth - 1) as nat, width);
        assert(goal.take(i).push(goal[i]) =~= goal.take(i + 1));
        lemma_entries_are_plain((f - 1) as nat, st, v, id, color, ask, depth, width, i + 1);
    } else {
        assert(goal.take(i) =~= goal);
    }
}

/// A value that holds no cycle displays, whether its classes are asked or not, as the plain
/// renderer has it, as long as none of those asked answers; and displaying it changes nothing.
pub proof fn law_the_two_renderers_agree(
    f: nat,
    st: St,
    v: Value,
    color: bool,
    ask: Ask,
    depth: nat,
    width: nat,
)
    requires
        within(st.heap, v, depth, width),
        calm(st.heap, v, ask, depth),
        f >= display_steps(depth, width) + 1,
    ensures
        s_display(f, st, v, color, ask) == (
            st,
            Ok::<Seq<char>, ErrV>(plain_display(st.heap, v, color, depth)),
        ),
        s_repr(f, st, v, color, ask) == (
            st,
            Ok::<Seq<char>, ErrV>(plain_repr(st.heap, v, color, depth)),
        ),
{
    lemma_display_is_plain(f, st, v, color, ask, depth, width);
    lemma_repr_is_plain(f, st, v, color, ask, depth, width);
}

} // verus!
