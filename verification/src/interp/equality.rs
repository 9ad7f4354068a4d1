//! What `==` finds where no class answers it: values are compared by what they hold.

use crate::error::ErrV;
use crate::interp::dict::{dict_get, key_place, keys_of, keys_stand_once, same_key};
use crate::interp::nesting::{dicts_sound, unanswered, within};
use crate::interp::operator::{asked, plain_equal};
use crate::interp::ops::{items_of, s_base_equals, s_entries_equal, s_equals, s_items_equal};
use crate::interp::state::St;
use crate::runtime::class::{base, slot_of};
use crate::runtime::heap::{at_index, HeapV};
use crate::runtime::object::Entry;
use crate::runtime::value::{ObjId, Value};
use crate::syntax::ast::Op;
use vstd::prelude::*;

verus! {

/// Whether two values that nest no deeper than `depth` hold the same. Items are compared in
/// order, entries by their keys in any order, and a container is equal to itself.
pub open spec fn equal_to(h: HeapV, a: Value, b: Value, depth: nat) -> bool
    decreases depth,
{
    let x = base(h, a);
    let y = base(h, b);
    match (x, y) {
        (Value::List(m), Value::List(n)) => m == n || same_items(h, x, y, depth),
        (Value::Tuple(m), Value::Tuple(n)) => m == n || same_items(h, x, y, depth),
        (Value::Dict(m), Value::Dict(n)) => m == n || same_entries(h, h.dict(m), h.dict(n), depth),
        _ => plain_equal(h, x, y),
    }
}

/// Whether two lists or two tuples are equally long and hold equal items at each place.
pub open spec fn same_items(h: HeapV, x: Value, y: Value, depth: nat) -> bool
    decreases depth, 0int,
{
    let s = items_of(h, x);
    let t = items_of(h, y);
    &&& s.len() == t.len()
    &&& depth > 0
    &&& forall|i: int|
        0 <= i < s.len() ==> equal_to(h, #[trigger] s[i], t[i], (depth - 1) as nat)
}

/// Whether two dicts have as many entries, and the second holds, under each key of the first,
/// an equal value.
pub open spec fn same_entries(h: HeapV, s: Seq<Entry>, t: Seq<Entry>, depth: nat) -> bool
    decreases depth, 0int,
{
    &&& s.len() == t.len()
    &&& depth > 0
    &&& forall|i: int|
        0 <= i < s.len() ==> dict_get(h, t, (#[trigger] s[i]).key) is Some && equal_to(
            h,
            s[i].value,
            dict_get(h, t, s[i].key)->0,
            (depth - 1) as nat,
        )
}

/// Whether values can be compared by what they hold alone.
pub open spec fn comparable(h: HeapV, v: Value, depth: nat, width: nat) -> bool {
    &&& within(h, v, depth, width)
    &&& unanswered(h, v, Op::Eq, depth)
    &&& dicts_sound(h, v, depth)
}

/// How many steps comparing such values takes at most.
pub open spec fn steps(depth: nat, width: nat) -> nat {
    2 + depth * (width + 3)
}

proof fn lemma_steps(depth: nat, width: nat)
    requires
        depth > 0,
    ensures
        steps(depth, width) == steps((depth - 1) as nat, width) + width + 3,
{
    assert(depth * (width + 3) == (depth - 1) * (width + 3) + (width + 3)) by (nonlinear_arith);
}

// -- dicts -----------------------------------------------------------------------------------

proof fn lemma_key_place(h: HeapV, s: Seq<Entry>, key: Value, from: int)
    requires
        0 <= from,
    ensures
        match key_place(h, s, key, from) {
            Some(i) => from <= i < s.len() && same_key(h, s[i].key, key),
            None => forall|i: int| from <= i < s.len() ==> !same_key(h, (#[trigger] s[i]).key, key),
        },
    decreases s.len() - from,
{
    if from < s.len() && !same_key(h, s[from].key, key) {
        lemma_key_place(h, s, key, from + 1);
    }
}

/// A key that stands once is found where it stands.
pub(crate) proof fn lemma_found(h: HeapV, s: Seq<Entry>, key: Value, i: int)
    requires
        keys_stand_once(h, s),
        0 <= i < s.len(),
        same_key(h, s[i].key, key),
    ensures
        key_place(h, s, key, 0) == Some(i),
{
    lemma_key_place(h, s, key, 0);
    let j = key_place(h, s, key, 0)->0;
    if j < i {
        assert(same_key(h, s[j].key, s[i].key));
    } else if i < j {
        assert(same_key(h, s[i].key, s[j].key));
    }
}

/// Places that are all different, as many as there are, are all of them.
proof fn lemma_every_place(p: Seq<int>, k: int)
    requires
        p.no_duplicates(),
        forall|i: int| 0 <= i < p.len() ==> 0 <= #[trigger] p[i] < p.len(),
        0 <= k < p.len(),
    ensures
        p.contains(k),
{
    p.unique_seq_to_set();
    let all = vstd::set_lib::set_int_range(0, p.len() as int);
    vstd::set_lib::lemma_int_range(0, p.len() as int);
    assert(p.to_set().subset_of(all)) by {
        assert forall|x: int| p.to_set().contains(x) implies all.contains(x) by {
            let i = p.index_of(x);
            assert(p[i] == x);
        }
    }
    vstd::set_lib::lemma_subset_equality(p.to_set(), all);
    assert(p.to_set().contains(k));
}

/// Where one of two dicts of a size has every key of the other, each of its keys is a key of
/// the other.
proof fn lemma_keys_back(h: HeapV, s: Seq<Entry>, t: Seq<Entry>, k: int) -> (i: int)
    requires
        keys_stand_once(h, s),
        keys_stand_once(h, t),
        s.len() == t.len(),
        forall|i: int| 0 <= i < s.len() ==> dict_get(h, t, (#[trigger] s[i]).key) is Some,
        0 <= k < t.len(),
    ensures
        0 <= i < s.len(),
        key_place(h, t, s[i].key, 0) == Some(k),
        key_place(h, s, t[k].key, 0) == Some(i),
{
    let n = s.len() as int;
    let p = Seq::new(
        s.len(),
        |i: int|
            match key_place(h, t, s[i].key, 0) {
                Some(j) => j,
                None => -1,
            },
    );
    assert forall|i: int| 0 <= i < n implies 0 <= #[trigger] p[i] < n && same_key(
        h,
        t[p[i]].key,
        s[i].key,
    ) by {
        assert(dict_get(h, t, s[i].key) is Some);
        lemma_key_place(h, t, s[i].key, 0);
    }
    assert forall|i: int, j: int| 0 <= i < n && 0 <= j < n && i != j implies p[i] != p[j] by {
        if p[i] == p[j] {
            assert(same_key(h, t[p[i]].key, s[i].key));
            assert(same_key(h, t[p[j]].key, s[j].key));
            assert(same_key(h, s[i].key, s[j].key) && same_key(h, s[j].key, s[i].key));
        }
    }
    lemma_every_place(p, k);
    let i = p.index_of(k);
    assert(p[i] == k);
    assert(dict_get(h, t, s[i].key) is Some);
    lemma_found(h, s, t[k].key, i);
    i
}

// -- what comparing finds ---------------------------------------------------------------------

proof fn lemma_equals(f: nat, st: St, a: Value, b: Value, depth: nat, width: nat)
    requires
        comparable(st.heap, a, depth, width),
        comparable(st.heap, b, depth, width),
        f >= steps(depth, width),
    ensures
        s_equals(f, st, a, b) == (st, Ok::<bool, ErrV>(equal_to(st.heap, a, b, depth))),
    decreases depth, f,
{
    let h = st.heap;
    let x = base(h, a);
    let y = base(h, b);
    assert(slot_of(h, a, Op::Eq) is None && slot_of(h, b, Op::Eq) is None);
    assert(asked(h, Op::Eq, a, b) is None);
    assert(depth * (width + 3) >= 0) by (nonlinear_arith);
    assert(f >= 2);
    assert(s_equals(f, st, a, b) == s_base_equals((f - 1) as nat, st, x, y));
    match (x, y) {
        (Value::List(m), Value::List(n)) => {
            lemma_steps(depth, width);
            if m != n && h.list(m).len() == h.list(n).len() {
                lemma_items((f - 2) as nat, st, a, b, depth, width, 0);
            }
        },
        (Value::Tuple(m), Value::Tuple(n)) => {
            lemma_steps(depth, width);
            if m != n && h.tuple(m).len() == h.tuple(n).len() {
                lemma_items((f - 2) as nat, st, a, b, depth, width, 0);
            }
        },
        (Value::Dict(m), Value::Dict(n)) => {
            lemma_steps(depth, width);
            if m != n && h.dict(m).len() == h.dict(n).len() {
                lemma_entries((f - 2) as nat, st, a, b, m, n, depth, width, 0);
            }
        },
        _ => {},
    }
}

proof fn lemma_items(f: nat, st: St, a: Value, b: Value, depth: nat, width: nat, i: int)
    requires
        comparable(st.heap, a, depth, width),
        comparable(st.heap, b, depth, width),
        depth > 0,
        (base(st.heap, a) is List && base(st.heap, b) is List) || (base(st.heap, a) is Tuple && base(
            st.heap,
            b,
        ) is Tuple),
        items_of(st.heap, base(st.heap, a)).len() == items_of(st.heap, base(st.heap, b)).len(),
        0 <= i <= items_of(st.heap, base(st.heap, a)).len(),
        f >= steps((depth - 1) as nat, width) + width + 1 - i,
        forall|k: int|
            0 <= k < i ==> equal_to(
                st.heap,
                #[trigger] items_of(st.heap, base(st.heap, a))[k],
                items_of(st.heap, base(st.heap, b))[k],
                (depth - 1) as nat,
            ),
    ensures
        s_items_equal(f, st, base(st.heap, a), base(st.heap, b), i) == (
            st,
            Ok::<bool, ErrV>(same_items(st.heap, base(st.heap, a), base(st.heap, b), depth)),
        ),
    decreases depth, f,
{
    let h = st.heap;
    let x = base(h, a);
    let y = base(h, b);
    let s = items_of(h, x);
    let t = items_of(h, y);
    assert(s.len() <= width);
    if i < s.len() {
        assert(at_index(s, i) == Some(s[i]) && at_index(t, i) == Some(t[i]));
        assert(within(h, s[i], (depth - 1) as nat, width) && within(h, t[i], (depth - 1) as nat, width));
        assert(unanswered(h, s[i], Op::Eq, (depth - 1) as nat));
        assert(unanswered(h, t[i], Op::Eq, (depth - 1) as nat));
        assert(dicts_sound(h, s[i], (depth - 1) as nat) && dicts_sound(h, t[i], (depth - 1) as nat));
        assert(f > 0);
        lemma_equals((f - 1) as nat, st, s[i], t[i], (depth - 1) as nat, width);
        if equal_to(h, s[i], t[i], (depth - 1) as nat) {
            lemma_items((f - 1) as nat, st, a, b, depth, width, i + 1);
        }
    } else {
        assert(at_index(s, i) is None);
    }
}

proof fn lemma_entries(
    f: nat,
    st: St,
    a: Value,
    b: Value,
    m: ObjId,
    n: ObjId,
    depth: nat,
    width: nat,
    i: int,
)
    requires
        comparable(st.heap, a, depth, width),
        comparable(st.heap, b, depth, width),
        depth > 0,
        base(st.heap, a) == Value::Dict(m),
        base(st.heap, b) == Value::Dict(n),
        st.heap.dict(m).len() == st.heap.dict(n).len(),
        0 <= i <= st.heap.dict(m).len(),
        f >= steps((depth - 1) as nat, width) + width + 1 - i,
        forall|k: int|
            0 <= k < i ==> dict_get(st.heap, st.heap.dict(n), (#[trigger] st.heap.dict(m)[k]).key) is Some
                && equal_to(
                st.heap,
                st.heap.dict(m)[k].value,
                dict_get(st.heap, st.heap.dict(n), st.heap.dict(m)[k].key)->0,
                (depth - 1) as nat,
            ),
    ensures
        s_entries_equal(f, st, m, n, keys_of(st.heap.dict(m)), i) == (
            st,
            Ok::<bool, ErrV>(same_entries(st.heap, st.heap.dict(m), st.heap.dict(n), depth)),
        ),
    decreases depth, f,
{
    let h = st.heap;
    let s = h.dict(m);
    let t = h.dict(n);
    let keys = keys_of(s);
    if i < s.len() {
        let key = s[i].key;
        assert(at_index(keys, i) == Some(key));
        assert(same_key(h, s[i].key, s[i].key));
        lemma_found(h, s, key, i);
        assert(dict_get(h, s, key) == Some(s[i].value));
        if dict_get(h, t, key) is Some {
            lemma_key_place(h, t, key, 0);
            let j = key_place(h, t, key, 0)->0;
            assert(within(h, s[i].value, (depth - 1) as nat, width));
            assert(within(h, t[j].key, (depth - 1) as nat, width));
            assert(within(h, t[j].value, (depth - 1) as nat, width));
            assert(unanswered(h, s[i].key, Op::Eq, (depth - 1) as nat));
            assert(unanswered(h, t[j].key, Op::Eq, (depth - 1) as nat));
            assert(unanswered(h, s[i].value, Op::Eq, (depth - 1) as nat));
            assert(unanswered(h, t[j].value, Op::Eq, (depth - 1) as nat));
            assert(dicts_sound(h, s[i].value, (depth - 1) as nat));
            assert(dicts_sound(h, t[j].value, (depth - 1) as nat));
            assert(f > 0);
            lemma_equals((f - 1) as nat, st, s[i].value, t[j].value, (depth - 1) as nat, width);
            if equal_to(h, s[i].value, t[j].value, (depth - 1) as nat) {
                lemma_entries((f - 1) as nat, st, a, b, m, n, depth, width, i + 1);
            }
        }
    } else {
        assert(at_index(keys, i) is None);
    }
}

/// Holding the same goes both ways.
proof fn lemma_equal_to_back(h: HeapV, a: Value, b: Value, depth: nat)
    requires
        dicts_sound(h, a, depth),
        dicts_sound(h, b, depth),
        equal_to(h, a, b, depth),
    ensures
        equal_to(h, b, a, depth),
    decreases depth,
{
    let x = base(h, a);
    let y = base(h, b);
    match (x, y) {
        (Value::List(_), Value::List(_)) | (Value::Tuple(_), Value::Tuple(_)) => {
            let s = items_of(h, x);
            let t = items_of(h, y);
            if x != y {
                assert forall|i: int| 0 <= i < t.len() implies equal_to(
                    h,
                    #[trigger] t[i],
                    s[i],
                    (depth - 1) as nat,
                ) by {
                    assert(equal_to(h, s[i], t[i], (depth - 1) as nat));
                    lemma_equal_to_back(h, s[i], t[i], (depth - 1) as nat);
                }
            }
        },
        (Value::Dict(m), Value::Dict(n)) => {
            let s = h.dict(m);
            let t = h.dict(n);
            if m != n {
                assert forall|k: int| 0 <= k < t.len() implies dict_get(h, s, (#[trigger] t[k]).key) is Some
                    && equal_to(
                    h,
                    t[k].value,
                    dict_get(h, s, t[k].key)->0,
                    (depth - 1) as nat,
                ) by {
                    let i = lemma_keys_back(h, s, t, k);
                    assert(equal_to(
                        h,
                        s[i].value,
                        dict_get(h, t, s[i].key)->0,
                        (depth - 1) as nat,
                    ));
                    assert(dicts_sound(h, s[i].value, (depth - 1) as nat));
                    assert(dicts_sound(h, t[k].value, (depth - 1) as nat));
                    lemma_equal_to_back(h, s[i].value, t[k].value, (depth - 1) as nat);
                }
            }
        },
        _ => {},
    }
}

// -- laws -------------------------------------------------------------------------------------

/// Where values hold no cycle and no class of theirs, or of what they hold, answers `==`,
/// comparing them either way round succeeds, answers whether they hold the same, and changes
/// nothing.
pub proof fn law_equality_goes_both_ways(f: nat, st: St, a: Value, b: Value, depth: nat, width: nat)
    requires
        comparable(st.heap, a, depth, width),
        comparable(st.heap, b, depth, width),
        f >= steps(depth, width),
    ensures
        s_equals(f, st, a, b) == (st, Ok::<bool, ErrV>(equal_to(st.heap, a, b, depth))),
        s_equals(f, st, b, a) == s_equals(f, st, a, b),
{
    lemma_equals(f, st, a, b, depth, width);
    lemma_equals(f, st, b, a, depth, width);
    if equal_to(st.heap, a, b, depth) {
        lemma_equal_to_back(st.heap, a, b, depth);
    }
    if equal_to(st.heap, b, a, depth) {
        lemma_equal_to_back(st.heap, b, a, depth);
    }
}

/// A list and a tuple are never equal, nor is a dict equal to either.
pub proof fn law_containers_of_two_kinds_are_never_equal(h: HeapV, a: Value, b: Value, depth: nat)
    requires
        base(h, a) is List || base(h, a) is Tuple || base(h, a) is Dict,
        base(h, b) is List || base(h, b) is Tuple || base(h, b) is Dict,
        base(h, a) is List != base(h, b) is List || base(h, a) is Tuple != base(h, b) is Tuple,
    ensures
        !equal_to(h, a, b, depth),
{
}

/// Equal dicts have the same keys, and equal values under each of them.
pub proof fn law_equal_dicts_hold_the_same(h: HeapV, a: Value, b: Value, depth: nat, key: Value)
    requires
        base(h, a) is Dict,
        base(h, b) is Dict,
        base(h, a) != base(h, b),
        dicts_sound(h, a, depth),
        dicts_sound(h, b, depth),
        equal_to(h, a, b, depth),
    ensures
        ({
            let s = h.dict(base(h, a)->Dict_0);
            let t = h.dict(base(h, b)->Dict_0);
            &&& dict_get(h, s, key) is Some <==> dict_get(h, t, key) is Some
            &&& dict_get(h, s, key) is Some ==> equal_to(
                h,
                dict_get(h, s, key)->0,
                dict_get(h, t, key)->0,
                (depth - 1) as nat,
            )
        }),
{
    let s = h.dict(base(h, a)->Dict_0);
    let t = h.dict(base(h, b)->Dict_0);
    lemma_key_place(h, s, key, 0);
    lemma_key_place(h, t, key, 0);
    if let Some(i) = key_place(h, s, key, 0) {
        assert(dict_get(h, t, s[i].key) is Some);
        lemma_key_place(h, t, s[i].key, 0);
        let k = key_place(h, t, s[i].key, 0)->0;
        lemma_found(h, t, key, k);
    }
    if let Some(k) = key_place(h, t, key, 0) {
        let i = lemma_keys_back(h, s, t, k);
        lemma_key_place(h, s, t[k].key, 0);
        lemma_found(h, s, key, i);
    }
}

} // verus!
