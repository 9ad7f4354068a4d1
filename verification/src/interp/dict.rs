//! Dict keys: which values may be keys, when two are the same key, and what reading
//! and writing under one does.

use crate::error::{err, err_help, ErrV, ErrorKind, QuinceError};
use crate::float::{exact_int, is_nan, nan, rank, rank_of, to_exact_int};
use crate::interp::error::{helped_type_error, plain_type_error};
use crate::runtime::class::{base, slot_of, type_text};
use crate::runtime::heap::{Heap, HeapV};
use crate::runtime::object::{Entry, ObjV, Object};
use crate::runtime::value::{ObjId, Value};
use crate::syntax::ast::Op;
use crate::syntax::token::Span;
use crate::text::cat3;
use vstd::prelude::*;

verus! {

/// The key a value is filed under. A class that decides for itself what equals it
/// gives up being a key, and so does everything compared by identity, and NaN.
pub open spec fn s_key_of(h: HeapV, v: Value, span: Span) -> Result<Value, ErrV> {
    if slot_of(h, v, Op::Eq) is Some {
        Err(
            err_help(
                ErrorKind::Type,
                "a "@ + type_text(h, v)
                    + " cannot be a dict key, because its `op eq` decides what equals it"@,
                span,
                "a dict finds a key by its contents alone and cannot run `op eq`, so two keys the class calls equal would be filed apart"@,
            ),
        )
    } else {
        match base(h, v) {
            Value::Nil => Ok(Value::Nil),
            Value::Bool(b) => Ok(Value::Bool(b)),
            Value::Int(n) => Ok(Value::Int(n)),
            Value::Float(bits) => if is_nan(bits) {
                Err(
                    err(
                        ErrorKind::Type,
                        "NaN cannot be a dict key, because it is not equal to itself"@,
                        span,
                    ),
                )
            } else {
                Ok(Value::Float(bits))
            },
            Value::Str(id) => Ok(Value::Str(id)),
            _ => Err(
                err(
                    ErrorKind::Type,
                    "a "@ + type_text(h, v)
                        + " cannot be a dict key, because it is compared by identity"@,
                    span,
                ),
            ),
        }
    }
}

/// What a dict files a key under, which holds no handle: a number by its exact value, whether
/// it is an int or a float, and a text by its characters.
pub enum KeyV {
    Nil,
    Bool(bool),
    Int(int),
    /// The place, in the order of numbers, of one that no int is.
    Float(int),
    Text(Seq<char>),
    /// What cannot be a key.
    Nothing,
}

pub open spec fn filed(h: HeapV, v: Value) -> KeyV {
    match v {
        Value::Nil => KeyV::Nil,
        Value::Bool(b) => KeyV::Bool(b),
        Value::Int(n) => KeyV::Int(n as int),
        Value::Float(bits) => if is_nan(bits) {
            KeyV::Nothing
        } else {
            match exact_int(bits) {
                Some(n) => KeyV::Int(n),
                None => KeyV::Float(rank(bits)),
            }
        },
        Value::Str(id) => KeyV::Text(h.text(id)),
        _ => KeyV::Nothing,
    }
}

/// Whether two keys are the same: a dict files them under one thing.
pub open spec fn same_key(h: HeapV, a: Value, b: Value) -> bool {
    filed(h, a) != KeyV::Nothing && filed(h, a) == filed(h, b)
}

/// Where a key stands among entries.
pub open spec fn key_place(h: HeapV, s: Seq<Entry>, key: Value, from: int) -> Option<int>
    decreases s.len() - from,
{
    if from < 0 || from >= s.len() {
        None
    } else if same_key(h, s[from].key, key) {
        Some(from)
    } else {
        key_place(h, s, key, from + 1)
    }
}

/// The value under a key.
pub open spec fn dict_get(h: HeapV, s: Seq<Entry>, key: Value) -> Option<Value> {
    match key_place(h, s, key, 0) {
        Some(i) => Some(s[i].value),
        None => None,
    }
}

/// The entries with a key set: an equal key keeps its place, a new one goes last.
pub open spec fn dict_put(h: HeapV, s: Seq<Entry>, key: Value, value: Value) -> Seq<Entry> {
    match key_place(h, s, key, 0) {
        Some(i) => s.update(i, Entry { value, ..s[i] }),
        None => s.push(Entry { key, value }),
    }
}

/// The entries without a key.
pub open spec fn dict_without(h: HeapV, s: Seq<Entry>, key: Value) -> Seq<Entry> {
    match key_place(h, s, key, 0) {
        Some(i) => s.remove(i),
        None => s,
    }
}

/// The heap with a key of a dict set.
pub open spec fn entry_put(h: HeapV, id: ObjId, key: Value, value: Value) -> HeapV {
    h.with_object(id, ObjV::Dict(dict_put(h, h.dict(id), key, value)))
}

/// The keys of entries, in order.
pub open spec fn keys_of(s: Seq<Entry>) -> Seq<Value> {
    Seq::new(s.len(), |i: int| s[i].key)
}

/// The values of entries, in order.
pub open spec fn values_in(s: Seq<Entry>) -> Seq<Value> {
    Seq::new(s.len(), |i: int| s[i].value)
}

/// [`s_key_of`], decided.
pub fn key_of(heap: &Heap, v: Value, span: Span) -> (r: Result<Value, QuinceError>)
    ensures
        crate::error::res(r) == s_key_of(heap@, v, span),
{
    if heap.slot_of(v, Op::Eq).is_some() {
        let kind = heap.type_text(v);
        return Err(
            helped_type_error(
                cat3(
                    "a ",
                    kind.as_str(),
                    " cannot be a dict key, because its `op eq` decides what equals it",
                ),
                span,
                "a dict finds a key by its contents alone and cannot run `op eq`, so two keys the class calls equal would be filed apart",
            ),
        );
    }
    match heap.base(v) {
        Value::Nil => Ok(Value::Nil),
        Value::Bool(b) => Ok(Value::Bool(b)),
        Value::Int(n) => Ok(Value::Int(n)),
        Value::Float(bits) => if nan(bits) {
            Err(
                plain_type_error(
                    "NaN cannot be a dict key, because it is not equal to itself".to_owned(),
                    span,
                ),
            )
        } else {
            Ok(Value::Float(bits))
        },
        Value::Str(id) => Ok(Value::Str(id)),
        _ => {
            let kind = heap.type_text(v);
            Err(
                plain_type_error(
                    cat3(
                        "a ",
                        kind.as_str(),
                        " cannot be a dict key, because it is compared by identity",
                    ),
                    span,
                ),
            )
        },
    }
}

fn keys_same(heap: &Heap, a: Value, b: Value) -> (r: bool)
    ensures
        r == same_key(heap@, a, b),
{
    match (a, b) {
        (Value::Nil, Value::Nil) => true,
        (Value::Bool(x), Value::Bool(y)) => x == y,
        (Value::Int(x), Value::Int(y)) => x == y,
        (Value::Float(x), Value::Float(y)) => {
            if nan(x) || nan(y) {
                return false;
            }
            match (to_exact_int(x), to_exact_int(y)) {
                (Some(m), Some(n)) => m == n,
                (None, None) => rank_of(x) == rank_of(y),
                _ => false,
            }
        },
        (Value::Int(x), Value::Float(y)) => to_exact_int(y) == Some(x),
        (Value::Float(x), Value::Int(y)) => to_exact_int(x) == Some(y),
        (Value::Str(x), Value::Str(y)) => {
            let left = heap.text(x);
            let right = heap.text(y);
            left == right
        },
        _ => false,
    }
}

/// [`key_place`], computed.
pub fn find_key(heap: &Heap, s: &Vec<Entry>, key: Value) -> (r: Option<usize>)
    ensures
        match r {
            Some(i) => key_place(heap@, s@, key, 0) == Some(i as int) && i < s@.len(),
            None => key_place(heap@, s@, key, 0) is None,
        },
{
    let mut i: usize = 0;
    while i < s.len()
        invariant
            i <= s@.len(),
            key_place(heap@, s@, key, 0) == key_place(heap@, s@, key, i as int),
        decreases s@.len() - i,
    {
        if keys_same(heap, s[i].key, key) {
            return Some(i);
        }
        i += 1;
    }
    None
}

/// [`dict_put`], computed.
pub fn put_entry(heap: &Heap, s: &mut Vec<Entry>, key: Value, value: Value)
    ensures
        final(s)@ == dict_put(heap@, old(s)@, key, value),
{
    match find_key(heap, s, key) {
        Some(i) => {
            let kept: Value = s[i].key;
            s[i] = Entry { key: kept, value };
        },
        None => {
            s.push(Entry { key, value });
        },
    }
}

/// [`keys_of`], computed.
pub fn entry_keys(s: &Vec<Entry>) -> (r: Vec<Value>)
    ensures
        r@ == keys_of(s@),
{
    let mut r: Vec<Value> = Vec::new();
    let mut i: usize = 0;
    while i < s.len()
        invariant
            i <= s@.len(),
            r@ == keys_of(s@).take(i as int),
        decreases s@.len() - i,
    {
        r.push(s[i].key);
        assert(r@ =~= keys_of(s@).take(i + 1));
        i += 1;
    }
    assert(r@ =~= keys_of(s@));
    r
}

/// [`values_in`], computed.
pub fn entry_values(s: &Vec<Entry>) -> (r: Vec<Value>)
    ensures
        r@ == values_in(s@),
{
    let mut r: Vec<Value> = Vec::new();
    let mut i: usize = 0;
    while i < s.len()
        invariant
            i <= s@.len(),
            r@ == values_in(s@).take(i as int),
        decreases s@.len() - i,
    {
        r.push(s[i].value);
        assert(r@ =~= values_in(s@).take(i + 1));
        i += 1;
    }
    assert(r@ =~= values_in(s@));
    r
}

impl Heap {
    /// The value a dict holds under a key.
    pub fn dict_get(&self, id: ObjId, key: Value) -> (r: Option<Value>)
        ensures
            r == dict_get(self@, self@.dict(id), key),
    {
        let s = self.dict(id);
        match find_key(self, &s, key) {
            Some(i) => Some(s[i].value),
            None => None,
        }
    }

    /// Sets a key of a dict.
    pub fn dict_put(&mut self, id: ObjId, key: Value, value: Value)
        ensures
            final(self)@ == entry_put(old(self)@, id, key, value),
    {
        let mut s = self.dict(id);
        put_entry(self, &mut s, key, value);
        self.set_object(id, Object::Dict(s));
    }
}

pub(crate) proof fn lemma_key_place(h: HeapV, s: Seq<Entry>, key: Value, from: int)
    requires
        0 <= from,
    ensures
        match key_place(h, s, key, from) {
            Some(i) => from <= i < s.len() && same_key(h, s[i].key, key) && forall|j: int|
                from <= j < i ==> !same_key(h, #[trigger] s[j].key, key),
            None => forall|j: int| from <= j < s.len() ==> !same_key(h, #[trigger] s[j].key, key),
        },
    decreases s.len() - from,
{
    if from < s.len() && !same_key(h, s[from].key, key) {
        lemma_key_place(h, s, key, from + 1);
    }
}

proof fn lemma_place_by_keys(h: HeapV, s: Seq<Entry>, t: Seq<Entry>, key: Value, from: int)
    requires
        s.len() == t.len(),
        forall|j: int| 0 <= j < s.len() ==> (#[trigger] s[j]).key == t[j].key,
    ensures
        key_place(h, s, key, from) == key_place(h, t, key, from),
    decreases s.len() - from,
{
    if 0 <= from < s.len() {
        lemma_place_by_keys(h, s, t, key, from + 1);
    }
}

proof fn lemma_new_place(h: HeapV, s: Seq<Entry>, e: Entry, from: int)
    requires
        0 <= from <= s.len(),
        same_key(h, e.key, e.key),
        forall|j: int| from <= j < s.len() ==> !same_key(h, #[trigger] s[j].key, e.key),
    ensures
        key_place(h, s.push(e), e.key, from) == Some(s.len() as int),
    decreases s.len() - from,
{
    if from < s.len() {
        assert(s.push(e)[from] == s[from]);
        assert(!same_key(h, s[from].key, e.key));
        lemma_new_place(h, s, e, from + 1);
    }
}

/// A dict gives back, under a key, the value that was last put under it.
pub proof fn law_a_dict_gives_back_what_was_put(h: HeapV, s: Seq<Entry>, key: Value, value: Value)
    requires
        same_key(h, key, key),
    ensures
        dict_get(h, dict_put(h, s, key, value), key) == Some(value),
{
    lemma_key_place(h, s, key, 0);
    match key_place(h, s, key, 0) {
        Some(i) => {
            let t = s.update(i, Entry { value, ..s[i] });
            lemma_place_by_keys(h, s, t, key, 0);
        },
        None => {
            lemma_new_place(h, s, Entry { key, value }, 0);
        },
    }
}

/// Putting under a key that is there makes no second entry.
pub proof fn law_an_equal_key_makes_no_second_entry(
    h: HeapV,
    s: Seq<Entry>,
    key: Value,
    value: Value,
)
    requires
        key_place(h, s, key, 0) is Some,
    ensures
        dict_put(h, s, key, value).len() == s.len(),
{
    lemma_key_place(h, s, key, 0);
}

/// Every value that may be a key is the same key as itself.
pub proof fn law_a_key_is_itself(h: HeapV, v: Value, span: Span)
    requires
        s_key_of(h, v, span) is Ok,
    ensures
        same_key(h, s_key_of(h, v, span)->Ok_0, s_key_of(h, v, span)->Ok_0),
{
}

/// Being the same key is an equivalence: it goes both ways, and on from one key to the next.
pub proof fn law_same_keys_are_an_equivalence(h: HeapV, a: Value, b: Value, c: Value)
    ensures
        same_key(h, a, b) == same_key(h, b, a),
        same_key(h, a, b) && same_key(h, b, c) ==> same_key(h, a, c),
        same_key(h, a, b) ==> same_key(h, a, a),
{
}

/// An int and a float are one key just where the float is exactly that int.
pub proof fn law_a_float_is_the_key_of_the_int_it_is(h: HeapV, n: i64, bits: u64)
    ensures
        same_key(h, Value::Int(n), Value::Float(bits)) <==> exact_int(bits) == Some(n as int),
{
}

/// Whether each key of a dict stands in it once, and can be a key: what every dict keeps.
pub open spec fn keys_stand_once(h: HeapV, s: Seq<Entry>) -> bool {
    &&& forall|i: int| 0 <= i < s.len() ==> same_key(h, (#[trigger] s[i]).key, s[i].key)
    &&& forall|i: int, j: int|
        0 <= i < j < s.len() ==> !same_key(h, (#[trigger] s[i]).key, (#[trigger] s[j]).key)
}

/// Putting a value under a key keeps each key standing once.
pub proof fn law_putting_keeps_keys_standing_once(h: HeapV, s: Seq<Entry>, key: Value, value: Value)
    requires
        keys_stand_once(h, s),
        same_key(h, key, key),
    ensures
        keys_stand_once(h, dict_put(h, s, key, value)),
{
    lemma_key_place(h, s, key, 0);
    let t = dict_put(h, s, key, value);
    match key_place(h, s, key, 0) {
        Some(at) => {
            assert forall|i: int| 0 <= i < t.len() implies (#[trigger] t[i]).key == s[i].key by {}
        },
        None => {
            assert forall|i: int, j: int| 0 <= i < j < t.len() implies !same_key(
                h,
                (#[trigger] t[i]).key,
                (#[trigger] t[j]).key,
            ) by {
                assert(t[i] == s[i]);
                if j < s.len() {
                    assert(t[j] == s[j]);
                } else {
                    assert(!same_key(h, s[i].key, key));
                }
            }
        },
    }
}

/// Taking a key away keeps each of the others standing once, and the key is gone.
pub proof fn law_taking_away_keeps_keys_standing_once(h: HeapV, s: Seq<Entry>, key: Value)
    requires
        keys_stand_once(h, s),
    ensures
        keys_stand_once(h, dict_without(h, s, key)),
        dict_get(h, dict_without(h, s, key), key) is None,
{
    lemma_key_place(h, s, key, 0);
    let t = dict_without(h, s, key);
    lemma_key_place(h, t, key, 0);
    if let Some(at) = key_place(h, s, key, 0) {
        assert forall|i: int| 0 <= i < t.len() implies #[trigger] t[i] == s[if i < at { i } else { i + 1 }] by {}
        if let Some(found) = key_place(h, t, key, 0) {
            let k = if found < at { found } else { found + 1 };
            assert(t[found] == s[k]);
            assert(same_key(h, s[k].key, s[at].key));
        }
    }
}

/// An empty dict has no key twice.
pub proof fn law_an_empty_dict_has_no_key_twice(h: HeapV)
    ensures
        keys_stand_once(h, Seq::empty()),
{
}

/// Putting a value under a key leaves what every other key holds.
pub proof fn law_putting_leaves_the_other_keys(h: HeapV, s: Seq<Entry>, key: Value, value: Value, other: Value)
    requires
        !same_key(h, key, other),
    ensures
        dict_get(h, dict_put(h, s, key, value), other) == dict_get(h, s, other),
{
    lemma_key_place(h, s, key, 0);
    lemma_key_place(h, s, other, 0);
    match key_place(h, s, key, 0) {
        Some(i) => {
            let t = s.update(i, Entry { value, ..s[i] });
            lemma_place_by_keys(h, s, t, other, 0);
            if key_place(h, s, other, 0) == Some(i) {
                assert(same_key(h, s[i].key, key) && same_key(h, s[i].key, other));
            }
        },
        None => {
            lemma_no_new_place(h, s, Entry { key, value }, other, 0);
        },
    }
}

proof fn lemma_no_new_place(h: HeapV, s: Seq<Entry>, e: Entry, other: Value, from: int)
    requires
        0 <= from <= s.len(),
        !same_key(h, e.key, other),
    ensures
        key_place(h, s.push(e), other, from) == key_place(h, s, other, from),
    decreases s.len() - from,
{
    if from < s.len() {
        assert(s.push(e)[from] == s[from]);
        lemma_no_new_place(h, s, e, other, from + 1);
    } else {
        assert(s.push(e)[from] == e);
        assert(key_place(h, s.push(e), other, from + 1) is None);
    }
}

/// Putting a value under a new key adds an entry behind the others; under a key that is there it
/// keeps every entry in its place, and each key as it was.
pub proof fn law_putting_keeps_the_order(h: HeapV, s: Seq<Entry>, key: Value, value: Value)
    ensures
        ({
            let t = dict_put(h, s, key, value);
            &&& s.len() <= t.len() <= s.len() + 1
            &&& forall|i: int| 0 <= i < s.len() ==> (#[trigger] t[i]).key == s[i].key
            &&& dict_get(h, s, key) is None ==> t.len() == s.len() + 1 && t.last() == (Entry { key, value })
            &&& dict_get(h, s, key) is Some ==> t.len() == s.len()
        }),
{
    lemma_key_place(h, s, key, 0);
}

/// Taking a key away leaves what every other key holds.
pub proof fn law_taking_away_leaves_the_other_keys(h: HeapV, s: Seq<Entry>, key: Value, other: Value)
    requires
        keys_stand_once(h, s),
        !same_key(h, key, other),
    ensures
        dict_get(h, dict_without(h, s, key), other) == dict_get(h, s, other),
{
    lemma_key_place(h, s, key, 0);
    lemma_key_place(h, s, other, 0);
    let t = dict_without(h, s, key);
    lemma_key_place(h, t, other, 0);
    if let Some(at) = key_place(h, s, key, 0) {
        assert forall|i: int| 0 <= i < t.len() implies #[trigger] t[i] == s[if i < at { i } else { i + 1 }] by {}
        if let Some(found) = key_place(h, t, other, 0) {
            let k = if found < at { found } else { found + 1 };
            assert(t[found] == s[k]);
            let first = key_place(h, s, other, 0)->0;
            assert(key_place(h, s, other, 0) is Some) by {
                assert(same_key(h, s[k].key, other));
            }
            if first < k {
                assert(same_key(h, s[first].key, s[k].key));
            } else if k < first {
                assert(same_key(h, s[k].key, s[first].key));
            }
        } else if let Some(first) = key_place(h, s, other, 0) {
            assert(first != at);
            let k = if first < at { first } else { first - 1 };
            assert(t[k] == s[first]);
        }
    }
}

} // verus!
