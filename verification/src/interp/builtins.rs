//! What the builtin functions and methods are for.

use crate::error::{ErrV, ErrorKind};
use crate::interp::call::s_call_native;
use crate::interp::dict::{dict_get, keys_stand_once, lemma_key_place, s_key_of, same_key};
use crate::interp::native::{int_text, s_char_texts, s_plain_native, s_texts};
use crate::interp::ops::s_is_truthy;
use crate::interp::show::{s_display, Ask};
use crate::interp::sound::sound;
use crate::interp::state::St;
use crate::runtime::class::{base, type_text};
use crate::runtime::heap::{law_a_new_object_moves_nothing, HeapV};
use crate::runtime::object::ObjV;
use crate::runtime::value::{Native, ObjId, Value};
use crate::syntax::lexer::{digits_end, digits_value, is_digit, token_at};
use crate::syntax::token::{Span, TokenKindV};
use crate::text::{
    contains, decimal, digit, digits, found, joined, lemma_found, lowercase, pieces, stands_at,
    uppercase,
};
use vstd::prelude::*;

verus! {

// -- showing ----------------------------------------------------------------------------------

/// `print` writes what its argument displays as and a line break behind what was printed
/// before, does nothing else, and gives nil.
pub proof fn law_print_writes_a_line(f: nat, st: St, v: Value, span: Span, st1: St, text: Seq<char>)
    requires
        s_display(f, st, v, false, Ask::Class) == (st1, Ok::<Seq<char>, ErrV>(text)),
    ensures
        ({
            let (after, r) = s_call_native(f + 1, st, Native::Print, seq![v], span);
            &&& r == Ok::<Value, ErrV>(Value::Nil)
            &&& after.out == st1.out + text.push('\n')
            &&& after.heap == st1.heap
            &&& after.input == st1.input
            &&& after.files == st1.files
        }),
{
    reveal_strlit("\n");
    let after = s_call_native(f + 1, st, Native::Print, seq![v], span).0;
    assert(after.out =~= st1.out + text.push('\n'));
}

/// `string` makes a new text of what its argument displays as.
pub proof fn law_string_is_what_is_displayed(f: nat, st: St, v: Value, span: Span, st1: St, text: Seq<char>)
    requires
        s_display(f, st, v, false, Ask::Class) == (st1, Ok::<Seq<char>, ErrV>(text)),
        sound(st1.heap, st1.globals),
        st1.heap.cells.len() < usize::MAX,
    ensures
        ({
            let (after, r) = s_call_native(f + 1, st, Native::ToStr, seq![v], span);
            &&& r is Ok
            &&& r->Ok_0 is Str
            &&& after.heap.text(r->Ok_0->Str_0) == text
            &&& after.out == st1.out
        }),
{
    law_a_new_object_moves_nothing(st1.heap, ObjV::Str(text));
    let after = s_call_native(f + 1, st, Native::ToStr, seq![v], span).0;
    assert(after.heap == st1.heap.with_new(ObjV::Str(text)));
    assert(after.heap.obj(st1.heap.next_id()) == Some(ObjV::Str(text)));
}

/// `bool` is whether its argument counts as true.
pub proof fn law_bool_is_whether_it_counts_as_true(f: nat, st: St, v: Value, span: Span, st1: St, b: bool)
    requires
        s_is_truthy(f, st, v) == (st1, Ok::<bool, ErrV>(b)),
    ensures
        s_call_native(f + 1, st, Native::ToBool, seq![v], span) == (st1, Ok::<Value, ErrV>(Value::Bool(b))),
{
}

/// `type` is a new text that names the type of its argument.
pub proof fn law_type_names_the_type(f: nat, st: St, v: Value, span: Span)
    requires
        sound(st.heap, st.globals),
        st.heap.cells.len() < usize::MAX,
    ensures
        ({
            let (after, r) = s_call_native(f + 1, st, Native::Type, seq![v], span);
            &&& r is Ok
            &&& r->Ok_0 is Str
            &&& after.heap.text(r->Ok_0->Str_0) == type_text(st.heap, v)
            &&& after.out == st.out
        }),
{
    let made = ObjV::Str(type_text(st.heap, v));
    law_a_new_object_moves_nothing(st.heap, made);
    let after = s_call_native(f + 1, st, Native::Type, seq![v], span).0;
    assert(after.heap == st.heap.with_new(made));
    assert(after.heap.obj(st.heap.next_id()) == Some(made));
}

/// `len` is how many characters a text has, how many items a list or a tuple holds, and how many
/// entries a dict has; nothing else has a length. It changes nothing.
pub proof fn law_len_counts_what_is_held(f: nat, st: St, v: Value, span: Span)
    ensures
        ({
            let (after, r) = s_call_native(f + 1, st, Native::Len, seq![v], span);
            let held = base(st.heap, v);
            &&& after == st
            &&& held is Str ==> r == Ok::<Value, ErrV>(Value::Int(st.heap.text(held->Str_0).len() as i64))
            &&& held is List ==> r == Ok::<Value, ErrV>(Value::Int(st.heap.list(held->List_0).len() as i64))
            &&& held is Tuple ==> r == Ok::<Value, ErrV>(Value::Int(st.heap.tuple(held->Tuple_0).len() as i64))
            &&& held is Dict ==> r == Ok::<Value, ErrV>(Value::Int(st.heap.dict(held->Dict_0).len() as i64))
            &&& !(held is Str || held is List || held is Tuple || held is Dict) ==> r is Err && r->Err_0.kind
                == ErrorKind::Type
        }),
{
}

// -- numbers ------------------------------------------------------------------------------------

proof fn lemma_digits(n: nat)
    ensures
        digits(n).len() > 0,
        forall|i: int| 0 <= i < digits(n).len() ==> is_digit(#[trigger] digits(n)[i]),
    decreases n,
{
    if n >= 10 {
        lemma_digits(n / 10);
    }
}

proof fn lemma_digits_end(cs: Seq<char>, i: int)
    requires
        0 <= i <= cs.len(),
        forall|k: int| i <= k < cs.len() ==> is_digit(#[trigger] cs[k]),
    ensures
        digits_end(cs, i) == cs.len(),
    decreases cs.len() - i,
{
    if i < cs.len() {
        lemma_digits_end(cs, i + 1);
    }
}

proof fn lemma_value_by_digits(a: Seq<char>, b: Seq<char>, i: int, j: int)
    requires
        0 <= i,
        j <= a.len(),
        j <= b.len(),
        forall|k: int| i <= k < j ==> a[k] == b[k],
    ensures
        digits_value(a, i, j) == digits_value(b, i, j),
    decreases j - i,
{
    if j > i {
        lemma_value_by_digits(a, b, i, j - 1);
    }
}

/// The digits of a number are worth the number, wherever they stand.
proof fn lemma_digits_value(front: Seq<char>, n: nat)
    ensures
        digits_value(front + digits(n), front.len() as int, (front + digits(n)).len() as int) == n,
    decreases n,
{
    let cs = front + digits(n);
    let j = cs.len() as int;
    let i = front.len() as int;
    if n < 10 {
        assert(cs[j - 1] == digit(n));
        assert(digits_value(cs, i, j - 1) == 0);
    } else {
        lemma_digits_value(front, n / 10);
        let fewer = front + digits(n / 10);
        assert(cs[j - 1] == digit(n % 10));
        assert(fewer.len() == j - 1);
        assert forall|k: int| i <= k < j - 1 implies cs[k] == fewer[k] by {
            assert(digits(n)[k - i] == digits(n / 10)[k - i]);
        }
        lemma_value_by_digits(cs, fewer, i, j - 1);
    }
}

/// The decimal digits of a number that 64 bits hold, read as a program, are that number.
pub proof fn law_the_digits_of_an_int_are_read_back(n: nat)
    requires
        n <= i64::MAX,
    ensures
        token_at(digits(n), 0) == Ok::<(TokenKindV, int), ErrV>(
            (TokenKindV::Int(n as i64), digits(n).len() as int),
        ),
{
    let cs = digits(n);
    lemma_digits(n);
    lemma_digits_end(cs, 0);
    lemma_digits_value(Seq::empty(), n);
    assert(Seq::<char>::empty() + cs =~= cs);
    assert(is_digit(cs[0]));
}

/// `int` of the text an int displays as is that int: reading undoes writing.
pub proof fn law_int_undoes_string(n: i64)
    requires
        n > i64::MIN,
    ensures
        int_text(decimal(n as int)) == Some(n),
{
    let m = if n < 0 {
        (-n) as nat
    } else {
        n as nat
    };
    let front = if n < 0 {
        seq!['-']
    } else {
        Seq::empty()
    };
    let cs = decimal(n as int);
    assert(cs =~= front + digits(m));
    lemma_digits(m);
    let from = front.len() as int;
    assert forall|k: int| from <= k < cs.len() implies is_digit(#[trigger] cs[k]) by {
        assert(cs[k] == digits(m)[k - from]);
    }
    lemma_digits_end(cs, from);
    lemma_digits_value(front, m);
    assert(is_digit(cs[from]));
}

/// `int` of an int is that int, of a bool one or zero, and of a float that is an int that int.
pub proof fn law_int_keeps_an_int(f: nat, st: St, v: Value, span: Span)
    ensures
        ({
            let (after, r) = s_call_native(f + 1, st, Native::ToInt, seq![v], span);
            let held = base(st.heap, v);
            &&& after == st
            &&& held is Int ==> r == Ok::<Value, ErrV>(held)
            &&& held == Value::Bool(true) ==> r == Ok::<Value, ErrV>(Value::Int(1))
            &&& held == Value::Bool(false) ==> r == Ok::<Value, ErrV>(Value::Int(0))
            &&& held is Float && crate::float::exact_int(held->Float_0) is Some ==> r is Ok && r->Ok_0 is Int
                && r->Ok_0->Int_0 == crate::float::exact_int(held->Float_0)->0
            &&& held is Nil || held is List || held is Dict ==> r is Err && r->Err_0.kind == ErrorKind::Type
        }),
{
}

/// `abs` of an int is never negative and is the int or what it adds up to zero with; `floor` of
/// an int is the int. Neither changes anything.
pub proof fn law_abs_and_floor_of_an_int(f: nat, st: St, v: Value, n: i64, span: Span)
    requires
        base(st.heap, v) == Value::Int(n),
    ensures
        ({
            let (s1, abs) = s_call_native(f + 1, st, Native::Abs, seq![v], span);
            let (s2, floor) = s_call_native(f + 1, st, Native::Floor, seq![v], span);
            &&& s1 == st && s2 == st
            &&& floor == Ok::<Value, ErrV>(Value::Int(n))
            &&& n == i64::MIN ==> abs is Err && abs->Err_0.kind == ErrorKind::Overflow
            &&& n != i64::MIN ==> abs is Ok && abs->Ok_0 is Int && abs->Ok_0->Int_0 >= 0 && (abs->Ok_0->Int_0 == n
                || abs->Ok_0->Int_0 + n == 0)
        }),
{
    assert(s_call_native(f + 1, st, Native::Abs, seq![v], span) == s_plain_native(
        st,
        Native::Abs,
        seq![v],
        span,
    ));
    assert(s_call_native(f + 1, st, Native::Floor, seq![v], span) == s_plain_native(
        st,
        Native::Floor,
        seq![v],
        span,
    ));
}

// -- lists ----------------------------------------------------------------------------------------

/// `push` adds the item at the end, keeps the items that were there, gives nil, and changes no
/// other object.
pub proof fn law_push_adds_at_the_end(f: nat, st: St, target: Value, id: ObjId, item: Value, span: Span)
    requires
        base(st.heap, target) == Value::List(id),
        st.heap.obj(id) is Some,
        st.heap.obj(id)->0 is List,
        st.heap.descriptor(id) is None,
        !st.heap.frozen(id),
    ensures
        ({
            let (after, r) = s_call_native(f + 1, st, Native::Push, seq![target, item], span);
            let s = st.heap.list(id);
            let t = after.heap.list(id);
            &&& r == Ok::<Value, ErrV>(Value::Nil)
            &&& t.len() == s.len() + 1
            &&& t.last() == item
            &&& forall|i: int| 0 <= i < s.len() ==> #[trigger] t[i] == s[i]
            &&& after.out == st.out
            &&& forall|other: ObjId| other != id ==> #[trigger] after.heap.cell(other) == st.heap.cell(other)
        }),
{
}

/// `pop` gives the last item and takes it away, and keeps the others; an empty list has none.
pub proof fn law_pop_takes_the_last(f: nat, st: St, target: Value, id: ObjId, span: Span)
    requires
        base(st.heap, target) == Value::List(id),
        st.heap.obj(id) is Some,
        st.heap.obj(id)->0 is List,
        !st.heap.frozen(id),
    ensures
        ({
            let (after, r) = s_call_native(f + 1, st, Native::Pop, seq![target], span);
            let s = st.heap.list(id);
            let t = after.heap.list(id);
            &&& s.len() == 0 ==> after == st && r is Err && r->Err_0.kind == ErrorKind::Index
            &&& s.len() > 0 ==> {
                &&& r == Ok::<Value, ErrV>(s[s.len() - 1])
                &&& t.len() == s.len() - 1
                &&& forall|i: int| 0 <= i < t.len() ==> #[trigger] t[i] == s[i]
                &&& after.out == st.out
                &&& forall|other: ObjId| other != id ==> #[trigger] after.heap.cell(other) == st.heap.cell(other)
            }
        }),
{
}

/// What a new list made by a builtin is: new, holding these, with everything else as it was.
pub open spec fn new_list(st: St, after: St, r: Result<Value, ErrV>, items: Seq<Value>) -> bool {
    &&& r is Ok
    &&& r->Ok_0 is List
    &&& after.heap.list(r->Ok_0->List_0) == items
    &&& st.heap.cell(r->Ok_0->List_0) is None
    &&& after.out == st.out
    &&& forall|id: ObjId| st.heap.cell(id) is Some ==> #[trigger] after.heap.cell(id) == st.heap.cell(id)
}

proof fn lemma_new_list(st: St, items: Seq<Value>)
    requires
        sound(st.heap, st.globals),
        st.heap.cells.len() < usize::MAX,
    ensures
        ({
            let (after, v) = crate::interp::state::s_list(st, items);
            new_list(st, after, Ok::<Value, ErrV>(v), items)
        }),
{
    law_a_new_object_moves_nothing(st.heap, ObjV::List(items));
    let (after, v) = crate::interp::state::s_list(st, items);
    assert(after.heap.obj(st.heap.next_id()) == Some(ObjV::List(items)));
}

/// `list` copies a list: a new list of the same items. Of a dict it is a new list of its keys.
pub proof fn law_list_copies(f: nat, st: St, v: Value, span: Span)
    requires
        sound(st.heap, st.globals),
        st.heap.cells.len() < usize::MAX,
    ensures
        ({
            let (after, r) = s_call_native(f + 1, st, Native::ToList, seq![v], span);
            let held = base(st.heap, v);
            &&& held is List ==> new_list(st, after, r, st.heap.list(held->List_0))
            &&& held is Tuple ==> new_list(st, after, r, st.heap.tuple(held->Tuple_0))
            &&& held is Dict ==> new_list(
                st,
                after,
                r,
                Seq::new(st.heap.dict(held->Dict_0).len(), |i: int| st.heap.dict(held->Dict_0)[i].key),
            )
            &&& held is Int || held is Nil || held is Bool || held is Float ==> r is Err
        }),
{
    match base(st.heap, v) {
        Value::List(id) => lemma_new_list(st, st.heap.list(id)),
        Value::Tuple(id) => lemma_new_list(st, st.heap.tuple(id)),
        Value::Dict(id) => {
            lemma_new_list(st, crate::interp::dict::keys_of(st.heap.dict(id)));
            assert(crate::interp::dict::keys_of(st.heap.dict(id)) =~= Seq::new(
                st.heap.dict(id).len(),
                |i: int| st.heap.dict(id)[i].key,
            ));
        },
        _ => {},
    }
}

/// Whether values are new texts that read as these.
pub open spec fn read_as(h: HeapV, values: Seq<Value>, texts: Seq<Seq<char>>) -> bool {
    &&& values.len() == texts.len()
    &&& forall|i: int|
        0 <= i < values.len() ==> (#[trigger] values[i]) is Str && h.cell(values[i]->Str_0) is Some && h.text(
            values[i]->Str_0,
        ) == texts[i]
}

proof fn lemma_texts(st: St, texts: Seq<Seq<char>>, i: int, so_far: Seq<Value>)
    requires
        0 <= i <= texts.len(),
        st.heap.tidy(),
        st.heap.cells.len() + texts.len() - i <= usize::MAX,
        read_as(st.heap, so_far, texts.take(i)),
    ensures
        ({
            let (after, values) = s_texts(st, texts, i, so_far);
            &&& read_as(after.heap, values, texts)
            &&& after.heap.tidy()
            &&& after.heap.cells.len() <= st.heap.cells.len() + texts.len() - i
            &&& after.out == st.out
            &&& forall|id: ObjId| st.heap.cell(id) is Some ==> #[trigger] after.heap.cell(id) == st.heap.cell(id)
        }),
    decreases texts.len() - i,
{
    if i < texts.len() {
        let made = ObjV::Str(texts[i]);
        law_a_new_object_moves_nothing(st.heap, made);
        let (st1, v) = crate::interp::state::s_text(st, texts[i]);
        assert(st1.heap.obj(st.heap.next_id()) == Some(made));
        let values = so_far.push(v);
        assert forall|k: int| 0 <= k < values.len() implies (#[trigger] values[k]) is Str && st1.heap.cell(
            values[k]->Str_0,
        ) is Some && st1.heap.text(values[k]->Str_0) == texts.take(i + 1)[k] by {
            if k < so_far.len() {
                assert(values[k] == so_far[k]);
                assert(st1.heap.cell(so_far[k]->Str_0) == st.heap.cell(so_far[k]->Str_0));
                assert(texts.take(i)[k] == texts[k]);
            }
        }
        lemma_texts(st1, texts, i + 1, values);
    } else {
        assert(texts.take(i) =~= texts);
    }
}

proof fn lemma_char_texts(st: St, text: Seq<char>, i: int, so_far: Seq<Value>)
    requires
        0 <= i <= text.len(),
    ensures
        s_char_texts(st, text, i, so_far) == s_texts(
            st,
            Seq::new(text.len(), |k: int| seq![text[k]]),
            i,
            so_far,
        ),
    decreases text.len() - i,
{
    let texts = Seq::new(text.len(), |k: int| seq![text[k]]);
    if i < text.len() {
        let (st1, v) = crate::interp::state::s_text(st, seq![text[i]]);
        assert(texts[i] == seq![text[i]]);
        lemma_char_texts(st1, text, i + 1, so_far.push(v));
    }
}

/// `list` of a text is a new list of new texts, one for each character and in order.
pub proof fn law_list_of_a_text_is_its_characters(f: nat, st: St, v: Value, id: ObjId, span: Span)
    requires
        base(st.heap, v) == Value::Str(id),
        sound(st.heap, st.globals),
        st.heap.cells.len() + st.heap.text(id).len() < usize::MAX,
    ensures
        ({
            let (after, r) = s_call_native(f + 1, st, Native::ToList, seq![v], span);
            let text = st.heap.text(id);
            &&& r is Ok
            &&& r->Ok_0 is List
            &&& read_as(
                after.heap,
                after.heap.list(r->Ok_0->List_0),
                Seq::new(text.len(), |i: int| seq![text[i]]),
            )
        }),
{
    let text = st.heap.text(id);
    let texts = Seq::new(text.len(), |i: int| seq![text[i]]);
    lemma_char_texts(st, text, 0, Seq::empty());
    assert(texts.take(0) =~= Seq::empty());
    lemma_texts(st, texts, 0, Seq::empty());
    let (st1, items) = s_texts(st, texts, 0, Seq::empty());
    lemma_listed(st1, items, texts);
}

/// A new list of texts that are there reads as they do.
proof fn lemma_listed(st: St, items: Seq<Value>, texts: Seq<Seq<char>>)
    requires
        st.heap.tidy(),
        st.heap.cells.len() < usize::MAX,
        read_as(st.heap, items, texts),
    ensures
        ({
            let (after, v) = crate::interp::state::s_list(st, items);
            &&& v is List
            &&& after.heap.list(v->List_0) == items
            &&& read_as(after.heap, items, texts)
        }),
{
    law_a_new_object_moves_nothing(st.heap, ObjV::List(items));
    let (after, v) = crate::interp::state::s_list(st, items);
    assert(after.heap.obj(st.heap.next_id()) == Some(ObjV::List(items)));
    assert forall|k: int| 0 <= k < items.len() implies (#[trigger] items[k]) is Str && after.heap.cell(
        items[k]->Str_0,
    ) is Some && after.heap.text(items[k]->Str_0) == texts[k] by {
        assert(after.heap.cell(items[k]->Str_0) == st.heap.cell(items[k]->Str_0));
    }
}

// -- dicts ------------------------------------------------------------------------------------------

/// `keys` is a new list of the keys and `values` one of the values, both in the order of the
/// entries: the `i`th of one belongs to the `i`th of the other.
pub proof fn law_keys_and_values_go_together(f: nat, st: St, target: Value, id: ObjId, span: Span)
    requires
        base(st.heap, target) == Value::Dict(id),
        sound(st.heap, st.globals),
        st.heap.cells.len() < usize::MAX,
        keys_stand_once(st.heap, st.heap.dict(id)),
    ensures
        ({
            let (s1, keys) = s_call_native(f + 1, st, Native::Keys, seq![target], span);
            let (s2, values) = s_call_native(f + 1, st, Native::Values, seq![target], span);
            let entries = st.heap.dict(id);
            let ks = s1.heap.list(keys->Ok_0->List_0);
            let vs = s2.heap.list(values->Ok_0->List_0);
            &&& keys is Ok && keys->Ok_0 is List
            &&& values is Ok && values->Ok_0 is List
            &&& ks.len() == entries.len() && vs.len() == entries.len()
            &&& forall|i: int|
                0 <= i < entries.len() ==> dict_get(st.heap, entries, #[trigger] ks[i]) == Some(vs[i])
            &&& forall|i: int| 0 <= i < entries.len() ==> #[trigger] ks[i] == entries[i].key
        }),
{
    let entries = st.heap.dict(id);
    lemma_new_list(st, crate::interp::dict::keys_of(entries));
    lemma_new_list(st, crate::interp::dict::values_in(entries));
    let ks = crate::interp::dict::keys_of(entries);
    assert forall|i: int| 0 <= i < entries.len() implies dict_get(st.heap, entries, #[trigger] ks[i]) == Some(
        entries[i].value,
    ) by {
        assert(ks[i] == entries[i].key);
        crate::interp::equality::lemma_found(st.heap, entries, ks[i], i);
    }
}

/// `remove` gives what the dict held under the key and takes that entry away; under every other
/// key the dict holds what it did. A key that is not there is refused.
pub proof fn law_remove_takes_one_entry_away(f: nat, st: St, target: Value, id: ObjId, key: Value, k: Value, span: Span, other: Value)
    requires
        base(st.heap, target) == Value::Dict(id),
        st.heap.obj(id) is Some,
        st.heap.obj(id)->0 is Dict,
        !st.heap.frozen(id),
        s_key_of(st.heap, key, span) == Ok::<Value, ErrV>(k),
        keys_stand_once(st.heap, st.heap.dict(id)),
    ensures
        ({
            let (after, r) = s_call_native(f + 1, st, Native::Remove, seq![target, key], span);
            let s = st.heap.dict(id);
            let t = after.heap.dict(id);
            &&& dict_get(st.heap, s, k) is None ==> after == st && r is Err && r->Err_0.kind == ErrorKind::Key
            &&& dict_get(st.heap, s, k) is Some ==> {
                &&& r == Ok::<Value, ErrV>(dict_get(st.heap, s, k)->0)
                &&& t.len() == s.len() - 1
                &&& dict_get(st.heap, t, k) is None
                &&& !same_key(st.heap, k, other) ==> dict_get(st.heap, t, other) == dict_get(st.heap, s, other)
            }
        }),
{
    let h = st.heap;
    let s = h.dict(id);
    lemma_key_place(h, s, k, 0);
    crate::interp::dict::law_taking_away_keeps_keys_standing_once(h, s, k);
    if !same_key(h, k, other) {
        crate::interp::dict::law_taking_away_leaves_the_other_keys(h, s, k, other);
    }
}

/// `dict` copies a dict: a new one with the same entries.
pub proof fn law_dict_copies(f: nat, st: St, v: Value, id: ObjId, span: Span)
    requires
        base(st.heap, v) == Value::Dict(id),
        sound(st.heap, st.globals),
        st.heap.cells.len() < usize::MAX,
    ensures
        ({
            let (after, r) = s_call_native(f + 1, st, Native::ToDict, seq![v], span);
            &&& r is Ok
            &&& r->Ok_0 is Dict
            &&& after.heap.dict(r->Ok_0->Dict_0) == st.heap.dict(id)
            &&& st.heap.cell(r->Ok_0->Dict_0) is None
            &&& forall|o: ObjId| st.heap.cell(o) is Some ==> #[trigger] after.heap.cell(o) == st.heap.cell(o)
        }),
{
    let made = ObjV::Dict(st.heap.dict(id));
    law_a_new_object_moves_nothing(st.heap, made);
    let after = s_call_native(f + 1, st, Native::ToDict, seq![v], span).0;
    assert(after.heap == st.heap.with_new(made));
    assert(after.heap.obj(st.heap.next_id()) == Some(made));
}

// -- texts --------------------------------------------------------------------------------------------

/// `upper` and `lower` make a new text in upper and in lower case.
pub proof fn law_upper_and_lower_change_the_case(f: nat, st: St, v: Value, id: ObjId, span: Span)
    requires
        base(st.heap, v) == Value::Str(id),
        sound(st.heap, st.globals),
        st.heap.cells.len() < usize::MAX,
    ensures
        ({
            let (s1, up) = s_call_native(f + 1, st, Native::Upper, seq![v], span);
            let (s2, low) = s_call_native(f + 1, st, Native::Lower, seq![v], span);
            &&& up is Ok && up->Ok_0 is Str && s1.heap.text(up->Ok_0->Str_0) == uppercase(st.heap.text(id))
            &&& low is Ok && low->Ok_0 is Str && s2.heap.text(low->Ok_0->Str_0) == lowercase(st.heap.text(id))
        }),
{
    let a = ObjV::Str(uppercase(st.heap.text(id)));
    let b = ObjV::Str(lowercase(st.heap.text(id)));
    law_a_new_object_moves_nothing(st.heap, a);
    law_a_new_object_moves_nothing(st.heap, b);
    assert(st.heap.with_new(a).obj(st.heap.next_id()) == Some(a));
    assert(st.heap.with_new(b).obj(st.heap.next_id()) == Some(b));
}

proof fn lemma_joined_front(first: Seq<char>, rest: Seq<Seq<char>>, sep: Seq<char>)
    requires
        rest.len() > 0,
    ensures
        joined(seq![first] + rest, sep) == first + sep + joined(rest, sep),
    decreases rest.len(),
{
    reveal_with_fuel(joined, 2);
    let all = seq![first] + rest;
    assert(all.drop_last() =~= seq![first] + rest.drop_last());
    assert(all.last() == rest.last());
    if rest.len() == 1 {
        assert(all.drop_last() =~= seq![first]);
    } else {
        lemma_joined_front(first, rest.drop_last(), sep);
        assert(joined(all, sep) =~= first + sep + joined(rest, sep));
    }
}

proof fn lemma_pieces(text: Seq<char>, sep: Seq<char>, from: int)
    requires
        sep.len() > 0,
        0 <= from <= text.len(),
    ensures
        pieces(text, sep, from).len() > 0,
        joined(pieces(text, sep, from), sep) == text.skip(from),
        forall|i: int| 0 <= i < pieces(text, sep, from).len() ==> !contains(#[trigger] pieces(text, sep, from)[i], sep),
    decreases text.len() - from,
{
    lemma_found(text, sep, from);
    let all = pieces(text, sep, from);
    match found(text, sep, from) {
        Some(i) => {
            let first = text.subrange(from, i);
            let rest = pieces(text, sep, i + sep.len());
            lemma_pieces(text, sep, i + sep.len());
            lemma_joined_front(first, rest, sep);
            assert(text.skip(from) =~= first + sep + text.skip(i + sep.len())) by {
                assert(text.subrange(i, i + sep.len()) == sep);
                assert(text.skip(from) =~= first + text.subrange(i, i + sep.len()) + text.skip(i + sep.len()));
            }
            assert forall|k: int| 0 <= k < all.len() implies !contains(#[trigger] all[k], sep) by {
                if k == 0 {
                    lemma_no_earlier(text, sep, from, i);
                } else {
                    assert(all[k] == rest[k - 1]);
                }
            }
        },
        None => {
            let last = text.subrange(from, text.len() as int);
            reveal_with_fuel(joined, 2);
            assert(all =~= seq![last]);
            assert(last =~= text.skip(from));
            assert forall|k: int| 0 <= k < all.len() implies !contains(#[trigger] all[k], sep) by {
                lemma_no_earlier(text, sep, from, text.len() as int);
            }
        },
    }
}

/// What stands before the first place of a part does not hold it.
proof fn lemma_no_earlier(text: Seq<char>, sep: Seq<char>, from: int, i: int)
    requires
        0 <= from <= i <= text.len(),
        sep.len() > 0,
        forall|j: int| from <= j < i ==> !stands_at(text, sep, j),
    ensures
        !contains(text.subrange(from, i), sep),
{
    let part = text.subrange(from, i);
    if contains(part, sep) {
        let k = choose|k: int| stands_at(part, sep, k);
        assert(text.subrange(from + k, from + k + sep.len()) =~= part.subrange(k, k + sep.len()));
        assert(stands_at(text, sep, from + k));
    }
}

/// Splitting a text at a separator and joining the parts with it gives the text back, and none
/// of the parts holds the separator.
pub proof fn law_join_undoes_split(text: Seq<char>, sep: Seq<char>)
    requires
        sep.len() > 0,
    ensures
        joined(pieces(text, sep, 0), sep) == text,
        forall|i: int| 0 <= i < pieces(text, sep, 0).len() ==> !contains(#[trigger] pieces(text, sep, 0)[i], sep),
        pieces(text, sep, 0).len() > 0,
{
    lemma_pieces(text, sep, 0);
    assert(text.skip(0) =~= text);
}

/// `split` makes a new list of new texts, the parts of the text between the separators, in
/// order; joined with the separator they are the text again.
pub proof fn law_split_gives_the_parts(f: nat, st: St, v: Value, by: Value, id: ObjId, sep: ObjId, span: Span)
    requires
        base(st.heap, v) == Value::Str(id),
        base(st.heap, by) == Value::Str(sep),
        st.heap.text(sep).len() > 0,
        sound(st.heap, st.globals),
        st.heap.cells.len() + pieces(st.heap.text(id), st.heap.text(sep), 0).len() < usize::MAX,
    ensures
        ({
            let (after, r) = s_call_native(f + 1, st, Native::Split, seq![v, by], span);
            &&& r is Ok
            &&& r->Ok_0 is List
            &&& exists|texts: Seq<Seq<char>>| #[trigger]
                read_as(after.heap, after.heap.list(r->Ok_0->List_0), texts) && joined(texts, st.heap.text(sep))
                    == st.heap.text(id) && (forall|i: int|
                    0 <= i < texts.len() ==> !contains(#[trigger] texts[i], st.heap.text(sep)))
        }),
{
    let texts = pieces(st.heap.text(id), st.heap.text(sep), 0);
    law_join_undoes_split(st.heap.text(id), st.heap.text(sep));
    assert(texts.take(0) =~= Seq::empty());
    lemma_texts(st, texts, 0, Seq::empty());
    let (st1, items) = s_texts(st, texts, 0, Seq::empty());
    lemma_listed(st1, items, texts);
    assert(s_call_native(f + 1, st, Native::Split, seq![v, by], span) == s_plain_native(
        st,
        Native::Split,
        seq![v, by],
        span,
    ));
    assert(seq![v, by][0] == v && seq![v, by][1] == by);
    let (after, r) = s_call_native(f + 1, st, Native::Split, seq![v, by], span);
    assert(after.heap.list(r->Ok_0->List_0) == items);
    assert(read_as(after.heap, after.heap.list(r->Ok_0->List_0), texts));
}

} // verus!
