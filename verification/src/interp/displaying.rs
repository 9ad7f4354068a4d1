//! What values display as, which types they hold, and how well they fit a parameter.

use crate::error::ErrV;
use crate::float::shown;
use crate::interp::dispatch::{describes_exactly, filled, fits, quality, score};
use crate::interp::ops::items_of;
use crate::interp::paint::Style;
use crate::interp::show::{
    s_base_text, s_display, s_entry_texts, s_item_texts, s_repr, string_op, Ask,
};
use crate::interp::state::St;
use crate::runtime::class::{base, class_of, is_a, type_text};
use crate::runtime::heap::{at_index, HeapV};
use crate::runtime::object::Entry;
use crate::runtime::types::holds;
use crate::runtime::value::{ObjId, Value};
use crate::syntax::ast::{CallArgV, ParamV, TypeExprV, TypeNameV};
use crate::text::{contains, decimal, joined, quoted, stands_at};
use vstd::prelude::*;

verus! {

// -- single values ------------------------------------------------------------------------------------

/// What a value that holds no others displays as, where its class is not asked: an int in
/// decimal, a float by its shortest decimal, a text by its characters, and the rest by their
/// words. Displaying changes nothing.
pub proof fn law_what_a_value_displays_as(f: nat, st: St, v: Value, ask: Ask)
    requires
        string_op(st.heap, v, ask) is None,
    ensures
        ({
            let (after, r) = s_display(f + 2, st, v, false, ask);
            let held = base(st.heap, v);
            &&& held is Int ==> after == st && r == Ok::<Seq<char>, ErrV>(decimal(held->Int_0 as int))
            &&& held is Float ==> after == st && r == Ok::<Seq<char>, ErrV>(shown(held->Float_0))
            &&& held is Str ==> after == st && r == Ok::<Seq<char>, ErrV>(st.heap.text(held->Str_0))
            &&& held is Nil ==> after == st && r == Ok::<Seq<char>, ErrV>("nil"@)
            &&& held == Value::Bool(true) ==> after == st && r == Ok::<Seq<char>, ErrV>("true"@)
            &&& held == Value::Bool(false) ==> after == st && r == Ok::<Seq<char>, ErrV>("false"@)
        }),
{
    assert(s_display(f + 2, st, v, false, ask) == s_base_text(f + 1, st, v, false, ask));
}

/// Inside another value a text stands in quotes, and anything else as it displays on its own.
pub proof fn law_a_text_inside_another_value_is_quoted(f: nat, st: St, v: Value, ask: Ask)
    requires
        string_op(st.heap, v, ask) is None,
    ensures
        base(st.heap, v) is Str ==> s_repr(f + 1, st, v, false, ask) == (
            st,
            Ok::<Seq<char>, ErrV>(quoted(st.heap.text(base(st.heap, v)->Str_0))),
        ),
        !(base(st.heap, v) is Str) ==> s_repr(f + 1, st, v, false, ask) == s_display(f, st, v, false, ask),
{
}

/// Colour adds to a text and takes nothing from it.
pub proof fn law_colour_keeps_the_text(style: Style, text: Seq<char>)
    ensures
        style.painted(text, false) == text,
        contains(style.painted(text, true), text),
{
    let painted = style.painted(text, true);
    let front = "\u{1b}["@ + style.code() + "m"@;
    assert(painted.subrange(front.len() as int, (front.len() + text.len()) as int) =~= text);
    assert(stands_at(painted, text, front.len() as int));
}

// -- containers ---------------------------------------------------------------------------------------

proof fn lemma_item_texts(f: nat, g: nat, st: St, held: Value, ask: Ask, texts: Seq<Seq<char>>, i: int)
    requires
        0 <= i <= texts.len(),
        items_of(st.heap, held).len() == texts.len(),
        forall|k: int, n: nat|
            0 <= k < texts.len() && n >= f ==> #[trigger] s_repr(n, st, items_of(st.heap, held)[k], false, ask) == (
                st,
                Ok::<Seq<char>, ErrV>(texts[k]),
            ),
        g >= f + texts.len() - i + 1,
    ensures
        s_item_texts(g, st, held, false, ask, i, texts.take(i)) == (st, Ok::<Seq<Seq<char>>, ErrV>(texts)),
    decreases texts.len() - i,
{
    let items = items_of(st.heap, held);
    if i < texts.len() {
        assert(at_index(items, i) == Some(items[i]));
        assert(s_repr((g - 1) as nat, st, items[i], false, ask) == (st, Ok::<Seq<char>, ErrV>(texts[i])));
        assert(texts.take(i).push(texts[i]) =~= texts.take(i + 1));
        lemma_item_texts(f, (g - 1) as nat, st, held, ask, texts, i + 1);
    } else {
        assert(at_index(items, i) is None);
        assert(texts.take(i) =~= texts);
    }
}

/// A list displays as what its items display as inside it, in order, with commas between them
/// and in square brackets; a tuple in round ones.
pub proof fn law_a_list_displays_as_its_items(f: nat, g: nat, st: St, v: Value, ask: Ask, texts: Seq<Seq<char>>)
    requires
        string_op(st.heap, v, ask) is None,
        base(st.heap, v) is List || base(st.heap, v) is Tuple,
        items_of(st.heap, base(st.heap, v)).len() == texts.len(),
        forall|k: int, n: nat|
            0 <= k < texts.len() && n >= f ==> #[trigger] s_repr(
                n,
                st,
                items_of(st.heap, base(st.heap, v))[k],
                false,
                ask,
            ) == (st, Ok::<Seq<char>, ErrV>(texts[k])),
        g >= f + texts.len() + 4,
    ensures
        base(st.heap, v) is List ==> s_display(g, st, v, false, ask) == (
            st,
            Ok::<Seq<char>, ErrV>("["@ + joined(texts, ", "@) + "]"@),
        ),
        base(st.heap, v) is Tuple ==> s_display(g, st, v, false, ask) == (
            st,
            Ok::<Seq<char>, ErrV>("("@ + joined(texts, ", "@) + ")"@),
        ),
{
    let held = base(st.heap, v);
    assert(texts.take(0) =~= Seq::empty());
    lemma_item_texts(f, (g - 2) as nat, st, held, ask, texts, 0);
    assert(s_display(g, st, v, false, ask) == s_base_text((g - 1) as nat, st, v, false, ask));
}

proof fn lemma_entry_texts(f: nat, g: nat, st: St, entries: Seq<Entry>, ask: Ask, keys: Seq<Seq<char>>, values: Seq<Seq<char>>, i: int, so_far: Seq<Seq<char>>)
    requires
        0 <= i <= entries.len(),
        keys.len() == entries.len(),
        values.len() == entries.len(),
        so_far == Seq::new(i as nat, |k: int| keys[k] + ": "@ + values[k]),
        forall|k: int, n: nat|
            0 <= k < entries.len() && n >= f ==> #[trigger] s_repr(n, st, entries[k].key, false, ask) == (
                st,
                Ok::<Seq<char>, ErrV>(keys[k]),
            ),
        forall|k: int, n: nat|
            0 <= k < entries.len() && n >= f ==> #[trigger] s_repr(n, st, entries[k].value, false, ask) == (
                st,
                Ok::<Seq<char>, ErrV>(values[k]),
            ),
        g >= f + entries.len() - i + 1,
    ensures
        s_entry_texts(g, st, entries, false, ask, i, so_far) == (
            st,
            Ok::<Seq<Seq<char>>, ErrV>(Seq::new(entries.len(), |k: int| keys[k] + ": "@ + values[k])),
        ),
    decreases entries.len() - i,
{
    if i < entries.len() {
        assert(s_repr((g - 1) as nat, st, entries[i].key, false, ask) == (st, Ok::<Seq<char>, ErrV>(keys[i])));
        assert(s_repr((g - 1) as nat, st, entries[i].value, false, ask) == (st, Ok::<Seq<char>, ErrV>(values[i])));
        let next = so_far.push(keys[i] + ": "@ + values[i]);
        assert(next =~= Seq::new((i + 1) as nat, |k: int| keys[k] + ": "@ + values[k]));
        lemma_entry_texts(f, (g - 1) as nat, st, entries, ask, keys, values, i + 1, next);
    }
}

/// A dict displays as its entries, in order, each key with its own value behind a colon, with
/// commas between them and in braces.
pub proof fn law_a_dict_displays_as_its_entries(f: nat, g: nat, st: St, v: Value, id: ObjId, ask: Ask, keys: Seq<Seq<char>>, values: Seq<Seq<char>>)
    requires
        string_op(st.heap, v, ask) is None,
        base(st.heap, v) == Value::Dict(id),
        keys.len() == st.heap.dict(id).len(),
        values.len() == st.heap.dict(id).len(),
        forall|k: int, n: nat|
            0 <= k < keys.len() && n >= f ==> #[trigger] s_repr(n, st, st.heap.dict(id)[k].key, false, ask) == (
                st,
                Ok::<Seq<char>, ErrV>(keys[k]),
            ),
        forall|k: int, n: nat|
            0 <= k < keys.len() && n >= f ==> #[trigger] s_repr(n, st, st.heap.dict(id)[k].value, false, ask) == (
                st,
                Ok::<Seq<char>, ErrV>(values[k]),
            ),
        g >= f + keys.len() + 4,
    ensures
        s_display(g, st, v, false, ask) == (
            st,
            Ok::<Seq<char>, ErrV>(
                "{"@ + joined(Seq::new(keys.len(), |k: int| keys[k] + ": "@ + values[k]), ", "@) + "}"@,
            ),
        ),
{
    let entries = st.heap.dict(id);
    let none = Seq::<Seq<char>>::empty();
    assert(none =~= Seq::new(0, |k: int| keys[k] + ": "@ + values[k]));
    lemma_entry_texts(f, (g - 2) as nat, st, entries, ask, keys, values, 0, none);
    assert(s_display(g, st, v, false, ask) == s_base_text((g - 1) as nat, st, v, false, ask));
}

// -- types --------------------------------------------------------------------------------------------

/// Which values hold a builtin type that has no arguments: those of that type and, of `float`,
/// ints; no value of another builtin type, unless the class of that type extends it.
pub proof fn law_what_holds_a_builtin_type(h: HeapV, ty: TypeExprV, name: Seq<char>, v: Value)
    requires
        ty.name == TypeNameV::Named(name),
        ty.args.len() == 0,
        v != Value::Nil,
        !crate::runtime::class::descends_named(h, class_of(h, v), name, h.cells.len()),
    ensures
        name == "int"@ && !(v is Instance) ==> (holds(h, ty, v) <==> v is Int),
        name == "string"@ && !(v is Instance) ==> (holds(h, ty, v) <==> v is Str),
        name == "bool"@ && !(v is Instance) ==> (holds(h, ty, v) <==> v is Bool),
        name == "float"@ && !(v is Instance) ==> (holds(h, ty, v) <==> v is Float || v is Int),
        name == "list"@ && !(v is Instance) ==> (holds(h, ty, v) <==> v is List),
        name == "dict"@ && !(v is Instance) ==> (holds(h, ty, v) <==> v is Dict),
        v is Instance && name != "float"@ ==> (holds(h, ty, v) <==> h.class(h.instance(v->Instance_0).class).name == name),
{
    lemma_type_words(v);
    lemma_not_float();
}

proof fn lemma_not_float()
    ensures
        "int"@ != "float"@,
        "string"@ != "float"@,
        "bool"@ != "float"@,
        "list"@ != "float"@,
        "dict"@ != "float"@,
{
    reveal_strlit("int");
    reveal_strlit("string");
    reveal_strlit("bool");
    reveal_strlit("list");
    reveal_strlit("dict");
    reveal_strlit("float");
    assert("int"@.len() == 3 && "string"@.len() == 6 && "bool"@.len() == 4);
    assert("list"@.len() == 4 && "dict"@.len() == 4 && "float"@.len() == 5);
}

/// The words of the types that differ.
proof fn lemma_type_words(v: Value)
    ensures
        ({
            let word = crate::runtime::class::builtin_of(v).spelled();
            &&& word == "int"@ <==> v is Int
            &&& !(v is Instance) ==> (word == "string"@ <==> v is Str)
            &&& !(v is Instance) ==> (word == "bool"@ <==> v is Bool)
            &&& !(v is Instance) ==> (word == "float"@ <==> v is Float)
            &&& !(v is Instance) ==> (word == "list"@ <==> v is List)
            &&& !(v is Instance) ==> (word == "dict"@ <==> v is Dict)
        }),
{
    reveal_strlit("nil");
    reveal_strlit("bool");
    reveal_strlit("int");
    reveal_strlit("float");
    reveal_strlit("string");
    reveal_strlit("list");
    reveal_strlit("tuple");
    reveal_strlit("dict");
    reveal_strlit("function");
    reveal_strlit("class");
    reveal_strlit("module");
    assert("nil"@.len() == 3 && "nil"@[0] == 'n');
    assert("bool"@.len() == 4 && "bool"@[0] == 'b');
    assert("int"@.len() == 3 && "int"@[0] == 'i');
    assert("float"@.len() == 5 && "float"@[0] == 'f');
    assert("string"@.len() == 6 && "string"@[0] == 's');
    assert("list"@.len() == 4 && "list"@[0] == 'l');
    assert("tuple"@.len() == 5 && "tuple"@[0] == 't');
    assert("dict"@.len() == 4 && "dict"@[0] == 'd');
    assert("function"@.len() == 8 && "function"@[0] == 'f');
    assert("class"@.len() == 5 && "class"@[0] == 'c');
    assert("module"@.len() == 6 && "module"@[0] == 'm');
}

/// A list that nothing describes holds a list type just where each of its items holds the type
/// that the list is to be of.
pub proof fn law_a_list_holds_what_its_items_hold(h: HeapV, ty: TypeExprV, id: ObjId)
    requires
        ty.name == TypeNameV::Named("list"@),
        ty.args.len() == 1,
        h.descriptor(id) is None,
    ensures
        holds(h, ty, Value::List(id)) <==> is_a(h, Value::List(id), "list"@) && forall|i: int|
            0 <= i < h.list(id).len() ==> holds(h, ty.args[0], #[trigger] h.list(id)[i]),
{
    reveal_strlit("list");
    reveal_strlit("float");
    assert("list"@.len() != "float"@.len());
}

// -- fitting ------------------------------------------------------------------------------------------

/// How well a value fits a parameter: best where the parameter says the very type, less well
/// where the value has to be widened or the type admits more, least where it takes anything; not
/// at all where the value does not hold the type.
pub proof fn law_how_well_a_value_fits(h: HeapV, exact: ParamV, wider: ParamV, open: ParamV, v: Value)
    requires
        open.ty is None,
        exact.ty is Some,
        exact.ty->0.name == TypeNameV::Named(type_text(h, v)),
        !exact.ty->0.nullable,
        exact.ty->0.args.len() == 0,
        describes_exactly(h, exact.ty->0, v),
        holds(h, exact.ty->0, v),
        v != Value::Nil,
        wider.ty is Some,
        wider.ty->0.name is Named,
        wider.ty->0.name->Named_0 != type_text(h, v),
        holds(h, wider.ty->0, v),
    ensures
        quality(h, exact, v) is Some,
        quality(h, wider, v) is Some,
        quality(h, open, v) is Some,
        quality(h, exact, v)->0 < quality(h, wider, v)->0,
        quality(h, wider, v)->0 < quality(h, open, v)->0,
{
}

/// A value that does not hold the type of a parameter does not fit it.
pub proof fn law_a_value_of_another_type_does_not_fit(h: HeapV, p: ParamV, v: Value)
    requires
        p.ty is Some,
    ensures
        quality(h, p, v) is None <==> !holds(h, p.ty->0, v),
{
}

proof fn lemma_score(h: HeapV, params: Seq<ParamV>, given: Seq<Option<Value>>, from: int, so_far: nat)
    requires
        0 <= from <= params.len(),
        given.len() == params.len(),
    ensures
        score(h, params, given, from, so_far) is Some <==> forall|i: int|
            from <= i < params.len() ==> match #[trigger] given[i] {
                Some(v) => quality(h, params[i], v) is Some,
                None => params[i].default is Some,
            },
    decreases params.len() - from,
{
    if from < params.len() {
        match given[from] {
            Some(v) => {
                if let Some(q) = quality(h, params[from], v) {
                    lemma_score(h, params, given, from + 1, so_far + q);
                }
            },
            None => {
                if params[from].default is Some {
                    lemma_score(h, params, given, from + 1, so_far);
                }
            },
        }
    }
}

/// Arguments fit parameters just where each that is given fits its own, and each that is not
/// has a default.
pub proof fn law_arguments_fit_one_by_one(h: HeapV, params: Seq<ParamV>, args: Seq<CallArgV>, values: Seq<Value>, given: Seq<Option<Value>>)
    requires
        filled(params, args, values) == Ok::<Seq<Option<Value>>, crate::interp::dispatch::Misfit>(given),
        given.len() == params.len(),
    ensures
        fits(h, params, args, values) is Some <==> forall|i: int|
            0 <= i < params.len() ==> match #[trigger] given[i] {
                Some(v) => quality(h, params[i], v) is Some,
                None => params[i].default is Some,
            },
{
    lemma_score(h, params, given, 0, 0);
}

} // verus!
