//! Displaying values: on one line, or laid out over several.

use crate::error::{ErrV, QuinceError};
use crate::interp::error::{too_far, too_far_error};
use crate::interp::operator::op_returned;
use crate::interp::ops::{items_of, s_call_op};
use crate::interp::paint::{bare_text, style_for, style_of, Style};
use crate::interp::state::{nowhere, Interp, Out, St};
use crate::runtime::class::{base, slot_of};
use crate::runtime::heap::{at_index, HeapV};
use crate::runtime::object::Entry;
use crate::runtime::value::{ObjId, Value};
use crate::syntax::ast::Op;
use crate::syntax::token::Span;
use crate::text::{cat3, join, joined, lemma_strs_push, quote, quoted, strs};
use vstd::prelude::*;

verus! {

broadcast use lemma_strs_push;

/// Whether displaying a value asks its class.
#[derive(Clone, Copy, Debug, PartialEq, Eq, Structural)]
pub enum Ask {
    /// A class that declares `op string` answers for its instances.
    Class,
    /// Nothing of the program runs.
    Nothing,
}

pub open spec fn shown_text(r: Result<String, QuinceError>) -> Result<Seq<char>, ErrV> {
    match r {
        Ok(text) => Ok(text@),
        Err(e) => Err(e@),
    }
}

pub open spec fn shown_texts(r: Result<Vec<String>, QuinceError>) -> Result<Seq<Seq<char>>, ErrV> {
    match r {
        Ok(texts) => Ok(strs(texts@)),
        Err(e) => Err(e@),
    }
}

/// The op that answers how a value displays, where its class is to be asked.
pub open spec fn string_op(h: HeapV, v: Value, ask: Ask) -> Option<Value> {
    if ask == Ask::Class {
        slot_of(h, v, Op::Str)
    } else {
        None
    }
}

/// What a class answers to how its instance displays.
pub open spec fn s_string_op(f: nat, st: St, method: Value, v: Value) -> Out<Seq<char>>
    decreases f,
{
    if f == 0 {
        (st, Err(too_far(nowhere())))
    } else {
        match s_call_op((f - 1) as nat, st, method, v, Seq::empty()) {
            (st1, Err(e)) => (st1, Err(e)),
            (st1, Ok(answer)) => match base(st1.heap, answer) {
                Value::Str(id) => (st1, Ok(st1.heap.text(id))),
                other => (st1, Err(op_returned(st1.heap, Op::Str, v, "a string"@, other))),
            },
        }
    }
}

/// What encloses the items of a list, a tuple or a dict.
pub open spec fn enclosed(open: Seq<char>, inside: Seq<char>, close: Seq<char>, color: bool) -> Seq<
    char,
> {
    Style::Bold.painted(open, color) + inside + Style::Bold.painted(close, color)
}

/// How the items of a list or a tuple from `i` on display inside it, behind those that
/// were. They are read as they are at each step.
pub open spec fn s_item_texts(
    f: nat,
    st: St,
    held: Value,
    color: bool,
    ask: Ask,
    i: int,
    so_far: Seq<Seq<char>>,
) -> Out<Seq<Seq<char>>>
    decreases f,
{
    match at_index(items_of(st.heap, held), i) {
        None => (st, Ok(so_far)),
        Some(item) => if f == 0 {
            (st, Err(too_far(nowhere())))
        } else {
            match s_repr((f - 1) as nat, st, item, color, ask) {
                (st1, Err(e)) => (st1, Err(e)),
                (st1, Ok(text)) => s_item_texts(
                    (f - 1) as nat,
                    st1,
                    held,
                    color,
                    ask,
                    i + 1,
                    so_far.push(text),
                ),
            }
        },
    }
}

/// How the entries of a dict from `i` on display inside it, behind those that were.
pub open spec fn s_entry_texts(
    f: nat,
    st: St,
    entries: Seq<Entry>,
    color: bool,
    ask: Ask,
    i: int,
    so_far: Seq<Seq<char>>,
) -> Out<Seq<Seq<char>>>
    decreases f,
{
    if i < 0 || i >= entries.len() {
        (st, Ok(so_far))
    } else if f == 0 {
        (st, Err(too_far(nowhere())))
    } else {
        match s_repr((f - 1) as nat, st, entries[i].key, color, ask) {
            (st1, Err(e)) => (st1, Err(e)),
            (st1, Ok(key)) => match s_repr((f - 1) as nat, st1, entries[i].value, color, ask) {
                (st2, Err(e)) => (st2, Err(e)),
                (st2, Ok(value)) => s_entry_texts(
                    (f - 1) as nat,
                    st2,
                    entries,
                    color,
                    ask,
                    i + 1,
                    so_far.push(key + ": "@ + value),
                ),
            },
        }
    }
}

/// How a value displays where its class is not asked: its items in brackets, its entries
/// in braces, or its text.
pub open spec fn s_base_text(f: nat, st: St, v: Value, color: bool, ask: Ask) -> Out<Seq<char>>
    decreases f,
{
    let held = base(st.heap, v);
    if f == 0 {
        (st, Err(too_far(nowhere())))
    } else {
        match held {
            Value::List(_) => match s_item_texts(
                (f - 1) as nat,
                st,
                held,
                color,
                ask,
                0,
                Seq::empty(),
            ) {
                (st1, Ok(texts)) => (st1, Ok(enclosed("["@, joined(texts, ", "@), "]"@, color))),
                (st1, Err(e)) => (st1, Err(e)),
            },
            Value::Tuple(_) => match s_item_texts(
                (f - 1) as nat,
                st,
                held,
                color,
                ask,
                0,
                Seq::empty(),
            ) {
                (st1, Ok(texts)) => (st1, Ok(enclosed("("@, joined(texts, ", "@), ")"@, color))),
                (st1, Err(e)) => (st1, Err(e)),
            },
            Value::Dict(id) => match s_entry_texts(
                (f - 1) as nat,
                st,
                st.heap.dict(id),
                color,
                ask,
                0,
                Seq::empty(),
            ) {
                (st1, Ok(texts)) => (st1, Ok(enclosed("{"@, joined(texts, ", "@), "}"@, color))),
                (st1, Err(e)) => (st1, Err(e)),
            },
            _ => (st, Ok(style_of(held).painted(bare_text(st.heap, held, v), color))),
        }
    }
}

/// How a value displays on its own.
pub open spec fn s_display(f: nat, st: St, v: Value, color: bool, ask: Ask) -> Out<Seq<char>>
    decreases f,
{
    if f == 0 {
        (st, Err(too_far(nowhere())))
    } else {
        match string_op(st.heap, v, ask) {
            Some(method) => s_string_op((f - 1) as nat, st, method, v),
            None => s_base_text((f - 1) as nat, st, v, color, ask),
        }
    }
}

/// How a value displays inside another: a string in quotes.
pub open spec fn s_repr(f: nat, st: St, v: Value, color: bool, ask: Ask) -> Out<Seq<char>>
    decreases f,
{
    if f == 0 {
        (st, Err(too_far(nowhere())))
    } else {
        match base(st.heap, v) {
            Value::Str(id) => if string_op(st.heap, v, ask) is None {
                (st, Ok(Style::Green.painted(quoted(st.heap.text(id)), color)))
            } else {
                s_display((f - 1) as nat, st, v, color, ask)
            },
            _ => s_display((f - 1) as nat, st, v, color, ask),
        }
    }
}

fn enclose(open: &str, inside: &str, close: &str, color: bool) -> (r: String)
    ensures
        r@ == enclosed(open@, inside@, close@, color),
{
    let first = Style::Bold.paint(open, color);
    let last = Style::Bold.paint(close, color);
    cat3(first.as_str(), inside, last.as_str())
}

impl Interp {
    pub(crate) fn string_op(&self, v: Value, ask: Ask) -> (r: Option<Value>)
        ensures
            r == string_op(self@.heap, v, ask),
    {
        if ask == Ask::Class {
            self.heap.slot_of(v, Op::Str)
        } else {
            None
        }
    }

    fn asked_text(&mut self, method: Value, v: Value, fuel: u64) -> (r: Result<String, QuinceError>)
        ensures
            (final(self)@, shown_text(r)) == s_string_op(fuel as nat, old(self)@, method, v),
        decreases fuel,
    {
        if fuel == 0 {
            return Err(too_far_error(Span { start: 0, end: 0 }));
        }
        let none: Vec<Value> = Vec::new();
        assert(none@ =~= Seq::empty());
        let answer = match self.call_op(method, v, none, fuel - 1) {
            Ok(answer) => answer,
            Err(e) => {
                return Err(e);
            },
        };
        match self.heap.base(answer) {
            Value::Str(id) => Ok(self.heap.text(id)),
            other => Err(self.heap.op_returned(Op::Str, v, "a string", other)),
        }
    }

    fn item_texts(&mut self, held: Value, color: bool, ask: Ask, fuel: u64) -> (r: Result<
        Vec<String>,
        QuinceError,
    >)
        ensures
            (final(self)@, shown_texts(r)) == s_item_texts(
                fuel as nat,
                old(self)@,
                held,
                color,
                ask,
                0,
                Seq::empty(),
            ),
        decreases fuel,
    {
        let ghost goal = s_item_texts(fuel as nat, self@, held, color, ask, 0, Seq::empty());
        let mut texts: Vec<String> = Vec::new();
        assert(strs(texts@) =~= Seq::empty());
        let mut left: u64 = fuel;
        let mut i: usize = 0;
        loop
            invariant
                left <= fuel,
                goal == s_item_texts(
                    fuel as nat,
                    old(self)@,
                    held,
                    color,
                    ask,
                    0,
                    Seq::empty(),
                ),
                goal == s_item_texts(
                    left as nat,
                    self@,
                    held,
                    color,
                    ask,
                    i as int,
                    strs(texts@),
                ),
            decreases left,
        {
            let len: usize = self.heap.items_len(held);
            let item = match self.heap.item_at(held, i) {
                Some(item) => item,
                None => {
                    return Ok(texts);
                },
            };
            if left == 0 {
                return Err(too_far_error(Span { start: 0, end: 0 }));
            }
            left -= 1;
            let text = match self.repr(item, color, ask, left) {
                Ok(text) => text,
                Err(e) => {
                    return Err(e);
                },
            };
            texts.push(text);
            i += 1;
        }
    }

    fn entry_texts(&mut self, entries: &Vec<Entry>, color: bool, ask: Ask, fuel: u64) -> (r: Result<
        Vec<String>,
        QuinceError,
    >)
        ensures
            (final(self)@, shown_texts(r)) == s_entry_texts(
                fuel as nat,
                old(self)@,
                entries@,
                color,
                ask,
                0,
                Seq::empty(),
            ),
        decreases fuel,
    {
        let ghost goal = s_entry_texts(
            fuel as nat,
            self@,
            entries@,
            color,
            ask,
            0,
            Seq::empty(),
        );
        let mut texts: Vec<String> = Vec::new();
        assert(strs(texts@) =~= Seq::empty());
        let mut left: u64 = fuel;
        let mut i: usize = 0;
        while i < entries.len()
            invariant
                left <= fuel,
                i <= entries@.len(),
                goal == s_entry_texts(
                    fuel as nat,
                    old(self)@,
                    entries@,
                    color,
                    ask,
                    0,
                    Seq::empty(),
                ),
                goal == s_entry_texts(
                    left as nat,
                    self@,
                    entries@,
                    color,
                    ask,
                    i as int,
                    strs(texts@),
                ),
            decreases entries@.len() - i,
        {
            if left == 0 {
                return Err(too_far_error(Span { start: 0, end: 0 }));
            }
            left -= 1;
            let key = match self.repr(entries[i].key, color, ask, left) {
                Ok(text) => text,
                Err(e) => {
                    return Err(e);
                },
            };
            let value = match self.repr(entries[i].value, color, ask, left) {
                Ok(text) => text,
                Err(e) => {
                    return Err(e);
                },
            };
            texts.push(cat3(key.as_str(), ": ", value.as_str()));
            i += 1;
        }
        Ok(texts)
    }

    fn base_text(&mut self, v: Value, color: bool, ask: Ask, fuel: u64) -> (r: Result<
        String,
        QuinceError,
    >)
        ensures
            (final(self)@, shown_text(r)) == s_base_text(
                fuel as nat,
                old(self)@,
                v,
                color,
                ask,
            ),
        decreases fuel,
    {
        if fuel == 0 {
            return Err(too_far_error(Span { start: 0, end: 0 }));
        }
        let held = self.heap.base(v);
        match held {
            Value::List(_) => match self.item_texts(held, color, ask, fuel - 1) {
                Ok(texts) => Ok(enclose("[", join(&texts, ", ").as_str(), "]", color)),
                Err(e) => Err(e),
            },
            Value::Tuple(_) => match self.item_texts(held, color, ask, fuel - 1) {
                Ok(texts) => Ok(enclose("(", join(&texts, ", ").as_str(), ")", color)),
                Err(e) => Err(e),
            },
            Value::Dict(id) => {
                let entries = self.heap.dict(id);
                match self.entry_texts(&entries, color, ask, fuel - 1) {
                    Ok(texts) => Ok(enclose("{", join(&texts, ", ").as_str(), "}", color)),
                    Err(e) => Err(e),
                }
            },
            _ => {
                let text = self.heap.bare_text(held, v);
                Ok(style_for(held).paint(text.as_str(), color))
            },
        }
    }

    /// How a value displays on its own.
    pub(crate) fn displayed(&mut self, v: Value, color: bool, ask: Ask, fuel: u64) -> (r: Result<
        String,
        QuinceError,
    >)
        ensures
            (final(self)@, shown_text(r)) == s_display(
                fuel as nat,
                old(self)@,
                v,
                color,
                ask,
            ),
        decreases fuel,
    {
        if fuel == 0 {
            return Err(too_far_error(Span { start: 0, end: 0 }));
        }
        match self.string_op(v, ask) {
            Some(method) => self.asked_text(method, v, fuel - 1),
            None => self.base_text(v, color, ask, fuel - 1),
        }
    }

    /// How a value displays inside another.
    pub(crate) fn repr(&mut self, v: Value, color: bool, ask: Ask, fuel: u64) -> (r: Result<
        String,
        QuinceError,
    >)
        ensures
            (final(self)@, shown_text(r)) == s_repr(fuel as nat, old(self)@, v, color, ask),
        decreases fuel,
    {
        if fuel == 0 {
            return Err(too_far_error(Span { start: 0, end: 0 }));
        }
        if let Value::Str(id) = self.heap.base(v) {
            if self.string_op(v, ask).is_none() {
                let text = quote(self.heap.text(id).as_str());
                return Ok(Style::Green.paint(text.as_str(), color));
            }
        }
        self.displayed(v, color, ask, fuel - 1)
    }
}

// -- laws --------------------------------------------------------------------------------------------

/// A class that says how it displays is taken at its word in every position: what its op
/// answers is neither quoted nor painted.
pub proof fn law_a_string_op_is_used_verbatim(f: nat, st: St, method: Value, v: Value, color: bool, ask: Ask)
    requires
        string_op(st.heap, v, ask) == Some(method),
    ensures
        s_display(f + 1, st, v, color, ask) == s_string_op(f, st, method, v),
        s_repr(f + 2, st, v, color, ask) == s_string_op(f, st, method, v),
{
    assert(s_repr(f + 2, st, v, color, ask) == s_display((f + 1) as nat, st, v, color, ask));
}

/// A list that holds one value displays that value in brackets, as its class shows it.
pub proof fn law_a_string_op_is_used_verbatim_in_a_list(
    f: nat,
    st: St,
    id: ObjId,
    method: Value,
    v: Value,
    ask: Ask,
    text: Seq<char>,
)
    requires
        st.heap.list(id) == seq![v],
        string_op(st.heap, v, ask) == Some(method),
        s_string_op(f + 1, st, method, v).1 == Ok::<Seq<char>, ErrV>(text),
        s_string_op(f + 1, st, method, v).0.heap.list(id).len() == 1,
    ensures
        s_base_text(f + 5, st, Value::List(id), false, ask).1 == Ok::<Seq<char>, ErrV>("["@ + text + "]"@),
{
    law_a_string_op_is_used_verbatim(f + 1, st, method, v, false, ask);
    let (st1, _) = s_string_op(f + 1, st, method, v);
    let held = Value::List(id);
    let none = Seq::<Seq<char>>::empty();
    assert(at_index(items_of(st.heap, held), 0) == Some(v));
    assert(at_index(items_of(st1.heap, held), 1) is None);
    assert(s_item_texts((f + 3) as nat, st1, held, false, ask, 1, none.push(text)) == (
        st1,
        Ok::<Seq<Seq<char>>, ErrV>(none.push(text)),
    ));
    assert(s_item_texts((f + 4) as nat, st, held, false, ask, 0, none) == (
        st1,
        Ok::<Seq<Seq<char>>, ErrV>(none.push(text)),
    ));
    assert(none.push(text)[0] == text);
    assert(joined(none.push(text), ", "@) == text);
}

/// Whether no class answers for a value, nor for what it holds as far as `n` steps in.
pub open spec fn quiet_to(h: HeapV, v: Value, n: nat) -> bool
    decreases n,
{
    &&& string_op(h, v, Ask::Class) is None
    &&& n > 0 ==> match base(h, v) {
        Value::List(_) | Value::Tuple(_) => forall|i: int|
            0 <= i < items_of(h, base(h, v)).len() ==> quiet_to(
                h,
                #[trigger] items_of(h, base(h, v))[i],
                (n - 1) as nat,
            ),
        Value::Dict(id) => forall|i: int|
            0 <= i < h.dict(id).len() ==> quiet_to(h, (#[trigger] h.dict(id)[i]).key, (n - 1) as nat) && quiet_to(
                h,
                h.dict(id)[i].value,
                (n - 1) as nat,
            ),
        _ => true,
    }
}

/// Whether no class answers for a value, nor for anything it holds.
pub open spec fn quiet(h: HeapV, v: Value) -> bool {
    forall|n: nat| #[trigger] quiet_to(h, v, n)
}

proof fn lemma_quiet_items(h: HeapV, v: Value, i: int)
    requires
        quiet(h, v),
        base(h, v) is List || base(h, v) is Tuple,
        0 <= i < items_of(h, base(h, v)).len(),
    ensures
        quiet(h, items_of(h, base(h, v))[i]),
{
    assert forall|n: nat| #[trigger] quiet_to(h, items_of(h, base(h, v))[i], n) by {
        assert(quiet_to(h, v, n + 1));
    }
}

proof fn lemma_quiet_entries(h: HeapV, v: Value, id: ObjId, i: int)
    requires
        quiet(h, v),
        base(h, v) == Value::Dict(id),
        0 <= i < h.dict(id).len(),
    ensures
        quiet(h, h.dict(id)[i].key),
        quiet(h, h.dict(id)[i].value),
{
    assert forall|n: nat| #[trigger] quiet_to(h, h.dict(id)[i].key, n) by {
        assert(quiet_to(h, v, n + 1));
        assert(quiet_to(h, h.dict(id)[i].key, n) && quiet_to(h, h.dict(id)[i].value, n));
    }
    assert forall|n: nat| #[trigger] quiet_to(h, h.dict(id)[i].value, n) by {
        assert(quiet_to(h, v, n + 1));
        assert(quiet_to(h, h.dict(id)[i].key, n) && quiet_to(h, h.dict(id)[i].value, n));
    }
}

proof fn lemma_items_agree(f: nat, st: St, v: Value, color: bool, i: int, so_far: Seq<Seq<char>>)
    requires
        quiet(st.heap, v),
        base(st.heap, v) is List || base(st.heap, v) is Tuple,
        0 <= i,
    ensures
        ({
            let held = base(st.heap, v);
            &&& s_item_texts(f, st, held, color, Ask::Class, i, so_far) == s_item_texts(
                f,
                st,
                held,
                color,
                Ask::Nothing,
                i,
                so_far,
            )
            &&& s_item_texts(f, st, held, color, Ask::Class, i, so_far).0 == st
        }),
    decreases f,
{
    let held = base(st.heap, v);
    match at_index(items_of(st.heap, held), i) {
        None => {},
        Some(item) => {
            if f > 0 {
                lemma_quiet_items(st.heap, v, i);
                lemma_repr_agrees((f - 1) as nat, st, item, color);
                match s_repr((f - 1) as nat, st, item, color, Ask::Class) {
                    (st1, Ok(text)) => lemma_items_agree((f - 1) as nat, st, v, color, i + 1, so_far.push(text)),
                    _ => {},
                }
            }
        },
    }
}

proof fn lemma_entries_agree(f: nat, st: St, v: Value, id: ObjId, color: bool, i: int, so_far: Seq<Seq<char>>)
    requires
        quiet(st.heap, v),
        base(st.heap, v) == Value::Dict(id),
        0 <= i,
    ensures
        s_entry_texts(f, st, st.heap.dict(id), color, Ask::Class, i, so_far) == s_entry_texts(
            f,
            st,
            st.heap.dict(id),
            color,
            Ask::Nothing,
            i,
            so_far,
        ),
        s_entry_texts(f, st, st.heap.dict(id), color, Ask::Class, i, so_far).0 == st,
    decreases f,
{
    let entries = st.heap.dict(id);
    if i < entries.len() && f > 0 {
        lemma_quiet_entries(st.heap, v, id, i);
        lemma_repr_agrees((f - 1) as nat, st, entries[i].key, color);
        lemma_repr_agrees((f - 1) as nat, st, entries[i].value, color);
        match s_repr((f - 1) as nat, st, entries[i].key, color, Ask::Class) {
            (st1, Ok(key)) => match s_repr((f - 1) as nat, st, entries[i].value, color, Ask::Class) {
                (st2, Ok(value)) => lemma_entries_agree(
                    (f - 1) as nat,
                    st,
                    v,
                    id,
                    color,
                    i + 1,
                    so_far.push(key + ": "@ + value),
                ),
                _ => {},
            },
            _ => {},
        }
    }
}

proof fn lemma_base_agrees(f: nat, st: St, v: Value, color: bool)
    requires
        quiet(st.heap, v),
    ensures
        s_base_text(f, st, v, color, Ask::Class) == s_base_text(f, st, v, color, Ask::Nothing),
        s_base_text(f, st, v, color, Ask::Class).0 == st,
    decreases f,
{
    if f > 0 {
        match base(st.heap, v) {
            Value::List(_) => lemma_items_agree((f - 1) as nat, st, v, color, 0, Seq::empty()),
            Value::Tuple(_) => lemma_items_agree((f - 1) as nat, st, v, color, 0, Seq::empty()),
            Value::Dict(id) => lemma_entries_agree((f - 1) as nat, st, v, id, color, 0, Seq::empty()),
            _ => {},
        }
    }
}

proof fn lemma_display_agrees(f: nat, st: St, v: Value, color: bool)
    requires
        quiet(st.heap, v),
    ensures
        s_display(f, st, v, color, Ask::Class) == s_display(f, st, v, color, Ask::Nothing),
        s_display(f, st, v, color, Ask::Class).0 == st,
    decreases f,
{
    if f > 0 {
        assert(quiet_to(st.heap, v, 0));
        lemma_base_agrees((f - 1) as nat, st, v, color);
    }
}

proof fn lemma_repr_agrees(f: nat, st: St, v: Value, color: bool)
    requires
        quiet(st.heap, v),
    ensures
        s_repr(f, st, v, color, Ask::Class) == s_repr(f, st, v, color, Ask::Nothing),
        s_repr(f, st, v, color, Ask::Class).0 == st,
    decreases f,
{
    if f > 0 {
        assert(quiet_to(st.heap, v, 0));
        lemma_display_agrees((f - 1) as nat, st, v, color);
    }
}

/// Where no class answers, asking the classes and asking nothing show the same, and nothing
/// changes.
pub proof fn law_asking_nothing_shows_the_same_where_no_class_answers(f: nat, st: St, v: Value, color: bool)
    requires
        quiet(st.heap, v),
    ensures
        s_display(f, st, v, color, Ask::Class) == s_display(f, st, v, color, Ask::Nothing),
        s_repr(f, st, v, color, Ask::Class) == s_repr(f, st, v, color, Ask::Nothing),
        s_display(f, st, v, color, Ask::Class).0 == st,
        s_repr(f, st, v, color, Ask::Class).0 == st,
{
    lemma_display_agrees(f, st, v, color);
    lemma_repr_agrees(f, st, v, color);
}

} // verus!
