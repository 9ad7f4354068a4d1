//! What the builtin functions and methods compute, those aside that run code of the
//! program.

use crate::error::{err, err_help, res, ErrV, ErrorKind, QuinceError};
use crate::float::{from_int, int_bits, negate, negated, truncate, truncated, NoInt};
use crate::interp::dict::{
    dict_get, dict_without, entry_keys, entry_values, find_key, key_of, keys_of, s_key_of,
    values_in,
};
use crate::interp::library::s_library;
use crate::interp::error::{frozen, frozen_error, helped_type_error, plain_type_error};
use crate::interp::fit::admitted;
use crate::interp::state::{s_list, s_text, with_heap, with_new, Interp, Out, St};
use crate::runtime::class::{base, type_text};
use crate::runtime::heap::HeapV;
use crate::runtime::object::{Entry, ObjV, Object};
use crate::runtime::types::{an, with_article};
use crate::runtime::value::{Native, ObjId, Value};
use crate::syntax::lexer::{number_of, read_number};
use crate::syntax::token::{Span, TokenKind, TokenKindV};
use crate::text::{
    cat2, cat3, cat4, cat5, cat6, chars_of, join, joined, lemma_strs_push, lowercase, pieces,
    push_char, quote, quoted, split, strs, to_lowercase, to_uppercase, uppercase,
};
use vstd::prelude::*;

verus! {

broadcast use lemma_strs_push;

// -- reports ------------------------------------------------------------------------------

/// The report for a method called on what it does not belong to.
pub open spec fn not_a(h: HeapV, native: Native, kind: Seq<char>, v: Value, span: Span) -> ErrV {
    err(
        ErrorKind::Type,
        "`"@ + native.spelled() + "` is a method of "@ + kind + ", but this is "@ + an(
            type_text(h, v),
        ),
        span,
    )
}

/// What a parameter of a builtin function is called, and the types it admits as they are
/// written. Parameters that admit anything, and conversions, are not among them.
pub open spec fn native_param(native: Native, i: nat) -> (Seq<char>, Seq<char>) {
    match native {
        Native::Len => ("value"@, "`string`, `list`, `tuple` or `dict`"@),
        Native::Split => ("separator"@, "`string`"@),
        Native::Join => ("items"@, "`list`"@),
        Native::Abs | Native::Floor => ("n"@, "`int` or `float`"@),
        Native::Seed => ("n"@, "`int`"@),
        Native::Append | Native::Write => (
            if i == 0 {
                "path"@
            } else {
                "text"@
            },
            "`string`"@,
        ),
        _ => ("path"@, "`string`"@),
    }
}

/// The report for an argument that a builtin's parameter does not admit, worded as that of a
/// function someone wrote.
pub open spec fn not_admitted(h: HeapV, native: Native, i: nat, v: Value, span: Span) -> ErrV {
    let (name, types) = native_param(native, i);
    err_help(
        ErrorKind::Type,
        "`"@ + name + "` is "@ + types + ", but this is "@ + an(type_text(h, v)),
        span,
        "`"@ + native.spelled() + "` takes "@ + types + " there"@,
    )
}

/// The report for a value no conversion takes.
pub open spec fn no_conversion(h: HeapV, v: Value, kind: Seq<char>, span: Span) -> ErrV {
    err(ErrorKind::Type, "cannot convert "@ + an(type_text(h, v)) + " to "@ + an(kind), span)
}

pub open spec fn not_a_number(text: Seq<char>, kind: Seq<char>, span: Span) -> ErrV {
    err(ErrorKind::Value, quoted(text) + " is not "@ + an(kind), span)
}

impl Interp {
    pub(crate) fn not_a(&self, native: Native, kind: &str, v: Value, span: Span) -> (r: QuinceError)
        ensures
            r@ == not_a(self@.heap, native, kind@, v, span),
    {
        let text = self.heap.type_text(v);
        let noun = with_article(text.as_str());
        let mut message = cat5("`", native.name(), "` is a method of ", kind, ", but this is ");
        message.append(noun.as_str());
        plain_type_error(message, span)
    }

    pub(crate) fn not_admitted(&self, native: Native, second: bool, v: Value, span: Span) -> (r: QuinceError)
        ensures
            r@ == not_admitted(
                self@.heap,
                native,
                if second {
                    1
                } else {
                    0
                },
                v,
                span,
            ),
    {
        let (name, types) = match native {
            Native::Len => ("value", "`string`, `list`, `tuple` or `dict`"),
            Native::Split => ("separator", "`string`"),
            Native::Join => ("items", "`list`"),
            Native::Abs | Native::Floor => ("n", "`int` or `float`"),
            Native::Seed => ("n", "`int`"),
            Native::Append | Native::Write => (
                if second {
                    "text"
                } else {
                    "path"
                },
                "`string`",
            ),
            _ => ("path", "`string`"),
        };
        let kind = self.heap.type_text(v);
        let noun = with_article(kind.as_str());
        helped_type_error(
            cat6("`", name, "` is ", types, ", but this is ", noun.as_str()),
            span,
            cat5("`", native.name(), "` takes ", types, " there").as_str(),
        )
    }

    fn no_conversion(&self, v: Value, kind: &str, span: Span) -> (r: QuinceError)
        ensures
            r@ == no_conversion(self@.heap, v, kind@, span),
    {
        let text = self.heap.type_text(v);
        let noun = with_article(text.as_str());
        let goal = with_article(kind);
        plain_type_error(cat4("cannot convert ", noun.as_str(), " to ", goal.as_str()), span)
    }
}

fn not_a_number_error(text: &str, kind: &str, span: Span) -> (r: QuinceError)
    ensures
        r@ == not_a_number(text@, kind@, span),
{
    let shown = quote(text);
    let noun = with_article(kind);
    QuinceError::new(ErrorKind::Value, cat3(shown.as_str(), " is not ", noun.as_str()), span)
}

// -- asking ----------------------------------------------------------------------------------

/// How many characters, items or entries a value has.
pub open spec fn length(h: HeapV, v: Value) -> Option<nat> {
    match base(h, v) {
        Value::Str(id) => Some(h.text(id).len()),
        Value::List(id) => Some(h.list(id).len()),
        Value::Tuple(id) => Some(h.tuple(id).len()),
        Value::Dict(id) => Some(h.dict(id).len()),
        _ => None,
    }
}

pub open spec fn s_len(st: St, v: Value, span: Span) -> Result<Value, ErrV> {
    match length(st.heap, v) {
        Some(n) => Ok(Value::Int(n as i64)),
        None => Err(not_admitted(st.heap, Native::Len, 0, v, span)),
    }
}

/// What `type` answers: the name of a value's type.
pub open spec fn s_type(st: St, v: Value) -> Out<Value> {
    let (st1, text) = s_text(st, type_text(st.heap, v));
    (st1, Ok(text))
}

impl Interp {
    fn native_len(&self, v: Value, span: Span) -> (r: Result<Value, QuinceError>)
        ensures
            res(r) == s_len(self@, v, span),
    {
        let n: usize = match self.heap.base(v) {
            Value::Str(id) => chars_of(self.heap.text(id).as_str()).len(),
            Value::List(id) => self.heap.list_len(id),
            Value::Tuple(id) => self.heap.tuple(id).len(),
            Value::Dict(id) => self.heap.dict_len(id),
            _ => {
                return Err(self.not_admitted(Native::Len, false, v, span));
            },
        };
        Ok(Value::Int(n as i64))
    }

    fn native_type(&mut self, v: Value) -> (r: Result<Value, QuinceError>)
        ensures
            (final(self)@, res(r)) == s_type(old(self)@, v),
    {
        let text = self.heap.type_text(v);
        Ok(self.new_text(text))
    }
}

// -- conversions --------------------------------------------------------------------------------

/// A float as an int, where it is one once its fraction is dropped.
pub open spec fn s_truncated(bits: u64, span: Span) -> Result<Value, ErrV> {
    match truncated(bits) {
        Ok(n) => Ok(Value::Int(n as i64)),
        Err(NoInt::NotANumber) => Err(
            err(ErrorKind::Value, "cannot convert NaN to an int"@, span),
        ),
        Err(NoInt::OutOfRange) => Err(
            err_help(
                ErrorKind::Overflow,
                "this float is too large for an int"@,
                span,
                "an int holds 64 bits"@,
            ),
        ),
    }
}

/// [`s_truncated`], decided.
pub fn checked_trunc(bits: u64, span: Span) -> (r: Result<Value, QuinceError>)
    ensures
        res(r) == s_truncated(bits, span),
{
    match truncate(bits) {
        Ok(n) => Ok(Value::Int(n)),
        Err(NoInt::NotANumber) => Err(
            QuinceError::new(ErrorKind::Value, "cannot convert NaN to an int".to_owned(), span),
        ),
        Err(NoInt::OutOfRange) => Err(
            QuinceError::new(
                ErrorKind::Overflow,
                "this float is too large for an int".to_owned(),
                span,
            ).with_help("an int holds 64 bits".to_owned()),
        ),
    }
}

/// The int a text writes.
pub open spec fn int_text(text: Seq<char>) -> Option<i64> {
    match number_of(text) {
        Some((minus, TokenKindV::Int(n))) => Some(
            if minus {
                (-n) as i64
            } else {
                n
            },
        ),
        _ => None,
    }
}

/// The float a text writes.
pub open spec fn float_text(text: Seq<char>) -> Option<u64> {
    match number_of(text) {
        Some((minus, TokenKindV::Int(n))) => Some(
            if minus {
                negated(int_bits(n as int))
            } else {
                int_bits(n as int)
            },
        ),
        Some((minus, TokenKindV::Float(bits))) => Some(
            if minus {
                negated(bits)
            } else {
                bits
            },
        ),
        _ => None,
    }
}

pub open spec fn s_to_int(st: St, v: Value, span: Span) -> Result<Value, ErrV> {
    match base(st.heap, v) {
        Value::Int(n) => Ok(Value::Int(n)),
        Value::Float(bits) => s_truncated(bits, span),
        Value::Bool(b) => Ok(
            Value::Int(
                if b {
                    1
                } else {
                    0
                },
            ),
        ),
        Value::Str(id) => match int_text(st.heap.text(id)) {
            Some(n) => Ok(Value::Int(n)),
            None => Err(not_a_number(st.heap.text(id), "int"@, span)),
        },
        _ => Err(no_conversion(st.heap, v, "int"@, span)),
    }
}

pub open spec fn s_to_float(st: St, v: Value, span: Span) -> Result<Value, ErrV> {
    match base(st.heap, v) {
        Value::Int(n) => Ok(Value::Float(int_bits(n as int))),
        Value::Float(bits) => Ok(Value::Float(bits)),
        Value::Str(id) => match float_text(st.heap.text(id)) {
            Some(bits) => Ok(Value::Float(bits)),
            None => Err(not_a_number(st.heap.text(id), "float"@, span)),
        },
        _ => Err(no_conversion(st.heap, v, "float"@, span)),
    }
}

/// A text's characters, from `i` on, as texts of their own behind `so_far`.
pub open spec fn s_char_texts(st: St, text: Seq<char>, i: int, so_far: Seq<Value>) -> (St, Seq<Value>)
    decreases text.len() - i,
{
    if i < 0 || i >= text.len() {
        (st, so_far)
    } else {
        let (st1, v) = s_text(st, seq![text[i]]);
        s_char_texts(st1, text, i + 1, so_far.push(v))
    }
}

/// What `list` makes: an empty list, or one of what a value holds.
pub open spec fn s_to_list(st: St, args: Seq<Value>, span: Span) -> Out<Value> {
    if args.len() == 0 {
        let (st1, v) = s_list(st, Seq::empty());
        (st1, Ok(v))
    } else if args.len() > 1 {
        (st, Err(too_many(Native::ToList, args.len(), span)))
    } else {
        match base(st.heap, args[0]) {
            Value::List(id) => {
                let (st1, v) = s_list(st, st.heap.list(id));
                (st1, Ok(v))
            },
            Value::Tuple(id) => {
                let (st1, v) = s_list(st, st.heap.tuple(id));
                (st1, Ok(v))
            },
            Value::Dict(id) => {
                let (st1, v) = s_list(st, keys_of(st.heap.dict(id)));
                (st1, Ok(v))
            },
            Value::Str(id) => {
                let (st1, items) = s_char_texts(st, st.heap.text(id), 0, Seq::empty());
                let (st2, v) = s_list(st1, items);
                (st2, Ok(v))
            },
            _ => (st, Err(no_conversion(st.heap, args[0], "list"@, span))),
        }
    }
}

pub open spec fn too_many(native: Native, given: nat, span: Span) -> ErrV {
    err(
        ErrorKind::Type,
        "`"@ + native.spelled() + "` takes 0 to 1 arguments, but "@ + crate::text::digits(given)
            + " were given"@,
        span,
    )
}

fn too_many_error(native: Native, given: usize, span: Span) -> (r: QuinceError)
    ensures
        r@ == too_many(native, given as nat, span),
{
    let count = crate::text::digits_of(given as u64);
    plain_type_error(
        cat5(
            "`",
            native.name(),
            "` takes 0 to 1 arguments, but ",
            count.as_str(),
            " were given",
        ),
        span,
    )
}

/// What `dict` makes: an empty dict, or a copy of one.
pub open spec fn s_to_dict(st: St, args: Seq<Value>, span: Span) -> Out<Value> {
    if args.len() == 0 {
        (with_new(st, ObjV::Dict(Seq::empty())), Ok(Value::Dict(st.heap.next_id())))
    } else if args.len() > 1 {
        (st, Err(too_many(Native::ToDict, args.len(), span)))
    } else {
        match base(st.heap, args[0]) {
            Value::Dict(id) => (
                with_new(st, ObjV::Dict(st.heap.dict(id))),
                Ok(Value::Dict(st.heap.next_id())),
            ),
            _ => (st, Err(no_conversion(st.heap, args[0], "dict"@, span))),
        }
    }
}

impl Interp {
    fn to_int(&self, v: Value, span: Span) -> (r: Result<Value, QuinceError>)
        ensures
            res(r) == s_to_int(self@, v, span),
    {
        match self.heap.base(v) {
            Value::Int(n) => Ok(Value::Int(n)),
            Value::Float(bits) => checked_trunc(bits, span),
            Value::Bool(b) => Ok(
                Value::Int(
                    if b {
                        1
                    } else {
                        0
                    },
                ),
            ),
            Value::Str(id) => {
                let text = self.heap.text(id);
                match read_number(text.as_str()) {
                    Some((minus, TokenKind::Int(n))) => {
                        proof {
                            crate::syntax::lexer::lemma_number_is_positive(text@);
                        }
                        Ok(
                            Value::Int(
                                if minus {
                                    -n
                                } else {
                                    n
                                },
                            ),
                        )
                    },
                    _ => Err(not_a_number_error(text.as_str(), "int", span)),
                }
            },
            _ => Err(self.no_conversion(v, "int", span)),
        }
    }

    fn to_float(&self, v: Value, span: Span) -> (r: Result<Value, QuinceError>)
        ensures
            res(r) == s_to_float(self@, v, span),
    {
        match self.heap.base(v) {
            Value::Int(n) => Ok(Value::Float(from_int(n))),
            Value::Float(bits) => Ok(Value::Float(bits)),
            Value::Str(id) => {
                let text = self.heap.text(id);
                let (minus, bits) = match read_number(text.as_str()) {
                    Some((minus, TokenKind::Int(n))) => (minus, from_int(n)),
                    Some((minus, TokenKind::Float(bits))) => (minus, bits),
                    _ => {
                        return Err(not_a_number_error(text.as_str(), "float", span));
                    },
                };
                Ok(
                    Value::Float(
                        if minus {
                            negate(bits)
                        } else {
                            bits
                        },
                    ),
                )
            },
            _ => Err(self.no_conversion(v, "float", span)),
        }
    }

    fn char_texts(&mut self, text: &str) -> (r: Vec<Value>)
        ensures
            (final(self)@, r@) == s_char_texts(old(self)@, text@, 0, Seq::empty()),
    {
        let chars = chars_of(text);
        let ghost goal = s_char_texts(self@, text@, 0, Seq::empty());
        let mut r: Vec<Value> = Vec::new();
        assert(r@ =~= Seq::empty());
        let mut i: usize = 0;
        while i < chars.len()
            invariant
                i <= chars@.len(),
                chars@ == text@,
                goal == s_char_texts(self@, text@, i as int, r@),
            decreases chars@.len() - i,
        {
            let mut one = String::new();
            push_char(&mut one, chars[i]);
            assert(one@ =~= seq![text@[i as int]]);
            let v = self.new_text(one);
            r.push(v);
            i += 1;
        }
        r
    }

    fn to_list(&mut self, args: &Vec<Value>, span: Span) -> (r: Result<Value, QuinceError>)
        ensures
            (final(self)@, res(r)) == s_to_list(old(self)@, args@, span),
    {
        if args.len() == 0 {
            let none: Vec<Value> = Vec::new();
            assert(none@ =~= Seq::empty());
            return Ok(self.new_list(none));
        }
        if args.len() > 1 {
            return Err(too_many_error(Native::ToList, args.len(), span));
        }
        match self.heap.base(args[0]) {
            Value::List(id) => {
                let items = self.heap.list(id);
                Ok(self.new_list(items))
            },
            Value::Tuple(id) => {
                let items = self.heap.tuple(id);
                Ok(self.new_list(items))
            },
            Value::Dict(id) => {
                let items = entry_keys(&self.heap.dict(id));
                Ok(self.new_list(items))
            },
            Value::Str(id) => {
                let text = self.heap.text(id);
                let items = self.char_texts(text.as_str());
                Ok(self.new_list(items))
            },
            _ => Err(self.no_conversion(args[0], "list", span)),
        }
    }

    fn to_dict(&mut self, args: &Vec<Value>, span: Span) -> (r: Result<Value, QuinceError>)
        ensures
            (final(self)@, res(r)) == s_to_dict(old(self)@, args@, span),
    {
        if args.len() == 0 {
            let none: Vec<Entry> = Vec::new();
            assert(none@ =~= Seq::empty());
            return Ok(Value::Dict(self.heap.add_object(Object::Dict(none))));
        }
        if args.len() > 1 {
            return Err(too_many_error(Native::ToDict, args.len(), span));
        }
        match self.heap.base(args[0]) {
            Value::Dict(id) => {
                let entries = self.heap.dict(id);
                Ok(Value::Dict(self.heap.add_object(Object::Dict(entries))))
            },
            _ => Err(self.no_conversion(args[0], "dict", span)),
        }
    }
}

// -- lists -----------------------------------------------------------------------------------------

/// What `push` does: an item the list's description admits goes at the end.
pub open spec fn s_push(st: St, target: Value, item: Value, span: Span) -> Out<Value> {
    match base(st.heap, target) {
        Value::List(id) => match admitted(st.heap, id, 0, item, "the item"@, span) {
            Err(e) => (st, Err(e)),
            Ok(v) => if st.heap.frozen(id) {
                (st, Err(frozen_error(st.heap, target, span)))
            } else {
                (
                    with_heap(
                        st,
                        match st.heap.obj(id) {
                            Some(ObjV::List(s)) => st.heap.with_object(id, ObjV::List(s.push(v))),
                            _ => st.heap,
                        },
                    ),
                    Ok(Value::Nil),
                )
            },
        },
        _ => (st, Err(not_a(st.heap, Native::Push, "list"@, target, span))),
    }
}

/// What `pop` does: takes the last item off.
pub open spec fn s_pop(st: St, target: Value, span: Span) -> Out<Value> {
    match base(st.heap, target) {
        Value::List(id) => if st.heap.frozen(id) {
            (st, Err(frozen_error(st.heap, target, span)))
        } else if st.heap.list(id).len() == 0 {
            (st, Err(err(ErrorKind::Index, "cannot pop from an empty list"@, span)))
        } else {
            (
                with_heap(
                    st,
                    st.heap.with_object(id, ObjV::List(st.heap.list(id).drop_last())),
                ),
                Ok(st.heap.list(id).last()),
            )
        },
        _ => (st, Err(not_a(st.heap, Native::Pop, "list"@, target, span))),
    }
}

impl Interp {
    fn native_push(&mut self, target: Value, item: Value, span: Span) -> (r: Result<
        Value,
        QuinceError,
    >)
        ensures
            (final(self)@, res(r)) == s_push(old(self)@, target, item, span),
    {
        match self.heap.base(target) {
            Value::List(id) => {
                let v = self.heap.admitted(id, 0, item, "the item", span)?;
                if self.heap.frozen(id) {
                    return Err(frozen(&self.heap, target, span));
                }
                self.heap.push_item(id, v);
                Ok(Value::Nil)
            },
            _ => Err(self.not_a(Native::Push, "list", target, span)),
        }
    }

    fn native_pop(&mut self, target: Value, span: Span) -> (r: Result<Value, QuinceError>)
        ensures
            (final(self)@, res(r)) == s_pop(old(self)@, target, span),
    {
        match self.heap.base(target) {
            Value::List(id) => {
                if self.heap.frozen(id) {
                    return Err(frozen(&self.heap, target, span));
                }
                let mut items = self.heap.list(id);
                match items.pop() {
                    Some(last) => {
                        assert(items@ =~= self@.heap.list(id).drop_last());
                        self.heap.set_object(id, Object::List(items));
                        Ok(last)
                    },
                    None => Err(
                        QuinceError::new(
                            ErrorKind::Index,
                            "cannot pop from an empty list".to_owned(),
                            span,
                        ),
                    ),
                }
            },
            _ => Err(self.not_a(Native::Pop, "list", target, span)),
        }
    }
}

// -- dicts ------------------------------------------------------------------------------------------

pub open spec fn s_keys(st: St, target: Value, span: Span) -> Out<Value> {
    match base(st.heap, target) {
        Value::Dict(id) => {
            let (st1, v) = s_list(st, keys_of(st.heap.dict(id)));
            (st1, Ok(v))
        },
        _ => (st, Err(not_a(st.heap, Native::Keys, "dict"@, target, span))),
    }
}

pub open spec fn s_values_of(st: St, target: Value, span: Span) -> Out<Value> {
    match base(st.heap, target) {
        Value::Dict(id) => {
            let (st1, v) = s_list(st, values_in(st.heap.dict(id)));
            (st1, Ok(v))
        },
        _ => (st, Err(not_a(st.heap, Native::Values, "dict"@, target, span))),
    }
}

/// What `remove` does: takes an entry out and answers with what it held.
pub open spec fn s_remove(st: St, target: Value, key: Value, span: Span) -> Out<Value> {
    match base(st.heap, target) {
        Value::Dict(id) => match s_key_of(st.heap, key, span) {
            Err(e) => (st, Err(e)),
            Ok(k) => if st.heap.frozen(id) {
                (st, Err(frozen_error(st.heap, target, span)))
            } else {
                match dict_get(st.heap, st.heap.dict(id), k) {
                    None => (
                        st,
                        Err(err(ErrorKind::Key, "there is no such key to remove"@, span)),
                    ),
                    Some(v) => (
                        with_heap(
                            st,
                            st.heap.with_object(
                                id,
                                ObjV::Dict(dict_without(st.heap, st.heap.dict(id), k)),
                            ),
                        ),
                        Ok(v),
                    ),
                }
            },
        },
        _ => (st, Err(not_a(st.heap, Native::Remove, "dict"@, target, span))),
    }
}

impl Interp {
    fn native_keys(&mut self, target: Value, span: Span) -> (r: Result<Value, QuinceError>)
        ensures
            (final(self)@, res(r)) == s_keys(old(self)@, target, span),
    {
        match self.heap.base(target) {
            Value::Dict(id) => {
                let items = entry_keys(&self.heap.dict(id));
                Ok(self.new_list(items))
            },
            _ => Err(self.not_a(Native::Keys, "dict", target, span)),
        }
    }

    fn native_values(&mut self, target: Value, span: Span) -> (r: Result<Value, QuinceError>)
        ensures
            (final(self)@, res(r)) == s_values_of(old(self)@, target, span),
    {
        match self.heap.base(target) {
            Value::Dict(id) => {
                let items = entry_values(&self.heap.dict(id));
                Ok(self.new_list(items))
            },
            _ => Err(self.not_a(Native::Values, "dict", target, span)),
        }
    }

    fn native_remove(&mut self, target: Value, key: Value, span: Span) -> (r: Result<
        Value,
        QuinceError,
    >)
        ensures
            (final(self)@, res(r)) == s_remove(old(self)@, target, key, span),
    {
        match self.heap.base(target) {
            Value::Dict(id) => {
                let k = key_of(&self.heap, key, span)?;
                if self.heap.frozen(id) {
                    return Err(frozen(&self.heap, target, span));
                }
                let mut entries = self.heap.dict(id);
                match find_key(&self.heap, &entries, k) {
                    Some(i) => {
                        let v = entries[i].value;
                        entries.remove(i);
                        self.heap.set_object(id, Object::Dict(entries));
                        Ok(v)
                    },
                    None => Err(
                        QuinceError::new(
                            ErrorKind::Key,
                            "there is no such key to remove".to_owned(),
                            span,
                        ),
                    ),
                }
            },
            _ => Err(self.not_a(Native::Remove, "dict", target, span)),
        }
    }
}

// -- strings ------------------------------------------------------------------------------------------

/// What `upper` and `lower` make of a text.
pub open spec fn s_cased(st: St, native: Native, target: Value, span: Span) -> Out<Value> {
    match base(st.heap, target) {
        Value::Str(id) => {
            let text = st.heap.text(id);
            let (st1, v) = s_text(
                st,
                if native == Native::Upper {
                    uppercase(text)
                } else {
                    lowercase(text)
                },
            );
            (st1, Ok(v))
        },
        _ => (st, Err(not_a(st.heap, native, "string"@, target, span))),
    }
}

/// Texts from `i` on, as values behind `so_far`.
pub open spec fn s_texts(st: St, texts: Seq<Seq<char>>, i: int, so_far: Seq<Value>) -> (St, Seq<Value>)
    decreases texts.len() - i,
{
    if i < 0 || i >= texts.len() {
        (st, so_far)
    } else {
        let (st1, v) = s_text(st, texts[i]);
        s_texts(st1, texts, i + 1, so_far.push(v))
    }
}

/// What `split` makes of a text and what it is split at.
pub open spec fn s_split(st: St, target: Value, sep: Value, span: Span) -> Out<Value> {
    match (base(st.heap, target), base(st.heap, sep)) {
        (Value::Str(id), Value::Str(by)) => if st.heap.text(by).len() == 0 {
            (st, Err(err(ErrorKind::Value, "cannot split at an empty string"@, span)))
        } else {
            let (st1, items) = s_texts(
                st,
                pieces(st.heap.text(id), st.heap.text(by), 0),
                0,
                Seq::empty(),
            );
            let (st2, v) = s_list(st1, items);
            (st2, Ok(v))
        },
        (Value::Str(_), _) => (st, Err(not_admitted(st.heap, Native::Split, 0, sep, span))),
        _ => (st, Err(not_a(st.heap, Native::Split, "string"@, target, span))),
    }
}

/// The texts of strings, or the first value that is none.
pub open spec fn texts_of(h: HeapV, items: Seq<Value>, i: int, so_far: Seq<Seq<char>>) -> Result<
    Seq<Seq<char>>,
    Value,
>
    decreases items.len() - i,
{
    if i < 0 || i >= items.len() {
        Ok(so_far)
    } else {
        match base(h, items[i]) {
            Value::Str(id) => texts_of(h, items, i + 1, so_far.push(h.text(id))),
            _ => Err(items[i]),
        }
    }
}

/// What `join` makes of a list of texts and the text it is called on.
pub open spec fn s_join(st: St, target: Value, list: Value, span: Span) -> Out<Value> {
    match (base(st.heap, target), base(st.heap, list)) {
        (Value::Str(id), Value::List(items)) => match texts_of(
            st.heap,
            st.heap.list(items),
            0,
            Seq::empty(),
        ) {
            Ok(texts) => {
                let (st1, v) = s_text(st, joined(texts, st.heap.text(id)));
                (st1, Ok(v))
            },
            Err(v) => (
                st,
                Err(
                    err(
                        ErrorKind::Type,
                        "`join` takes a list of strings, but this one holds "@ + an(
                            type_text(st.heap, v),
                        ),
                        span,
                    ),
                ),
            ),
        },
        (Value::Str(_), _) => (st, Err(not_admitted(st.heap, Native::Join, 0, list, span))),
        _ => (st, Err(not_a(st.heap, Native::Join, "string"@, target, span))),
    }
}

impl Interp {
    fn native_cased(&mut self, native: Native, target: Value, span: Span) -> (r: Result<
        Value,
        QuinceError,
    >)
        ensures
            (final(self)@, res(r)) == s_cased(old(self)@, native, target, span),
    {
        match self.heap.base(target) {
            Value::Str(id) => {
                let text = self.heap.text(id);
                let cased = if native == Native::Upper {
                    to_uppercase(text.as_str())
                } else {
                    to_lowercase(text.as_str())
                };
                Ok(self.new_text(cased))
            },
            _ => Err(self.not_a(native, "string", target, span)),
        }
    }

    pub(crate) fn new_texts(&mut self, texts: Vec<String>) -> (r: Vec<Value>)
        ensures
            (final(self)@, r@) == s_texts(old(self)@, strs(texts@), 0, Seq::empty()),
    {
        let ghost goal = s_texts(self@, strs(texts@), 0, Seq::empty());
        let mut r: Vec<Value> = Vec::new();
        assert(r@ =~= Seq::empty());
        let mut i: usize = 0;
        while i < texts.len()
            invariant
                i <= texts@.len(),
                goal == s_texts(self@, strs(texts@), i as int, r@),
            decreases texts@.len() - i,
        {
            let v = self.new_text(texts[i].clone());
            r.push(v);
            i += 1;
        }
        r
    }

    fn native_split(&mut self, target: Value, sep: Value, span: Span) -> (r: Result<
        Value,
        QuinceError,
    >)
        ensures
            (final(self)@, res(r)) == s_split(old(self)@, target, sep, span),
    {
        match (self.heap.base(target), self.heap.base(sep)) {
            (Value::Str(id), Value::Str(by)) => {
                let text = self.heap.text(id);
                let at = self.heap.text(by);
                if at.as_str().unicode_len() == 0 {
                    return Err(
                        QuinceError::new(
                            ErrorKind::Value,
                            "cannot split at an empty string".to_owned(),
                            span,
                        ),
                    );
                }
                let parts = split(text.as_str(), at.as_str());
                let items = self.new_texts(parts);
                Ok(self.new_list(items))
            },
            (Value::Str(_), _) => Err(self.not_admitted(Native::Split, false, sep, span)),
            _ => Err(self.not_a(Native::Split, "string", target, span)),
        }
    }

    fn texts_of(&self, items: &Vec<Value>) -> (r: Result<Vec<String>, Value>)
        ensures
            match r {
                Ok(texts) => texts_of(self@.heap, items@, 0, Seq::empty()) == Ok::<
                    Seq<Seq<char>>,
                    Value,
                >(strs(texts@)),
                Err(v) => texts_of(self@.heap, items@, 0, Seq::empty()) == Err::<
                    Seq<Seq<char>>,
                    Value,
                >(v),
            },
    {
        let mut r: Vec<String> = Vec::new();
        assert(strs(r@) =~= Seq::empty());
        let mut i: usize = 0;
        while i < items.len()
            invariant
                i <= items@.len(),
                texts_of(self@.heap, items@, 0, Seq::empty()) == texts_of(
                    self@.heap,
                    items@,
                    i as int,
                    strs(r@),
                ),
            decreases items@.len() - i,
        {
            match self.heap.base(items[i]) {
                Value::Str(id) => {
                    r.push(self.heap.text(id));
                },
                _ => {
                    return Err(items[i]);
                },
            }
            i += 1;
        }
        Ok(r)
    }

    fn native_join(&mut self, target: Value, list: Value, span: Span) -> (r: Result<
        Value,
        QuinceError,
    >)
        ensures
            (final(self)@, res(r)) == s_join(old(self)@, target, list, span),
    {
        match (self.heap.base(target), self.heap.base(list)) {
            (Value::Str(id), Value::List(items)) => {
                let sep = self.heap.text(id);
                let held = self.heap.list(items);
                match self.texts_of(&held) {
                    Ok(texts) => {
                        let text = join(&texts, sep.as_str());
                        Ok(self.new_text(text))
                    },
                    Err(v) => {
                        let kind = self.heap.type_text(v);
                        let noun = with_article(kind.as_str());
                        Err(
                            plain_type_error(
                                cat2(
                                    "`join` takes a list of strings, but this one holds ",
                                    noun.as_str(),
                                ),
                                span,
                            ),
                        )
                    },
                }
            },
            (Value::Str(_), _) => Err(self.not_admitted(Native::Join, false, list, span)),
            _ => Err(self.not_a(Native::Join, "string", target, span)),
        }
    }
}

// -- all of them -------------------------------------------------------------------------------------

/// An argument, where it was given.
pub open spec fn arg(args: Seq<Value>, i: int) -> Value {
    if 0 <= i < args.len() {
        args[i]
    } else {
        Value::Nil
    }
}

/// What a builtin that runs no code of the program answers.
pub open spec fn s_plain_native(st: St, native: Native, args: Seq<Value>, span: Span) -> Out<Value> {
    let first = arg(args, 0);
    let second = arg(args, 1);
    match native {
        Native::Len => (st, s_len(st, first, span)),
        Native::Type => s_type(st, first),
        Native::ToInt => (st, s_to_int(st, first, span)),
        Native::ToFloat => (st, s_to_float(st, first, span)),
        Native::ToList => s_to_list(st, args, span),
        Native::ToDict => s_to_dict(st, args, span),
        Native::Push => s_push(st, first, second, span),
        Native::Pop => s_pop(st, first, span),
        Native::Keys => s_keys(st, first, span),
        Native::Values => s_values_of(st, first, span),
        Native::Remove => s_remove(st, first, second, span),
        Native::Split => s_split(st, first, second, span),
        Native::Join => s_join(st, first, second, span),
        Native::Abs | Native::Floor | Native::Append | Native::Exists | Native::Line | Native::Lines | Native::Read
        | Native::Write | Native::Next | Native::Seed => s_library(st, native, args, span),
        _ => s_cased(st, native, first, span),
    }
}

pub(crate) fn argument(args: &Vec<Value>, i: usize) -> (r: Value)
    ensures
        r == arg(args@, i as int),
{
    if i < args.len() {
        args[i]
    } else {
        Value::Nil
    }
}

impl Interp {
    /// [`s_plain_native`], computed.
    pub(crate) fn plain_native(&mut self, native: Native, args: &Vec<Value>, span: Span) -> (r:
        Result<Value, QuinceError>)
        ensures
            (final(self)@, res(r)) == s_plain_native(old(self)@, native, args@, span),
    {
        let first = argument(args, 0);
        let second = argument(args, 1);
        match native {
            Native::Len => self.native_len(first, span),
            Native::Type => self.native_type(first),
            Native::ToInt => self.to_int(first, span),
            Native::ToFloat => self.to_float(first, span),
            Native::ToList => self.to_list(args, span),
            Native::ToDict => self.to_dict(args, span),
            Native::Push => self.native_push(first, second, span),
            Native::Pop => self.native_pop(first, span),
            Native::Keys => self.native_keys(first, span),
            Native::Values => self.native_values(first, span),
            Native::Remove => self.native_remove(first, second, span),
            Native::Split => self.native_split(first, second, span),
            Native::Join => self.native_join(first, second, span),
            Native::Abs | Native::Floor | Native::Append | Native::Exists | Native::Line | Native::Lines
            | Native::Read | Native::Write | Native::Next | Native::Seed => self.library(native, args, span),
            _ => self.native_cased(native, first, span),
        }
    }
}

// -- laws ------------------------------------------------------------------------------------------------

/// What was pushed last is what `pop` takes off, and the list is as it was.
pub proof fn law_pop_undoes_push(st: St, id: ObjId, v: Value, span: Span)
    requires
        st.heap.obj(id) matches Some(o) && o is List,
        st.heap.descriptor(id) is None,
        !st.heap.frozen(id),
    ensures
        ({
            let (st1, r1) = s_push(st, Value::List(id), v, span);
            let (st2, r2) = s_pop(st1, Value::List(id), span);
            &&& r1 == Ok::<Value, ErrV>(Value::Nil)
            &&& r2 == Ok::<Value, ErrV>(v)
            &&& st2 == st
        }),
{
    let (st1, r1) = s_push(st, Value::List(id), v, span);
    let (st2, r2) = s_pop(st1, Value::List(id), span);
    assert(st1.heap.list(id) == st.heap.list(id).push(v));
    assert(st.heap.list(id).push(v).drop_last() =~= st.heap.list(id));
    assert(st2.heap.cells =~= st.heap.cells);
}

/// A builtin that changes a value refuses a frozen one and changes nothing.
pub proof fn law_a_frozen_list_is_never_changed(st: St, id: ObjId, v: Value, span: Span)
    requires
        st.heap.frozen(id),
    ensures
        s_push(st, Value::List(id), v, span).0 == st,
        s_pop(st, Value::List(id), span).0 == st,
        s_push(st, Value::List(id), v, span).1 is Err,
        s_pop(st, Value::List(id), span).1 is Err,
{
}

} // verus!
