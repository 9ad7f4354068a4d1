//! What a subscript and a slice select.

use crate::error::{err, err_help, ErrV, ErrorKind, QuinceError};
use crate::interp::error::plain_type_error;
use crate::interp::ops::s_slice;
use crate::interp::sound::sound;
use crate::interp::state::St;
use crate::runtime::class::{base, class_of, slot_of, type_text};
use crate::runtime::heap::{law_a_new_object_moves_nothing, Heap, HeapV};
use crate::runtime::object::ObjV;
use crate::syntax::ast::Op;
use crate::runtime::value::Value;
use crate::syntax::token::Span;
use crate::text::{cat3, cat5, decimal, decimal_of, digits, digits_of};
use vstd::prelude::*;

verus! {

/// The position a subscript selects of `len`, counting from the end where it is
/// negative.
pub open spec fn s_resolve_index(h: HeapV, index: Value, len: nat, what: Seq<char>, span: Span) -> Result<
    int,
    ErrV,
> {
    match index {
        Value::Int(raw) => {
            let offset = if raw < 0 {
                raw + len
            } else {
                raw as int
            };
            if 0 <= offset < len {
                Ok(offset)
            } else {
                Err(
                    err_help(
                        ErrorKind::Index,
                        "index "@ + decimal(raw as int) + " is out of range for a "@ + what
                            + " of length "@ + digits(len),
                        span,
                        if len == 0 {
                            "the "@ + what + " is empty"@
                        } else {
                            "valid range is 0.."@ + digits((len - 1) as nat)
                        },
                    ),
                )
            }
        },
        _ => Err(
            err(
                ErrorKind::Type,
                what + " index must be an int, found "@ + type_text(h, index),
                span,
            ),
        ),
    }
}

/// [`s_resolve_index`], decided.
pub fn resolve_index(heap: &Heap, index: Value, len: usize, what: &str, span: Span) -> (r: Result<
    usize,
    QuinceError,
>)
    ensures
        match r {
            Ok(i) => i < len && s_resolve_index(heap@, index, len as nat, what@, span) == Ok::<
                int,
                ErrV,
            >(i as int),
            Err(e) => s_resolve_index(heap@, index, len as nat, what@, span) == Err::<int, ErrV>(
                e@,
            ),
        },
{
    match index {
        Value::Int(raw) => {
            let offset: i128 = if raw < 0 {
                raw as i128 + len as i128
            } else {
                raw as i128
            };
            if 0 <= offset && offset < len as i128 {
                return Ok(offset as usize);
            }
            let number = decimal_of(raw);
            let length = digits_of(len as u64);
            let mut message = cat5(
                "index ",
                number.as_str(),
                " is out of range for a ",
                what,
                " of length ",
            );
            message.append(length.as_str());
            let help = if len == 0 {
                cat3("the ", what, " is empty")
            } else {
                let last = digits_of((len - 1) as u64);
                let mut help = String::from_str("valid range is 0..");
                help.append(last.as_str());
                help
            };
            Err(QuinceError::new(ErrorKind::Index, message, span).with_help(help))
        },
        _ => {
            let kind = heap.type_text(index);
            Err(
                plain_type_error(
                    cat3(what, " index must be an int, found ", kind.as_str()),
                    span,
                ),
            )
        },
    }
}

/// A number brought into a range.
pub open spec fn clamped(n: int, low: int, high: int) -> int {
    if n < low {
        low
    } else if n > high {
        high
    } else {
        n
    }
}

/// One end of a slice, before it is brought into range.
pub open spec fn s_bound(h: HeapV, bound: Option<Value>, absent: int, len: int, span: Span) -> Result<
    int,
    ErrV,
> {
    match bound {
        None => Ok(absent),
        Some(Value::Int(raw)) => Ok(
            if raw < 0 {
                raw + len
            } else {
                raw as int
            },
        ),
        Some(v) => Err(
            err(ErrorKind::Type, "slice bounds must be ints, found "@ + type_text(h, v), span),
        ),
    }
}

/// What a slice takes of `len`: its bounds are clamped rather than checked, and one
/// that ends before it starts takes nothing.
pub open spec fn s_slice_bounds(
    h: HeapV,
    start: Option<Value>,
    end: Option<Value>,
    len: int,
    span: Span,
) -> Result<(int, int), ErrV> {
    match s_bound(h, start, 0, len, span) {
        Err(e) => Err(e),
        Ok(a) => match s_bound(h, end, len, len, span) {
            Err(e) => Err(e),
            Ok(b) => {
                let from = clamped(a, 0, len);
                let to = clamped(b, 0, len);
                Ok(
                    (
                        from,
                        if to < from {
                            from
                        } else {
                            to
                        },
                    ),
                )
            },
        },
    }
}

fn bound_of(heap: &Heap, bound: Option<Value>, absent: usize, len: usize, span: Span) -> (r: Result<
    usize,
    QuinceError,
>)
    requires
        absent <= len,
    ensures
        match r {
            Ok(n) => s_bound(heap@, bound, absent as int, len as int, span) is Ok && n == clamped(
                s_bound(heap@, bound, absent as int, len as int, span)->Ok_0,
                0,
                len as int,
            ),
            Err(e) => s_bound(heap@, bound, absent as int, len as int, span) == Err::<int, ErrV>(e@),
        },
{
    match bound {
        None => Ok(absent),
        Some(Value::Int(raw)) => {
            let offset: i128 = if raw < 0 {
                raw as i128 + len as i128
            } else {
                raw as i128
            };
            if offset < 0 {
                Ok(0)
            } else if offset > len as i128 {
                Ok(len)
            } else {
                Ok(offset as usize)
            }
        },
        Some(v) => {
            let kind = heap.type_text(v);
            let mut message = String::from_str("slice bounds must be ints, found ");
            message.append(kind.as_str());
            Err(plain_type_error(message, span))
        },
    }
}

/// [`s_slice_bounds`], decided.
pub fn slice_bounds(
    heap: &Heap,
    start: Option<Value>,
    end: Option<Value>,
    len: usize,
    span: Span,
) -> (r: Result<(usize, usize), QuinceError>)
    ensures
        match r {
            Ok((from, to)) => from <= to <= len && s_slice_bounds(
                heap@,
                start,
                end,
                len as int,
                span,
            ) == Ok::<(int, int), ErrV>((from as int, to as int)),
            Err(e) => s_slice_bounds(heap@, start, end, len as int, span) == Err::<
                (int, int),
                ErrV,
            >(e@),
        },
{
    let from: usize = bound_of(heap, start, 0, len, span)?;
    let to: usize = bound_of(heap, end, len, len, span)?;
    Ok(
        (
            from,
            if to < from {
                from
            } else {
                to
            },
        ),
    )
}

/// A slice always lies inside what it is taken of.
pub proof fn law_a_slice_lies_inside(
    h: HeapV,
    start: Option<Value>,
    end: Option<Value>,
    len: int,
    span: Span,
)
    requires
        0 <= len,
    ensures
        s_slice_bounds(h, start, end, len, span) matches Ok((from, to)) ==> 0 <= from <= to <= len,
{
}

/// Leaving both bounds out takes everything.
pub proof fn law_a_bare_slice_takes_everything(h: HeapV, len: int, span: Span)
    requires
        0 <= len,
    ensures
        s_slice_bounds(h, None, None, len, span) == Ok::<(int, int), ErrV>((0, len)),
{
}

/// A negative subscript counts from the end.
pub proof fn law_a_negative_index_counts_from_the_end(
    h: HeapV,
    k: i64,
    len: nat,
    what: Seq<char>,
    span: Span,
)
    requires
        1 <= k <= len,
    ensures
        s_resolve_index(h, Value::Int((-k) as i64), len, what, span) == Ok::<int, ErrV>(len - k),
{
}

/// Two slices that share a bound, one up to it and one from it on, are together the whole.
pub proof fn law_two_slices_make_the_whole<T>(h: HeapV, s: Seq<T>, at: i64, span: Span)
    ensures
        s_slice_bounds(h, None, Some(Value::Int(at)), s.len() as int, span) is Ok,
        s_slice_bounds(h, Some(Value::Int(at)), None, s.len() as int, span) is Ok,
        ({
            let (a, b) = s_slice_bounds(h, None, Some(Value::Int(at)), s.len() as int, span)->Ok_0;
            let (c, d) = s_slice_bounds(h, Some(Value::Int(at)), None, s.len() as int, span)->Ok_0;
            s.subrange(a, b) + s.subrange(c, d) == s
        }),
{
    let (a, b) = s_slice_bounds(h, None, Some(Value::Int(at)), s.len() as int, span)->Ok_0;
    let (c, d) = s_slice_bounds(h, Some(Value::Int(at)), None, s.len() as int, span)->Ok_0;
    assert(s.subrange(a, b) + s.subrange(c, d) =~= s);
}

/// Whether a list or a string, and what it is an instance of, are on the heap.
pub open spec fn on_heap(h: HeapV, target: Value) -> bool {
    &&& target is Instance ==> h.cell(target->Instance_0) is Some
    &&& h.cell(class_of(h, target)) is Some
    &&& match base(h, target) {
        Value::Str(id) => h.cell(id) is Some,
        Value::List(id) => h.cell(id) is Some,
        _ => false,
    }
}

/// What a list or a string holds.
pub open spec fn held_at(h: HeapV, target: Value) -> (Seq<char>, Seq<Value>) {
    match base(h, target) {
        Value::Str(id) => (h.text(id), Seq::empty()),
        Value::List(id) => (Seq::empty(), h.list(id)),
        _ => (Seq::empty(), Seq::empty()),
    }
}

/// A new object leaves what is on the heap as it was.
proof fn lemma_still_there(h: HeapV, object: ObjV, target: Value)
    requires
        h.tidy(),
        h.cells.len() < usize::MAX,
        on_heap(h, target),
    ensures
        ({
            let next = h.with_new(object);
            &&& on_heap(next, target)
            &&& base(next, target) == base(h, target)
            &&& held_at(next, target) == held_at(h, target)
            &&& slot_of(next, target, Op::Get) == slot_of(h, target, Op::Get)
        }),
{
    let next = h.with_new(object);
    law_a_new_object_moves_nothing(h, object);
    if let Value::Instance(id) = target {
        assert(next.cell(id) == h.cell(id));
    }
    assert(class_of(next, target) == class_of(h, target));
    assert(next.cell(class_of(h, target)) == h.cell(class_of(h, target)));
    match base(h, target) {
        Value::Str(id) => {
            assert(next.cell(id) == h.cell(id));
        },
        Value::List(id) => {
            assert(next.cell(id) == h.cell(id));
        },
        _ => {},
    }
}

/// Slicing a list or a string up to a place and from it on succeeds at every place, and the two
/// make up the whole. They are new, and what was sliced is as it was.
pub proof fn law_slicing_in_two_loses_nothing(st: St, target: Value, at: i64, span: Span)
    requires
        sound(st.heap, st.globals),
        st.heap.cells.len() + 2 <= usize::MAX,
        on_heap(st.heap, target),
        slot_of(st.heap, target, Op::Get) is None,
    ensures
        ({
            let (st1, a) = s_slice(st, target, None, Some(Value::Int(at)), span);
            let (st2, b) = s_slice(st1, target, Some(Value::Int(at)), None, span);
            &&& a is Ok
            &&& b is Ok
            &&& held_at(st2.heap, a->Ok_0).0 + held_at(st2.heap, b->Ok_0).0 == held_at(st.heap, target).0
            &&& held_at(st2.heap, a->Ok_0).1 + held_at(st2.heap, b->Ok_0).1 == held_at(st.heap, target).1
            &&& held_at(st2.heap, target) == held_at(st.heap, target)
            &&& a->Ok_0 != base(st.heap, target)
            &&& b->Ok_0 != base(st.heap, target)
            &&& a->Ok_0 != b->Ok_0
        }),
{
    let h = st.heap;
    let n = match base(h, target) {
        Value::Str(id) => h.text(id).len() as int,
        Value::List(id) => h.list(id).len() as int,
        _ => 0,
    };
    let (from, to) = s_slice_bounds(h, None, Some(Value::Int(at)), n, span)->Ok_0;
    let (st1, a) = s_slice(st, target, None, Some(Value::Int(at)), span);
    match base(h, target) {
        Value::Str(id) => {
            let first = ObjV::Str(h.text(id).subrange(from, to));
            let rest = ObjV::Str(h.text(id).subrange(to, n));
            lemma_still_there(h, first, target);
            law_a_new_object_moves_nothing(h, first);
            lemma_still_there(st1.heap, rest, target);
            law_a_new_object_moves_nothing(st1.heap, rest);
            assert(st1.heap == h.with_new(first));
            let (st2, b) = s_slice(st1, target, Some(Value::Int(at)), None, span);
            assert(st2.heap == st1.heap.with_new(rest));
            assert(st2.heap.cell(h.next_id()) == st1.heap.cell(h.next_id()));
            assert(h.text(id).subrange(from, to) + h.text(id).subrange(to, n) =~= h.text(id));
            assert(held_at(st2.heap, a->Ok_0).1 + held_at(st2.heap, b->Ok_0).1 =~= Seq::empty());
        },
        Value::List(id) => {
            let first = ObjV::List(h.list(id).subrange(from, to));
            let rest = ObjV::List(h.list(id).subrange(to, n));
            lemma_still_there(h, first, target);
            law_a_new_object_moves_nothing(h, first);
            lemma_still_there(st1.heap, rest, target);
            law_a_new_object_moves_nothing(st1.heap, rest);
            assert(st1.heap == h.with_new(first));
            let (st2, b) = s_slice(st1, target, Some(Value::Int(at)), None, span);
            assert(st2.heap == st1.heap.with_new(rest));
            assert(st2.heap.cell(h.next_id()) == st1.heap.cell(h.next_id()));
            assert(h.list(id).subrange(from, to) + h.list(id).subrange(to, n) =~= h.list(id));
            assert(held_at(st2.heap, a->Ok_0).0 + held_at(st2.heap, b->Ok_0).0 =~= Seq::empty());
        },
        _ => {},
    }
}

} // verus!
