//! Laying a value out over several lines, where one would be too wide.

use crate::error::QuinceError;
use crate::interp::error::{too_far, too_far_error};
use crate::interp::paint::Style;
use crate::interp::show::{s_display, s_repr, shown_text, shown_texts, string_op, Ask};
use crate::interp::state::{nowhere, Interp, Out, St};
use crate::runtime::class::base;
use crate::runtime::heap::HeapV;
use crate::runtime::object::Entry;
use crate::runtime::value::Value;
use crate::syntax::token::Span;
use crate::text::{
    byte_len, cat2, cat3, cat4, cat6, contains, contains_text, join, joined, lemma_strs_push,
    offset, push_char, strs,
};
use vstd::prelude::*;

verus! {

broadcast use lemma_strs_push;

/// How wide a line may be before a value is laid out over several.
pub const MAX_WIDTH: usize = 80;

/// What a nested line starts with.
pub open spec fn padding(indent: nat) -> Seq<char> {
    Seq::new(4 * indent, |i: int| ' ')
}

/// How many bytes a text takes.
pub open spec fn bytes(s: Seq<char>) -> nat {
    offset(s, s.len() as int)
}

/// Whether a value is shown on lines of its own: a container whose class does not say how it
/// displays. A class that does is shown by its own text.
pub open spec fn is_laid_out(h: HeapV, v: Value, ask: Ask) -> bool {
    match base(h, v) {
        Value::List(_) => string_op(h, v, ask) is None,
        Value::Dict(_) => string_op(h, v, ask) is None,
        _ => false,
    }
}

/// Whether none of these values is.
pub open spec fn is_flat(h: HeapV, items: Seq<Value>, ask: Ask) -> bool {
    forall|i: int| 0 <= i < items.len() ==> !is_laid_out(h, #[trigger] items[i], ask)
}

/// Lines being filled: those that are full, the one being written, and how wide it is.
pub struct Lines {
    pub full: Vec<String>,
    pub line: String,
    pub width: u128,
}

pub struct LinesV {
    pub full: Seq<Seq<char>>,
    pub line: Seq<char>,
    pub width: nat,
}

impl View for Lines {
    type V = LinesV;

    open spec fn view(&self) -> LinesV {
        LinesV { full: strs(self.full@), line: self.line@, width: self.width as nat }
    }
}

/// Lines with one more item: on the line being written where it fits there, and on the
/// next where it does not. `wide` is how wide the item is without its style. A line that
/// goes on is counted with the space that parts its items.
pub open spec fn with_item(l: LinesV, pad: Seq<char>, item: Seq<char>, wide: nat, is_last: bool) -> LinesV {
    let comma = if is_last {
        ""@
    } else {
        ","@
    };
    if l.width > pad.len() && l.width + wide + comma.len() > MAX_WIDTH {
        LinesV {
            full: l.full.push(l.line),
            line: pad + item + comma,
            width: pad.len() + wide + if is_last {
                0nat
            } else {
                2
            },
        }
    } else {
        LinesV {
            full: l.full,
            line: (if l.width > pad.len() {
                l.line + " "@
            } else {
                l.line
            }) + item + comma,
            width: l.width + wide + if is_last {
                0nat
            } else {
                2
            },
        }
    }
}

/// The items of a flat list from `i` on, filled into lines.
pub open spec fn s_fill(
    f: nat,
    st: St,
    items: Seq<Value>,
    color: bool,
    ask: Ask,
    pad: Seq<char>,
    i: int,
    l: LinesV,
) -> Out<LinesV>
    decreases f,
{
    if i < 0 || i >= items.len() {
        (st, Ok(l))
    } else if f == 0 {
        (st, Err(too_far(nowhere())))
    } else {
        match s_repr((f - 1) as nat, st, items[i], false, Ask::Nothing) {
            (st1, Err(e)) => (st1, Err(e)),
            (st1, Ok(bare)) => match s_repr((f - 1) as nat, st1, items[i], color, ask) {
                (st2, Err(e)) => (st2, Err(e)),
                (st2, Ok(text)) => s_fill(
                    (f - 1) as nat,
                    st2,
                    items,
                    color,
                    ask,
                    pad,
                    i + 1,
                    with_item(l, pad, text, bytes(bare), i + 1 >= items.len()),
                ),
            },
        }
    }
}

/// The items of a list from `i` on, one to a line.
pub open spec fn s_item_lines(
    f: nat,
    st: St,
    items: Seq<Value>,
    color: bool,
    indent: nat,
    ask: Ask,
    i: int,
    so_far: Seq<Seq<char>>,
) -> Out<Seq<Seq<char>>>
    decreases f,
{
    if i < 0 || i >= items.len() {
        (st, Ok(so_far))
    } else if f == 0 {
        (st, Err(too_far(nowhere())))
    } else {
        match s_line_of((f - 1) as nat, st, items[i], color, indent, ask, padding(indent + 1)) {
            (st1, Err(e)) => (st1, Err(e)),
            (st1, Ok(line)) => s_item_lines(
                (f - 1) as nat,
                st1,
                items,
                color,
                indent,
                ask,
                i + 1,
                so_far.push(line),
            ),
        }
    }
}

/// A value inside another: laid out where it is a container, and otherwise on one line
/// behind `lead`.
pub open spec fn s_line_of(
    f: nat,
    st: St,
    v: Value,
    color: bool,
    indent: nat,
    ask: Ask,
    lead: Seq<char>,
) -> Out<Seq<char>>
    decreases f,
{
    if f == 0 {
        (st, Err(too_far(nowhere())))
    } else if is_laid_out(st.heap, v, ask) {
        s_laid_out((f - 1) as nat, st, v, color, indent + 1, ask)
    } else {
        match s_repr((f - 1) as nat, st, v, color, ask) {
            (st1, Ok(text)) => (st1, Ok(lead + text)),
            (st1, Err(e)) => (st1, Err(e)),
        }
    }
}

/// The entries of a dict from `i` on, one to a line.
pub open spec fn s_entry_lines(
    f: nat,
    st: St,
    entries: Seq<Entry>,
    color: bool,
    indent: nat,
    ask: Ask,
    i: int,
    so_far: Seq<Seq<char>>,
) -> Out<Seq<Seq<char>>>
    decreases f,
{
    if i < 0 || i >= entries.len() {
        (st, Ok(so_far))
    } else if f == 0 {
        (st, Err(too_far(nowhere())))
    } else {
        match s_repr((f - 1) as nat, st, entries[i].key, color, ask) {
            (st1, Err(e)) => (st1, Err(e)),
            (st1, Ok(key)) => match s_line_of(
                (f - 1) as nat,
                st1,
                entries[i].value,
                color,
                indent,
                ask,
                Seq::empty(),
            ) {
                (st2, Err(e)) => (st2, Err(e)),
                (st2, Ok(value)) => s_entry_lines(
                    (f - 1) as nat,
                    st2,
                    entries,
                    color,
                    indent,
                    ask,
                    i + 1,
                    so_far.push(padding(indent + 1) + key + ": "@ + value),
                ),
            },
        }
    }
}

/// Lines between brackets.
pub open spec fn bracketed(
    open: Seq<char>,
    lines: Seq<char>,
    pad: Seq<char>,
    close: Seq<char>,
    color: bool,
) -> Seq<char> {
    Style::Bold.painted(open, color) + "\n"@ + lines + "\n"@ + pad + Style::Bold.painted(
        close,
        color,
    )
}

/// Brackets with nothing between them.
pub open spec fn empty_brackets(open: Seq<char>, close: Seq<char>, color: bool) -> Seq<char> {
    Style::Bold.painted(open, color) + Style::Bold.painted(close, color)
}

/// A list laid out: filled into lines where it holds no containers, and otherwise one
/// item to a line.
pub open spec fn s_list_layout(
    f: nat,
    st: St,
    items: Seq<Value>,
    color: bool,
    indent: nat,
    ask: Ask,
) -> Out<Seq<char>>
    decreases f,
{
    let inner = padding(indent + 1);
    if items.len() == 0 {
        (st, Ok(empty_brackets("["@, "]"@, color)))
    } else if f == 0 {
        (st, Err(too_far(nowhere())))
    } else if is_flat(st.heap, items, ask) {
        match s_fill(
            (f - 1) as nat,
            st,
            items,
            color,
            ask,
            inner,
            0,
            LinesV { full: Seq::empty(), line: inner, width: inner.len() },
        ) {
            (st1, Err(e)) => (st1, Err(e)),
            (st1, Ok(l)) => (
                st1,
                Ok(
                    bracketed(
                        "["@,
                        joined(l.full.push(l.line), "\n"@),
                        padding(indent),
                        "]"@,
                        color,
                    ),
                ),
            ),
        }
    } else {
        match s_item_lines((f - 1) as nat, st, items, color, indent, ask, 0, Seq::empty()) {
            (st1, Err(e)) => (st1, Err(e)),
            (st1, Ok(lines)) => (
                st1,
                Ok(bracketed("["@, joined(lines, ",\n"@), padding(indent), "]"@, color)),
            ),
        }
    }
}

/// A dict laid out, one entry to a line.
pub open spec fn s_dict_layout(
    f: nat,
    st: St,
    entries: Seq<Entry>,
    color: bool,
    indent: nat,
    ask: Ask,
) -> Out<Seq<char>>
    decreases f,
{
    if entries.len() == 0 {
        (st, Ok(empty_brackets("{"@, "}"@, color)))
    } else if f == 0 {
        (st, Err(too_far(nowhere())))
    } else {
        match s_entry_lines((f - 1) as nat, st, entries, color, indent, ask, 0, Seq::empty()) {
            (st1, Err(e)) => (st1, Err(e)),
            (st1, Ok(lines)) => (
                st1,
                Ok(bracketed("{"@, joined(lines, ",\n"@), padding(indent), "}"@, color)),
            ),
        }
    }
}

/// A value laid out over several lines.
pub open spec fn s_laid_out(f: nat, st: St, v: Value, color: bool, indent: nat, ask: Ask) -> Out<
    Seq<char>,
>
    decreases f,
{
    if f == 0 {
        (st, Err(too_far(nowhere())))
    } else {
        match base(st.heap, v) {
            Value::List(id) => s_list_layout(
                (f - 1) as nat,
                st,
                st.heap.list(id),
                color,
                indent,
                ask,
            ),
            Value::Dict(id) => s_dict_layout(
                (f - 1) as nat,
                st,
                st.heap.dict(id),
                color,
                indent,
                ask,
            ),
            _ => match s_display((f - 1) as nat, st, v, color, ask) {
                (st1, Ok(text)) => (st1, Ok(padding(indent) + text)),
                (st1, Err(e)) => (st1, Err(e)),
            },
        }
    }
}

/// A value as a prompt shows it: on one line where that fits, and laid out where it is a
/// container that does not.
pub open spec fn s_pretty(f: nat, st: St, v: Value, color: bool, ask: Ask) -> Out<Seq<char>> {
    match s_display(f, st, v, false, ask) {
        (st1, Err(e)) => (st1, Err(e)),
        (st1, Ok(bare)) => if (bytes(bare) <= MAX_WIDTH && !contains(bare, "\n"@)) || !is_laid_out(
            st1.heap,
            v,
            ask,
        ) {
            s_display(f, st1, v, color, ask)
        } else {
            s_laid_out(f, st1, v, color, 0, ask)
        },
    }
}

fn pad_of(indent: u128) -> (r: String)
    ensures
        r@ == padding(indent as nat),
{
    let mut r = String::new();
    let mut i: u128 = 0;
    assert(r@ =~= padding(0));
    while i < indent
        invariant
            i <= indent,
            r@ == padding(i as nat),
        decreases indent - i,
    {
        push_char(&mut r, ' ');
        push_char(&mut r, ' ');
        push_char(&mut r, ' ');
        push_char(&mut r, ' ');
        assert(r@ =~= padding((i + 1) as nat));
        i += 1;
    }
    r
}

fn bracket(open: &str, lines: &str, pad: &str, close: &str, color: bool) -> (r: String)
    ensures
        r@ == bracketed(open@, lines@, pad@, close@, color),
{
    let first = Style::Bold.paint(open, color);
    let last = Style::Bold.paint(close, color);
    cat6(first.as_str(), "\n", lines, "\n", pad, last.as_str())
}

fn bare_brackets(open: &str, close: &str, color: bool) -> (r: String)
    ensures
        r@ == empty_brackets(open@, close@, color),
{
    let first = Style::Bold.paint(open, color);
    let last = Style::Bold.paint(close, color);
    cat2(first.as_str(), last.as_str())
}

/// More than a line is ever wide.
const WIDEST: u128 = 0x4_0000_0000_0000_0000;

fn add_item(l: Lines, pad: &str, item: &str, wide: usize, is_last: bool) -> (r: Lines)
    requires
        l.width <= WIDEST,
    ensures
        r@ == with_item(l@, pad@, item@, wide as nat, is_last),
        r.width <= WIDEST,
{
    let comma = if is_last {
        ""
    } else {
        ","
    };
    let start: u128 = pad.unicode_len() as u128;
    let more: u128 = if is_last {
        0
    } else {
        1
    };
    proof {
        reveal_strlit("");
        reveal_strlit(",");
    }
    if l.width > start && l.width + wide as u128 + more > MAX_WIDTH as u128 {
        let mut full: Vec<String> = l.full;
        full.push(l.line);
        let line = cat3(pad, item, comma);
        return Lines { full, line, width: start + wide as u128 + 2 * more };
    }
    let mut line = l.line;
    if l.width > start {
        line.append(" ");
    }
    line.append(item);
    line.append(comma);
    Lines { full: l.full, line, width: l.width + wide as u128 + 2 * more }
}

impl Interp {
    fn is_laid_out(&self, v: Value, ask: Ask) -> (r: bool)
        ensures
            r == is_laid_out(self@.heap, v, ask),
    {
        match self.heap.base(v) {
            Value::List(_) => self.string_op(v, ask).is_none(),
            Value::Dict(_) => self.string_op(v, ask).is_none(),
            _ => false,
        }
    }

    fn is_flat(&self, items: &Vec<Value>, ask: Ask) -> (r: bool)
        ensures
            r == is_flat(self@.heap, items@, ask),
    {
        let mut i: usize = 0;
        while i < items.len()
            invariant
                i <= items@.len(),
                forall|j: int| 0 <= j < i ==> !is_laid_out(self@.heap, #[trigger] items@[j], ask),
            decreases items@.len() - i,
        {
            if self.is_laid_out(items[i], ask) {
                assert(is_laid_out(self@.heap, items@[i as int], ask));
                return false;
            }
            i += 1;
        }
        true
    }

    fn fill(
        &mut self,
        items: &Vec<Value>,
        color: bool,
        ask: Ask,
        pad: &str,
        start: Lines,
        fuel: u64,
    ) -> (r: Result<Lines, QuinceError>)
        requires
            start.width <= WIDEST,
        ensures
            match r {
                Ok(l) => s_fill(
                    fuel as nat,
                    old(self)@,
                    items@,
                    color,
                    ask,
                    pad@,
                    0,
                    start@,
                ) == (final(self)@, Ok::<LinesV, crate::error::ErrV>(l@)),
                Err(e) => s_fill(
                    fuel as nat,
                    old(self)@,
                    items@,
                    color,
                    ask,
                    pad@,
                    0,
                    start@,
                ) == (final(self)@, Err::<LinesV, crate::error::ErrV>(e@)),
            },
    {
        let ghost goal = s_fill(fuel as nat, self@, items@, color, ask, pad@, 0, start@);
        let mut l: Lines = start;
        let mut left: u64 = fuel;
        let mut i: usize = 0;
        while i < items.len()
            invariant
                i <= items@.len(),
                l.width <= WIDEST,
                goal == s_fill(fuel as nat, old(self)@, items@, color, ask, pad@, 0, start@),
                goal == s_fill(left as nat, self@, items@, color, ask, pad@, i as int, l@),
            decreases items@.len() - i,
        {
            if left == 0 {
                return Err(too_far_error(Span { start: 0, end: 0 }));
            }
            left -= 1;
            let bare = match self.repr(items[i], false, Ask::Nothing, left) {
                Ok(text) => text,
                Err(e) => {
                    return Err(e);
                },
            };
            let text = match self.repr(items[i], color, ask, left) {
                Ok(text) => text,
                Err(e) => {
                    return Err(e);
                },
            };
            l = add_item(
                l,
                pad,
                text.as_str(),
                byte_len(bare.as_str()),
                i + 1 >= items.len(),
            );
            i += 1;
        }
        Ok(l)
    }

    fn line_of(
        &mut self,
        v: Value,
        color: bool,
        indent: u128,
        ask: Ask,
        lead: &str,
        fuel: u64,
    ) -> (r: Result<String, QuinceError>)
        requires
            indent + fuel <= u64::MAX,
        ensures
            (final(self)@, shown_text(r)) == s_line_of(
                fuel as nat,
                old(self)@,
                v,
                color,
                indent as nat,
                ask,
                lead@,
            ),
        decreases fuel,
    {
        if fuel == 0 {
            return Err(too_far_error(Span { start: 0, end: 0 }));
        }
        if self.is_laid_out(v, ask) {
            return self.laid_out(v, color, indent + 1, ask, fuel - 1);
        }
        match self.repr(v, color, ask, fuel - 1) {
            Ok(text) => Ok(cat2(lead, text.as_str())),
            Err(e) => Err(e),
        }
    }

    fn item_lines(
        &mut self,
        items: &Vec<Value>,
        color: bool,
        indent: u128,
        ask: Ask,
        fuel: u64,
    ) -> (r: Result<Vec<String>, QuinceError>)
        requires
            indent + fuel <= u64::MAX,
            indent <= u64::MAX,
        ensures
            (final(self)@, shown_texts(r)) == s_item_lines(
                fuel as nat,
                old(self)@,
                items@,
                color,
                indent as nat,
                ask,
                0,
                Seq::empty(),
            ),
        decreases fuel,
    {
        let ghost goal = s_item_lines(
            fuel as nat,
            self@,
            items@,
            color,
            indent as nat,
            ask,
            0,
            Seq::empty(),
        );
        let lead = pad_of(indent + 1);
        let mut lines: Vec<String> = Vec::new();
        assert(strs(lines@) =~= Seq::empty());
        let mut left: u64 = fuel;
        let mut i: usize = 0;
        while i < items.len()
            invariant
                i <= items@.len(),
                left <= fuel,
                indent + fuel <= u64::MAX,
                lead@ == padding((indent + 1) as nat),
                goal == s_item_lines(
                    fuel as nat,
                    old(self)@,
                    items@,
                    color,
                    indent as nat,
                    ask,
                    0,
                    Seq::empty(),
                ),
                goal == s_item_lines(
                    left as nat,
                    self@,
                    items@,
                    color,
                    indent as nat,
                    ask,
                    i as int,
                    strs(lines@),
                ),
            decreases items@.len() - i,
        {
            if left == 0 {
                return Err(too_far_error(Span { start: 0, end: 0 }));
            }
            left -= 1;
            let line = match self.line_of(items[i], color, indent, ask, lead.as_str(), left) {
                Ok(text) => text,
                Err(e) => {
                    return Err(e);
                },
            };
            lines.push(line);
            i += 1;
        }
        Ok(lines)
    }

    fn entry_lines(
        &mut self,
        entries: &Vec<Entry>,
        color: bool,
        indent: u128,
        ask: Ask,
        fuel: u64,
    ) -> (r: Result<Vec<String>, QuinceError>)
        requires
            indent + fuel <= u64::MAX,
            indent <= u64::MAX,
        ensures
            (final(self)@, shown_texts(r)) == s_entry_lines(
                fuel as nat,
                old(self)@,
                entries@,
                color,
                indent as nat,
                ask,
                0,
                Seq::empty(),
            ),
        decreases fuel,
    {
        let ghost goal = s_entry_lines(
            fuel as nat,
            self@,
            entries@,
            color,
            indent as nat,
            ask,
            0,
            Seq::empty(),
        );
        let lead = pad_of(indent + 1);
        let none = String::new();
        assert(none@ =~= Seq::empty());
        let mut lines: Vec<String> = Vec::new();
        assert(strs(lines@) =~= Seq::empty());
        let mut left: u64 = fuel;
        let mut i: usize = 0;
        while i < entries.len()
            invariant
                i <= entries@.len(),
                left <= fuel,
                indent + fuel <= u64::MAX,
                lead@ == padding((indent + 1) as nat),
                none@ == Seq::<char>::empty(),
                goal == s_entry_lines(
                    fuel as nat,
                    old(self)@,
                    entries@,
                    color,
                    indent as nat,
                    ask,
                    0,
                    Seq::empty(),
                ),
                goal == s_entry_lines(
                    left as nat,
                    self@,
                    entries@,
                    color,
                    indent as nat,
                    ask,
                    i as int,
                    strs(lines@),
                ),
            decreases entries@.len() - i,
        {
            if left == 0 {
                return Err(too_far_error(Span { start: 0, end: 0 }));
            }
            left -= 1;
            let key = match self.repr(entries[i].key, color, ask, left) {
                Ok(text) => text,
                Err(e) => {
                    return Err(e);
                },
            };
            let value = match self.line_of(
                entries[i].value,
                color,
                indent,
                ask,
                none.as_str(),
                left,
            ) {
                Ok(text) => text,
                Err(e) => {
                    return Err(e);
                },
            };
            lines.push(cat4(lead.as_str(), key.as_str(), ": ", value.as_str()));
            i += 1;
        }
        Ok(lines)
    }

    fn list_layout(
        &mut self,
        items: &Vec<Value>,
        color: bool,
        indent: u128,
        ask: Ask,
        fuel: u64,
    ) -> (r: Result<String, QuinceError>)
        requires
            indent + fuel <= u64::MAX,
            indent <= u64::MAX,
        ensures
            (final(self)@, shown_text(r)) == s_list_layout(
                fuel as nat,
                old(self)@,
                items@,
                color,
                indent as nat,
                ask,
            ),
        decreases fuel,
    {
        if items.len() == 0 {
            return Ok(bare_brackets("[", "]", color));
        }
        if fuel == 0 {
            return Err(too_far_error(Span { start: 0, end: 0 }));
        }
        let pad = pad_of(indent);
        if self.is_flat(items, ask) {
            let inner = pad_of(indent + 1);
            let none: Vec<String> = Vec::new();
            assert(strs(none@) =~= Seq::empty());
            let start = Lines {
                full: none,
                line: inner.clone(),
                width: inner.as_str().unicode_len() as u128,
            };
            let l = match self.fill(items, color, ask, inner.as_str(), start, fuel - 1) {
                Ok(l) => l,
                Err(e) => {
                    return Err(e);
                },
            };
            let mut lines: Vec<String> = l.full;
            lines.push(l.line);
            let text = join(&lines, "\n");
            return Ok(bracket("[", text.as_str(), pad.as_str(), "]", color));
        }
        match self.item_lines(items, color, indent, ask, fuel - 1) {
            Ok(lines) => {
                let text = join(&lines, ",\n");
                Ok(bracket("[", text.as_str(), pad.as_str(), "]", color))
            },
            Err(e) => Err(e),
        }
    }

    fn dict_layout(
        &mut self,
        entries: &Vec<Entry>,
        color: bool,
        indent: u128,
        ask: Ask,
        fuel: u64,
    ) -> (r: Result<String, QuinceError>)
        requires
            indent + fuel <= u64::MAX,
            indent <= u64::MAX,
        ensures
            (final(self)@, shown_text(r)) == s_dict_layout(
                fuel as nat,
                old(self)@,
                entries@,
                color,
                indent as nat,
                ask,
            ),
        decreases fuel,
    {
        if entries.len() == 0 {
            return Ok(bare_brackets("{", "}", color));
        }
        if fuel == 0 {
            return Err(too_far_error(Span { start: 0, end: 0 }));
        }
        let pad = pad_of(indent);
        match self.entry_lines(entries, color, indent, ask, fuel - 1) {
            Ok(lines) => {
                let text = join(&lines, ",\n");
                Ok(bracket("{", text.as_str(), pad.as_str(), "}", color))
            },
            Err(e) => Err(e),
        }
    }

    fn laid_out(&mut self, v: Value, color: bool, indent: u128, ask: Ask, fuel: u64) -> (r: Result<
        String,
        QuinceError,
    >)
        requires
            indent + fuel <= u64::MAX,
        ensures
            (final(self)@, shown_text(r)) == s_laid_out(
                fuel as nat,
                old(self)@,
                v,
                color,
                indent as nat,
                ask,
            ),
        decreases fuel,
    {
        if fuel == 0 {
            return Err(too_far_error(Span { start: 0, end: 0 }));
        }
        match self.heap.base(v) {
            Value::List(id) => {
                let items = self.heap.list(id);
                self.list_layout(&items, color, indent, ask, fuel - 1)
            },
            Value::Dict(id) => {
                let entries = self.heap.dict(id);
                self.dict_layout(&entries, color, indent, ask, fuel - 1)
            },
            _ => match self.displayed(v, color, ask, fuel - 1) {
                Ok(text) => {
                    let pad = pad_of(indent);
                    Ok(cat2(pad.as_str(), text.as_str()))
                },
                Err(e) => Err(e),
            },
        }
    }

    /// A value as a prompt shows it.
    pub(crate) fn pretty(&mut self, v: Value, color: bool, ask: Ask, fuel: u64) -> (r: Result<
        String,
        QuinceError,
    >)
        ensures
            (final(self)@, shown_text(r)) == s_pretty(fuel as nat, old(self)@, v, color, ask),
    {
        let bare = match self.displayed(v, false, ask, fuel) {
            Ok(text) => text,
            Err(e) => {
                return Err(e);
            },
        };
        let fits = byte_len(bare.as_str()) <= MAX_WIDTH && !contains_text(bare.as_str(), "\n");
        if fits || !self.is_laid_out(v, ask) {
            return self.displayed(v, color, ask, fuel);
        }
        self.laid_out(v, color, 0, ask, fuel)
    }
}

// -- laws --------------------------------------------------------------------------------------------

/// Items filled into lines, the first `n` of them.
pub open spec fn filled(items: Seq<Seq<char>>, pad: Seq<char>, n: int) -> LinesV
    decreases n,
{
    if 0 < n <= items.len() {
        with_item(
            filled(items, pad, n - 1),
            pad,
            items[n - 1],
            bytes(items[n - 1]),
            n >= items.len(),
        )
    } else {
        LinesV { full: Seq::empty(), line: pad, width: pad.len() }
    }
}

/// Whether a line is no wider than it may be, or holds an item alone.
pub open spec fn fits(items: Seq<Seq<char>>, pad: Seq<char>, line: Seq<char>) -> bool {
    bytes(line) <= MAX_WIDTH || exists|i: int|
        0 <= i < items.len() && (line == pad + (#[trigger] items[i]) || line == pad + items[i] + ","@)
}

/// Two texts together take as many bytes as both apart.
pub proof fn lemma_bytes_together(a: Seq<char>, b: Seq<char>)
    ensures
        bytes(a + b) == bytes(a) + bytes(b),
    decreases b.len(),
{
    if b.len() == 0 {
        assert(a + b =~= a);
    } else {
        lemma_bytes_together(a, b.drop_last());
        let whole = a + b;
        let front = a + b.drop_last();
        crate::text::lemma_offset_agrees(whole, front, front.len() as int);
        crate::text::lemma_offset_agrees(b, b.drop_last(), b.len() - 1);
        assert(whole[whole.len() - 1] == b.last());
    }
}

proof fn lemma_padding(n: nat)
    ensures
        bytes(padding(n)) == padding(n).len(),
{
    lemma_spaces(padding(n), padding(n).len() as int);
}

proof fn lemma_spaces(s: Seq<char>, k: int)
    requires
        0 <= k <= s.len(),
        forall|i: int| 0 <= i < s.len() ==> s[i] == ' ',
    ensures
        offset(s, k) == k,
    decreases k,
{
    if k > 0 {
        lemma_spaces(s, k - 1);
    }
}

proof fn lemma_filled(items: Seq<Seq<char>>, indent: nat, n: int)
    requires
        0 <= n <= items.len(),
    ensures
        ({
            let pad = padding(indent);
            let l = filled(items, pad, n);
            &&& forall|k: int| 0 <= k < l.full.len() ==> fits(items, pad, #[trigger] l.full[k])
            &&& n > 0 ==> fits(items, pad, l.line)
            &&& n == 0 ==> l.width == pad.len() && l.line == pad
            &&& 0 < n < items.len() ==> l.width == bytes(l.line) + 1 && l.width > pad.len()
        }),
    decreases n,
{
    let pad = padding(indent);
    lemma_padding(indent);
    if n > 0 {
        lemma_filled(items, indent, n - 1);
        let l = filled(items, pad, n - 1);
        let item = items[n - 1];
        let is_last = n >= items.len();
        let r = with_item(l, pad, item, bytes(item), is_last);
        let comma = if is_last {
            ""@
        } else {
            ","@
        };
        reveal_strlit("");
        reveal_strlit(",");
        reveal_strlit(" ");
        assert(bytes(""@) == 0);
        assert(bytes(","@) == 1) by {
            assert(offset(","@, 0) == 0);
            assert(","@[0] == ',');
        }
        assert(bytes(" "@) == 1) by {
            assert(offset(" "@, 0) == 0);
            assert(" "@[0] == ' ');
        }
        lemma_bytes_together(pad, item);
        lemma_bytes_together(pad + item, comma);
        lemma_bytes_together(l.line, " "@);
        lemma_bytes_together(l.line, item);
        lemma_bytes_together(l.line + item, comma);
        lemma_bytes_together(l.line + " "@, item);
        lemma_bytes_together(l.line + " "@ + item, comma);
        assert(pad + item + ""@ =~= pad + item);
        if n == 1 {
            assert(r.line == pad + item + comma);
            assert(fits(items, pad, r.line)) by {
                assert(r.line == pad + items[0] || r.line == pad + items[0] + ","@);
            }
        } else if l.width + bytes(item) + comma.len() > MAX_WIDTH {
            assert(r.line == pad + item + comma);
            assert(fits(items, pad, r.line)) by {
                assert(r.line == pad + items[n - 1] || r.line == pad + items[n - 1] + ","@);
            }
            assert forall|k: int| 0 <= k < r.full.len() implies fits(items, pad, #[trigger] r.full[k]) by {
                if k < l.full.len() {
                    assert(r.full[k] == l.full[k]);
                }
            }
        }
    }
}

/// No line that items are filled into is wider than it may be, unless it holds one item
/// alone.
pub proof fn law_a_filled_line_fits(items: Seq<Seq<char>>, indent: nat, k: int)
    requires
        items.len() > 0,
        0 <= k <= filled(items, padding(indent), items.len() as int).full.len(),
    ensures
        ({
            let l = filled(items, padding(indent), items.len() as int);
            fits(items, padding(indent), l.full.push(l.line)[k])
        }),
{
    lemma_filled(items, indent, items.len() as int);
}

/// A class's own text is what a prompt shows, however wide it is and whatever lines it has.
pub proof fn law_a_class_speaks_for_itself_at_a_prompt(f: nat, st: St, v: Value, color: bool, ask: Ask)
    requires
        string_op(s_display(f, st, v, false, ask).0.heap, v, ask) is Some,
    ensures
        s_pretty(f, st, v, color, ask) == match s_display(f, st, v, false, ask) {
            (st1, Err(e)) => (st1, Err(e)),
            (st1, Ok(_)) => s_display(f, st1, v, color, ask),
        },
{
}

} // verus!
