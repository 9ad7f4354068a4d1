//! What laying a value out keeps of it.

use crate::error::ErrV;
use crate::interp::nesting::{unanswered, within};
use crate::interp::ops::items_of;
use crate::interp::paint::Style;
use crate::interp::plain::{
    calm, display_steps, lemma_display_is_plain, lemma_repr_is_plain, plain_display, plain_entries,
    plain_repr, plain_reprs,
};
use crate::interp::pretty::{
    bracketed, bytes, empty_brackets, filled, fits, is_flat, is_laid_out, law_a_filled_line_fits,
    padding, s_dict_layout, s_entry_lines, s_fill, s_item_lines, s_laid_out, s_line_of,
    s_list_layout, s_pretty, with_item, LinesV, MAX_WIDTH,
};
use crate::interp::show::{enclosed, s_display, Ask};
use crate::interp::state::St;
use crate::lsp::format::{all_solid, lemma_solid_cat, lemma_solid_joined, lemma_solid_white, solid};
use crate::runtime::class::base;
use crate::runtime::value::{ObjId, Value};
use crate::syntax::ast::Op;
use crate::text::{contains, joined};
use vstd::prelude::*;

verus! {

/// Whether some texts are others but for white space.
pub open spec fn alike(a: Seq<Seq<char>>, b: Seq<Seq<char>>) -> bool {
    &&& a.len() == b.len()
    &&& forall|i: int| 0 <= i < a.len() ==> solid(#[trigger] a[i]) == solid(b[i])
}

/// Texts without their white space, with a comma between any two.
spec fn listed(parts: Seq<Seq<char>>) -> Seq<char>
    decreases parts.len(),
{
    if parts.len() == 0 {
        Seq::empty()
    } else if parts.len() == 1 {
        solid(parts[0])
    } else {
        listed(parts.drop_last()) + seq![','] + solid(parts.last())
    }
}

proof fn lemma_listed(parts: Seq<Seq<char>>, sep: Seq<char>)
    requires
        solid(sep) == seq![','],
    ensures
        solid(joined(parts, sep)) == listed(parts),
    decreases parts.len(),
{
    if parts.len() > 1 {
        let front = joined(parts.drop_last(), sep);
        lemma_listed(parts.drop_last(), sep);
        lemma_solid_cat(front + sep, parts.last());
        lemma_solid_cat(front, sep);
    }
}

proof fn lemma_listed_alike(a: Seq<Seq<char>>, b: Seq<Seq<char>>)
    requires
        alike(a, b),
    ensures
        listed(a) == listed(b),
    decreases a.len(),
{
    if a.len() > 0 {
        assert(solid(a[a.len() - 1]) == solid(b[b.len() - 1]));
        assert(solid(a[0]) == solid(b[0]));
        let x = a.drop_last();
        let y = b.drop_last();
        assert forall|i: int| 0 <= i < x.len() implies solid(#[trigger] x[i]) == solid(y[i]) by {
            assert(x[i] == a[i] && y[i] == b[i]);
        }
        lemma_listed_alike(x, y);
    }
}

proof fn lemma_separators()
    ensures
        solid(", "@) == seq![','],
        solid(",\n"@) == seq![','],
        solid(": "@) == seq![':'],
        solid("\n"@) == Seq::<char>::empty(),
        solid(","@) == seq![','],
        solid(" "@) == Seq::<char>::empty(),
        solid(""@) == Seq::<char>::empty(),
{
    reveal_strlit(", ");
    reveal_strlit(",\n");
    reveal_strlit(": ");
    reveal_strlit("\n");
    reveal_strlit(",");
    reveal_strlit(" ");
    reveal_strlit("");
    reveal_with_fuel(solid, 3);
    assert(", "@.drop_last() =~= seq![',']);
    assert(",\n"@.drop_last() =~= seq![',']);
    assert(": "@.drop_last() =~= seq![':']);
    assert(seq![','].drop_last() =~= Seq::empty());
    assert(seq![':'].drop_last() =~= Seq::empty());
    assert(","@ =~= seq![',']);
    assert(solid(seq![',']) =~= seq![',']);
    assert(solid(seq![':']) =~= seq![':']);
    lemma_solid_white("\n"@);
    lemma_solid_white(" "@);
    lemma_solid_white(""@);
}

// -- lines hold what the one line holds ---------------------------------------------------------------

/// What lines hold but white space.
spec fn held_by(l: LinesV) -> Seq<char> {
    all_solid(l.full) + solid(l.line)
}

proof fn lemma_padding_white(n: nat)
    ensures
        solid(padding(n)) == Seq::<char>::empty(),
{
    lemma_solid_white(padding(n));
}

proof fn lemma_with_item(l: LinesV, pad: Seq<char>, item: Seq<char>, wide: nat, is_last: bool)
    requires
        solid(pad) == Seq::<char>::empty(),
    ensures
        held_by(with_item(l, pad, item, wide, is_last)) == held_by(l) + solid(item) + if is_last {
            Seq::empty()
        } else {
            seq![',']
        },
{
    lemma_separators();
    let comma = if is_last {
        ""@
    } else {
        ","@
    };
    let r = with_item(l, pad, item, wide, is_last);
    lemma_solid_cat(pad + item, comma);
    lemma_solid_cat(pad, item);
    lemma_solid_cat(l.line, " "@);
    lemma_solid_cat(l.line + item, comma);
    lemma_solid_cat(l.line, item);
    lemma_solid_cat(l.line + " "@ + item, comma);
    lemma_solid_cat(l.line + " "@, item);
    if r.full.len() != l.full.len() {
        assert(r.full.drop_last() =~= l.full);
        assert(r.full.last() == l.line);
        assert(all_solid(r.full) == all_solid(l.full) + solid(l.line));
    }
    assert(held_by(r) =~= held_by(l) + solid(item) + if is_last {
        Seq::empty()
    } else {
        seq![',']
    });
}

/// Brackets round lines hold what brackets round one line do.
proof fn lemma_brackets(open: Seq<char>, lines: Seq<char>, inside: Seq<char>, indent: nat, close: Seq<char>, color: bool)
    requires
        solid(lines) == solid(inside),
    ensures
        solid(bracketed(open, lines, padding(indent), close, color)) == solid(
            enclosed(open, inside, close, color),
        ),
{
    lemma_separators();
    lemma_padding_white(indent);
    let a = Style::Bold.painted(open, color);
    let b = Style::Bold.painted(close, color);
    let pad = padding(indent);
    lemma_solid_cat(a + "\n"@ + lines + "\n"@ + pad, b);
    lemma_solid_cat(a + "\n"@ + lines + "\n"@, pad);
    lemma_solid_cat(a + "\n"@ + lines, "\n"@);
    lemma_solid_cat(a + "\n"@, lines);
    lemma_solid_cat(a, "\n"@);
    lemma_solid_cat(a + inside, b);
    lemma_solid_cat(a, inside);
    assert(solid(bracketed(open, lines, pad, close, color)) =~= solid(a) + solid(lines) + solid(b));
}

/// How many steps laying a value out takes at most.
pub open spec fn layout_steps(depth: nat, width: nat) -> nat {
    4 + depth * (width + 8)
}

proof fn lemma_layout_steps(depth: nat, width: nat)
    ensures
        layout_steps(depth, width) >= display_steps(depth, width) + 2,
        depth > 0 ==> layout_steps(depth, width) == layout_steps((depth - 1) as nat, width) + width + 8,
{
    assert(depth * (width + 8) >= depth * (width + 4)) by (nonlinear_arith);
    if depth > 0 {
        assert(depth * (width + 8) == (depth - 1) * (width + 8) + (width + 8)) by (nonlinear_arith);
    }
}

/// What the first `i` of some texts in a list hold, with the comma behind them.
spec fn held_so_far(texts: Seq<Seq<char>>, i: int) -> Seq<char> {
    listed(texts.take(i)) + if 0 < i < texts.len() {
        seq![',']
    } else {
        Seq::empty()
    }
}

proof fn lemma_fill(
    f: nat,
    st: St,
    v: Value,
    id: ObjId,
    color: bool,
    ask: Ask,
    depth: nat,
    width: nat,
    pad: Seq<char>,
    i: int,
    l: LinesV,
)
    requires
        within(st.heap, v, depth, width),
        calm(st.heap, v, ask, depth),
        depth > 0,
        base(st.heap, v) == Value::List(id),
        0 <= i <= st.heap.list(id).len(),
        f >= layout_steps((depth - 1) as nat, width) + width + 4 - i,
        solid(pad) == Seq::<char>::empty(),
        held_by(l) == held_so_far(plain_reprs(st.heap, st.heap.list(id), color, (depth - 1) as nat), i),
    ensures
        ({
            let texts = plain_reprs(st.heap, st.heap.list(id), color, (depth - 1) as nat);
            let a = s_fill(f, st, st.heap.list(id), color, ask, pad, i, l);
            &&& a.0 == st
            &&& a.1 is Ok
            &&& held_by(a.1->Ok_0) == listed(texts)
        }),
    decreases f,
{
    let h = st.heap;
    let items = h.list(id);
    let n = items.len();
    let d = (depth - 1) as nat;
    let texts = plain_reprs(h, items, color, d);
    assert(items == items_of(h, base(h, v)));
    if i < n {
        let g = (f - 1) as nat;
        lemma_layout_steps(d, width);
        assert(within(h, items[i], d, width));
        if ask == Ask::Class {
            assert(unanswered(h, items[i], Op::Str, d));
        }
        lemma_repr_is_plain(g, st, items[i], false, Ask::Nothing, d, width);
        lemma_repr_is_plain(g, st, items[i], color, ask, d, width);
        let text = plain_repr(h, items[i], color, d);
        let wide = bytes(plain_repr(h, items[i], false, d));
        let next = with_item(l, pad, text, wide, i + 1 >= n);
        lemma_with_item(l, pad, text, wide, i + 1 >= n);
        let before = texts.take(i);
        let after = texts.take(i + 1);
        assert(after.drop_last() =~= before);
        assert(after.last() == text);
        if i == 0 {
            assert(after[0] == text);
        }
        assert(held_by(next) =~= held_so_far(texts, i + 1));
        lemma_fill(g, st, v, id, color, ask, depth, width, pad, i + 1, next);
    } else {
        assert(texts.take(i) =~= texts);
        assert(listed(texts) + Seq::<char>::empty() =~= listed(texts));
    }
}

proof fn lemma_item_lines(
    f: nat,
    st: St,
    v: Value,
    id: ObjId,
    color: bool,
    indent: nat,
    ask: Ask,
    depth: nat,
    width: nat,
    i: int,
    lines: Seq<Seq<char>>,
)
    requires
        within(st.heap, v, depth, width),
        calm(st.heap, v, ask, depth),
        depth > 0,
        base(st.heap, v) == Value::List(id),
        0 <= i <= st.heap.list(id).len(),
        f >= layout_steps((depth - 1) as nat, width) + width + 4 - i,
        alike(
            lines,
            plain_reprs(st.heap, st.heap.list(id), color, (depth - 1) as nat).take(i),
        ),
    ensures
        ({
            let texts = plain_reprs(st.heap, st.heap.list(id), color, (depth - 1) as nat);
            let a = s_item_lines(f, st, st.heap.list(id), color, indent, ask, i, lines);
            &&& a.0 == st
            &&& a.1 is Ok
            &&& alike(a.1->Ok_0, texts)
        }),
    decreases depth, f,
{
    let h = st.heap;
    let items = h.list(id);
    let d = (depth - 1) as nat;
    let texts = plain_reprs(h, items, color, d);
    assert(items == items_of(h, base(h, v)));
    if i < items.len() {
        let g = (f - 1) as nat;
        let pad = padding(indent + 1);
        assert(within(h, items[i], d, width));
        if ask == Ask::Class {
            assert(unanswered(h, items[i], Op::Str, d));
        }
        lemma_padding_white(indent + 1);
        lemma_line_of(g, st, items[i], color, indent, ask, pad, d, width);
        let line = s_line_of(g, st, items[i], color, indent, ask, pad).1->Ok_0;
        let x = lines.push(line);
        let y = texts.take(i + 1);
        assert forall|k: int| 0 <= k < x.len() implies solid(#[trigger] x[k]) == solid(y[k]) by {
            if k < lines.len() {
                assert(x[k] == lines[k] && y[k] == texts.take(i)[k]);
            }
        }
        lemma_item_lines(g, st, v, id, color, indent, ask, depth, width, i + 1, x);
    } else {
        assert(texts.take(i) =~= texts);
    }
}

proof fn lemma_entry_lines(
    f: nat,
    st: St,
    v: Value,
    id: ObjId,
    color: bool,
    indent: nat,
    ask: Ask,
    depth: nat,
    width: nat,
    i: int,
    lines: Seq<Seq<char>>,
)
    requires
        within(st.heap, v, depth, width),
        calm(st.heap, v, ask, depth),
        depth > 0,
        base(st.heap, v) == Value::Dict(id),
        0 <= i <= st.heap.dict(id).len(),
        f >= layout_steps((depth - 1) as nat, width) + width + 4 - i,
        alike(
            lines,
            plain_entries(st.heap, st.heap.dict(id), color, (depth - 1) as nat).take(i),
        ),
    ensures
        ({
            let texts = plain_entries(st.heap, st.heap.dict(id), color, (depth - 1) as nat);
            let a = s_entry_lines(f, st, st.heap.dict(id), color, indent, ask, i, lines);
            &&& a.0 == st
            &&& a.1 is Ok
            &&& alike(a.1->Ok_0, texts)
        }),
    decreases depth, f,
{
    let h = st.heap;
    let entries = h.dict(id);
    let d = (depth - 1) as nat;
    let texts = plain_entries(h, entries, color, d);
    if i < entries.len() {
        let g = (f - 1) as nat;
        let pad = padding(indent + 1);
        let k = entries[i].key;
        let w = entries[i].value;
        assert(within(h, entries[i].key, d, width) && within(h, entries[i].value, d, width));
        if ask == Ask::Class {
            assert(unanswered(h, entries[i].key, Op::Str, d));
            assert(unanswered(h, entries[i].value, Op::Str, d));
        }
        lemma_padding_white(indent + 1);
        lemma_layout_steps(d, width);
        lemma_repr_is_plain(g, st, k, color, ask, d, width);
        assert(solid(Seq::<char>::empty()) == Seq::<char>::empty());
        lemma_line_of(g, st, w, color, indent, ask, Seq::empty(), d, width);
        let key = plain_repr(h, k, color, d);
        let value = s_line_of(g, st, w, color, indent, ask, Seq::empty()).1->Ok_0;
        let shown = plain_repr(h, w, color, d);
        let line = pad + key + ": "@ + value;
        lemma_solid_cat(pad + key + ": "@, value);
        lemma_solid_cat(pad + key, ": "@);
        lemma_solid_cat(pad, key);
        lemma_solid_cat(key + ": "@, shown);
        lemma_solid_cat(key, ": "@);
        assert(texts[i] == key + ": "@ + shown);
        assert(solid(line) =~= solid(texts[i]));
        let x = lines.push(line);
        let y = texts.take(i + 1);
        assert forall|j: int| 0 <= j < x.len() implies solid(#[trigger] x[j]) == solid(y[j]) by {
            if j < lines.len() {
                assert(x[j] == lines[j] && y[j] == texts.take(i)[j]);
            }
        }
        lemma_entry_lines(g, st, v, id, color, indent, ask, depth, width, i + 1, x);
    } else {
        assert(texts.take(i) =~= texts);
    }
}

proof fn lemma_line_of(
    f: nat,
    st: St,
    v: Value,
    color: bool,
    indent: nat,
    ask: Ask,
    lead: Seq<char>,
    depth: nat,
    width: nat,
)
    requires
        within(st.heap, v, depth, width),
        calm(st.heap, v, ask, depth),
        f >= layout_steps(depth, width) + 3,
        solid(lead) == Seq::<char>::empty(),
    ensures
        ({
            let a = s_line_of(f, st, v, color, indent, ask, lead);
            &&& a.0 == st
            &&& a.1 is Ok
            &&& solid(a.1->Ok_0) == solid(plain_repr(st.heap, v, color, depth))
        }),
    decreases depth, f,
{
    let g = (f - 1) as nat;
    lemma_layout_steps(depth, width);
    if is_laid_out(st.heap, v, ask) {
        lemma_laid_out(g, st, v, color, indent + 1, ask, depth, width);
    } else {
        lemma_repr_is_plain(g, st, v, color, ask, depth, width);
        let text = plain_repr(st.heap, v, color, depth);
        lemma_solid_cat(lead, text);
        assert(solid(lead + text) =~= solid(text));
    }
}

proof fn lemma_list_layout(
    f: nat,
    st: St,
    v: Value,
    id: ObjId,
    color: bool,
    indent: nat,
    ask: Ask,
    depth: nat,
    width: nat,
)
    requires
        within(st.heap, v, depth, width),
        calm(st.heap, v, ask, depth),
        base(st.heap, v) == Value::List(id),
        f + 1 >= layout_steps(depth, width),
    ensures
        ({
            let a = s_list_layout(f, st, st.heap.list(id), color, indent, ask);
            &&& a.0 == st
            &&& a.1 is Ok
            &&& solid(a.1->Ok_0) == solid(plain_display(st.heap, v, color, depth))
        }),
    decreases depth, f,
{
    let h = st.heap;
    let items = h.list(id);
    let inner = padding(indent + 1);
    let none = Seq::<Seq<char>>::empty();
    let texts = plain_reprs(h, items, color, (depth - 1) as nat);
    let inside = joined(texts, ", "@);
    lemma_layout_steps(depth, width);
    lemma_separators();
    assert(items == items_of(h, base(h, v)));
    assert(plain_display(h, v, color, depth) == enclosed("["@, inside, "]"@, color));
    lemma_listed(texts, ", "@);
    if items.len() == 0 {
        assert(texts =~= none);
        assert(empty_brackets("["@, "]"@, color) =~= enclosed("["@, inside, "]"@, color));
    } else {
        let g = (f - 1) as nat;
        assert(texts.take(0) =~= none);
        if is_flat(h, items, ask) {
            let l = LinesV { full: Seq::empty(), line: inner, width: inner.len() };
            lemma_padding_white(indent + 1);
            assert(held_by(l) =~= held_so_far(texts, 0));
            lemma_fill(g, st, v, id, color, ask, depth, width, inner, 0, l);
            let r = s_fill(g, st, items, color, ask, inner, 0, l).1->Ok_0;
            let rows = r.full.push(r.line);
            lemma_solid_joined(rows);
            assert(rows.drop_last() =~= r.full);
            assert(all_solid(rows) == held_by(r));
            lemma_brackets("["@, joined(rows, "\n"@), inside, indent, "]"@, color);
        } else {
            lemma_item_lines(g, st, v, id, color, indent, ask, depth, width, 0, none);
            let lines = s_item_lines(g, st, items, color, indent, ask, 0, none).1->Ok_0;
            lemma_listed_alike(lines, texts);
            lemma_listed(lines, ",\n"@);
            lemma_brackets("["@, joined(lines, ",\n"@), inside, indent, "]"@, color);
        }
    }
}

proof fn lemma_dict_layout(
    f: nat,
    st: St,
    v: Value,
    id: ObjId,
    color: bool,
    indent: nat,
    ask: Ask,
    depth: nat,
    width: nat,
)
    requires
        within(st.heap, v, depth, width),
        calm(st.heap, v, ask, depth),
        base(st.heap, v) == Value::Dict(id),
        f + 1 >= layout_steps(depth, width),
    ensures
        ({
            let a = s_dict_layout(f, st, st.heap.dict(id), color, indent, ask);
            &&& a.0 == st
            &&& a.1 is Ok
            &&& solid(a.1->Ok_0) == solid(plain_display(st.heap, v, color, depth))
        }),
    decreases depth, f,
{
    let h = st.heap;
    let entries = h.dict(id);
    let none = Seq::<Seq<char>>::empty();
    let texts = plain_entries(h, entries, color, (depth - 1) as nat);
    let inside = joined(texts, ", "@);
    lemma_layout_steps(depth, width);
    lemma_separators();
    assert(plain_display(h, v, color, depth) == enclosed("{"@, inside, "}"@, color));
    lemma_listed(texts, ", "@);
    if entries.len() == 0 {
        assert(texts =~= none);
        assert(empty_brackets("{"@, "}"@, color) =~= enclosed("{"@, inside, "}"@, color));
    } else {
        let g = (f - 1) as nat;
        assert(texts.take(0) =~= none);
        lemma_entry_lines(g, st, v, id, color, indent, ask, depth, width, 0, none);
        let lines = s_entry_lines(g, st, entries, color, indent, ask, 0, none).1->Ok_0;
        lemma_listed_alike(lines, texts);
        lemma_listed(lines, ",\n"@);
        lemma_brackets("{"@, joined(lines, ",\n"@), inside, indent, "}"@, color);
    }
}

proof fn lemma_laid_out(
    f: nat,
    st: St,
    v: Value,
    color: bool,
    indent: nat,
    ask: Ask,
    depth: nat,
    width: nat,
)
    requires
        within(st.heap, v, depth, width),
        calm(st.heap, v, ask, depth),
        base(st.heap, v) is List || base(st.heap, v) is Dict,
        f >= layout_steps(depth, width),
    ensures
        ({
            let a = s_laid_out(f, st, v, color, indent, ask);
            &&& a.0 == st
            &&& a.1 is Ok
            &&& solid(a.1->Ok_0) == solid(plain_display(st.heap, v, color, depth))
        }),
    decreases depth, f,
{
    assert(depth * (width + 8) >= 0) by (nonlinear_arith);
    assert(f > 0);
    match base(st.heap, v) {
        Value::List(id) => {
            lemma_list_layout((f - 1) as nat, st, v, id, color, indent, ask, depth, width);
        },
        Value::Dict(id) => {
            lemma_dict_layout((f - 1) as nat, st, v, id, color, indent, ask, depth, width);
        },
        _ => {},
    }
}

/// Showing a value at a prompt succeeds and changes nothing, where the value holds no cycle and
/// no class that is asked answers. On a line that it fits it is shown as it displays; laid out,
/// it loses nothing but white space.
pub proof fn law_laying_a_value_out_loses_white_space_only(
    f: nat,
    st: St,
    v: Value,
    color: bool,
    ask: Ask,
    depth: nat,
    width: nat,
)
    requires
        within(st.heap, v, depth, width),
        calm(st.heap, v, ask, depth),
        f >= layout_steps(depth, width),
    ensures
        ({
            let a = s_pretty(f, st, v, color, ask);
            let one_line = plain_display(st.heap, v, false, depth);
            &&& s_display(f, st, v, false, ask) == (st, Ok::<Seq<char>, ErrV>(one_line))
            &&& a.0 == st
            &&& a.1 is Ok
            &&& bytes(one_line) <= MAX_WIDTH && !contains(one_line, "\n"@) ==> a == s_display(
                f,
                st,
                v,
                color,
                ask,
            )
            &&& solid(a.1->Ok_0) == solid(plain_display(st.heap, v, color, depth))
        }),
{
    lemma_layout_steps(depth, width);
    lemma_display_is_plain(f, st, v, false, ask, depth, width);
    lemma_display_is_plain(f, st, v, color, ask, depth, width);
    if is_laid_out(st.heap, v, ask) {
        lemma_laid_out(f, st, v, color, 0, ask, depth, width);
    }
}

proof fn lemma_filled_by(
    f: nat,
    st: St,
    v: Value,
    id: ObjId,
    ask: Ask,
    depth: nat,
    width: nat,
    pad: Seq<char>,
    i: int,
)
    requires
        within(st.heap, v, depth, width),
        calm(st.heap, v, ask, depth),
        depth > 0,
        base(st.heap, v) == Value::List(id),
        0 <= i <= st.heap.list(id).len(),
        f >= layout_steps((depth - 1) as nat, width) + width + 4 - i,
    ensures
        ({
            let texts = plain_reprs(st.heap, st.heap.list(id), false, (depth - 1) as nat);
            s_fill(f, st, st.heap.list(id), false, ask, pad, i, filled(texts, pad, i)) == (
                st,
                Ok::<LinesV, ErrV>(filled(texts, pad, texts.len() as int)),
            )
        }),
    decreases f,
{
    let h = st.heap;
    let items = h.list(id);
    let d = (depth - 1) as nat;
    assert(items == items_of(h, base(h, v)));
    if i < items.len() {
        let g = (f - 1) as nat;
        lemma_layout_steps(d, width);
        assert(within(h, items[i], d, width));
        if ask == Ask::Class {
            assert(unanswered(h, items[i], Op::Str, d));
        }
        lemma_repr_is_plain(g, st, items[i], false, Ask::Nothing, d, width);
        lemma_repr_is_plain(g, st, items[i], false, ask, d, width);
        lemma_filled_by(g, st, v, id, ask, depth, width, pad, i + 1);
    }
}

/// A list that holds no containers is laid out in lines, none of which is wider than it may be
/// unless it holds one item alone.
pub proof fn law_the_lines_of_a_list_fit(
    f: nat,
    st: St,
    v: Value,
    id: ObjId,
    indent: nat,
    ask: Ask,
    depth: nat,
    width: nat,
)
    requires
        within(st.heap, v, depth, width),
        calm(st.heap, v, ask, depth),
        base(st.heap, v) == Value::List(id),
        st.heap.list(id).len() > 0,
        is_flat(st.heap, st.heap.list(id), ask),
        f >= layout_steps(depth, width),
    ensures
        ({
            let texts = plain_reprs(st.heap, st.heap.list(id), false, (depth - 1) as nat);
            let pad = padding(indent + 1);
            let l = filled(texts, pad, texts.len() as int);
            let lines = l.full.push(l.line);
            &&& s_laid_out(f, st, v, false, indent, ask) == (
                st,
                Ok::<Seq<char>, ErrV>(
                    bracketed("["@, joined(lines, "\n"@), padding(indent), "]"@, false),
                ),
            )
            &&& forall|k: int| 0 <= k < lines.len() ==> fits(texts, pad, #[trigger] lines[k])
        }),
{
    let texts = plain_reprs(st.heap, st.heap.list(id), false, (depth - 1) as nat);
    let pad = padding(indent + 1);
    let l = filled(texts, pad, texts.len() as int);
    let lines = l.full.push(l.line);
    lemma_layout_steps(depth, width);
    lemma_filled_by((f - 2) as nat, st, v, id, ask, depth, width, pad, 0);
    assert forall|k: int| 0 <= k < lines.len() implies fits(texts, pad, #[trigger] lines[k]) by {
        law_a_filled_line_fits(texts, indent + 1, k);
    }
}

} // verus!
