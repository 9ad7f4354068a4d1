//! Laying a document out: four spaces for every open brace.

use crate::lsp::document::DocumentState;
use crate::lsp::navigate::{edits_v, TextEdit, TextEditV};
use crate::lsp::position::{capped, columns, wide, Position, Range};
use crate::lsp::rows::{
    drop_space, ends, ends_with, is_text, lemma_row_end, row_at, row_end, rows, rows_from, rows_of,
    skip_space, starts, starts_with, text, trim, trimmed, vecs,
};
use crate::text::{cat2, chars_of, join, joined, lemma_strs_push, push_char, strs, whitespace};
use vstd::prelude::*;

verus! {

/// The space before a row, `level` braces deep.
pub open spec fn indent(level: nat) -> Seq<char>
    decreases level,
{
    if level == 0 {
        Seq::empty()
    } else {
        indent((level - 1) as nat) + "    "@
    }
}

/// How deep a row itself stands: a closing brace stands one level out.
pub open spec fn level_of(row: Seq<char>, level: nat) -> nat {
    if starts(row, "}"@) && level > 0 {
        (level - 1) as nat
    } else {
        level
    }
}

/// How deep the row after one stands.
pub open spec fn level_after(row: Seq<char>, level: nat) -> nat {
    if row.len() == 0 {
        level
    } else if ends(row, '{') {
        level_of(row, level) + 1
    } else {
        level_of(row, level)
    }
}

/// A row laid out.
pub open spec fn laid_out(row: Seq<char>, level: nat) -> Seq<char> {
    if row.len() == 0 {
        Seq::empty()
    } else {
        indent(level_of(row, level)) + row
    }
}

/// How deep the `n`th row stands.
pub open spec fn level_at(rs: Seq<Seq<char>>, n: int) -> nat
    decreases n,
{
    if 0 < n <= rs.len() {
        level_after(trim(rs[n - 1]), level_at(rs, n - 1))
    } else {
        0
    }
}

/// All rows laid out.
pub open spec fn all_laid_out(rs: Seq<Seq<char>>) -> Seq<Seq<char>> {
    Seq::new(rs.len(), |i: int| laid_out(trim(rs[i]), level_at(rs, i)))
}

/// A text laid out. A line break at its end stays.
pub open spec fn formatted(cs: Seq<char>) -> Seq<char> {
    let t = joined(all_laid_out(rows(cs)), "\n"@);
    if ends(cs, '\n') && !ends(t, '\n') {
        t.push('\n')
    } else {
        t
    }
}

/// How wide the last row is.
pub open spec fn last_width(rs: Seq<Seq<char>>) -> nat {
    if rs.len() == 0 {
        0
    } else {
        wide(rs.last())
    }
}

/// The change that lays a text out; none where it is laid out already.
pub open spec fn layout_edits(cs: Seq<char>) -> Seq<TextEditV> {
    if formatted(cs) == cs {
        Seq::empty()
    } else {
        seq![
            TextEditV {
                range: Range {
                    start: Position { line: 0, character: 0 },
                    end: Position { line: rows(cs).len() as usize, character: capped(last_width(rows(cs))) },
                },
                new_text: formatted(cs),
            },
        ]
    }
}

fn indent_of(level: usize) -> (r: String)
    ensures
        r@ == indent(level as nat),
{
    let mut r = String::new();
    let mut i: usize = 0;
    while i < level
        invariant
            i <= level,
            r@ == indent(i as nat),
        decreases level - i,
    {
        r.append("    ");
        i += 1;
    }
    r
}

fn laid_out_rows(rs: &Vec<Vec<char>>) -> (r: Vec<String>)
    ensures
        strs(r@) == all_laid_out(vecs(rs@)),
{
    broadcast use lemma_strs_push;

    let ghost all = vecs(rs@);
    let mut out: Vec<String> = Vec::new();
    let mut level: usize = 0;
    let mut i: usize = 0;
    while i < rs.len()
        invariant
            i <= rs@.len(),
            all == vecs(rs@),
            level <= i,
            level == level_at(all, i as int),
            strs(out@) =~= all_laid_out(all).take(i as int),
        decreases rs@.len() - i,
    {
        assert(all[i as int] == rs@[i as int]@);
        let ghost before = strs(out@);
        let ghost level_here = level as nat;
        let row = trimmed(&rs[i]);
        if row.len() == 0 {
            out.push(String::new());
            assert(strs(out@).last() =~= laid_out(row@, level_here));
        } else {
            if starts_with(&row, "}") && level > 0 {
                level -= 1;
            }
            let line = cat2(indent_of(level).as_str(), text(&row).as_str());
            out.push(line);
            assert(strs(out@).last() == laid_out(row@, level_here));
            if ends_with(&row, '{') {
                level += 1;
            }
        }
        assert(strs(out@) =~= before.push(all_laid_out(all)[i as int]));
        i += 1;
    }
    assert(strs(out@) =~= all_laid_out(all));
    out
}

/// The text of a document laid out.
pub fn format_text(source: &str) -> (r: String)
    ensures
        r@ == formatted(source@),
{
    let cs = chars_of(source);
    let rs = rows_of(&cs);
    let lines = laid_out_rows(&rs);
    let mut new_text = join(&lines, "\n");
    let made = chars_of(new_text.as_str());
    if ends_with(&cs, '\n') && !ends_with(&made, '\n') {
        push_char(&mut new_text, '\n');
    }
    new_text
}

/// The changes that lay a document out.
pub fn format_document(state: Option<&DocumentState>) -> (r: Vec<TextEdit>)
    ensures
        edits_v(r@) == match state {
            Some(state) => layout_edits(state.text@),
            None => Seq::empty(),
        },
{
    let mut edits: Vec<TextEdit> = Vec::new();
    assert(edits_v(edits@) =~= Seq::empty());
    let state = match state {
        Some(state) => state,
        None => return edits,
    };
    let new_text = format_text(state.text.as_str());
    let cs = chars_of(state.text.as_str());
    if is_text(&cs, new_text.as_str()) {
        return edits;
    }
    let rs = rows_of(&cs);
    proof {
        assert(vecs(rs@).len() == rs@.len());
    }
    let width: usize = if rs.len() == 0 {
        0
    } else {
        let last = &rs[rs.len() - 1];
        assert(vecs(rs@).last() == last@);
        columns(last, 0, last.len())
    };
    let range = Range {
        start: Position { line: 0, character: 0 },
        end: Position { line: rs.len(), character: width },
    };
    edits.push(TextEdit { range, new_text });
    assert(edits_v(edits@) =~= layout_edits(state.text@));
    edits
}

// -- what laying out keeps ----------------------------------------------------------------------------

/// A text without its white space.
pub open spec fn solid(s: Seq<char>) -> Seq<char>
    decreases s.len(),
{
    if s.len() == 0 {
        Seq::empty()
    } else if whitespace(s.last()) {
        solid(s.drop_last())
    } else {
        solid(s.drop_last()).push(s.last())
    }
}

/// Texts without their white space, one behind another.
pub open spec fn all_solid(parts: Seq<Seq<char>>) -> Seq<char>
    decreases parts.len(),
{
    if parts.len() == 0 {
        Seq::empty()
    } else {
        all_solid(parts.drop_last()) + solid(parts.last())
    }
}

pub(crate) proof fn lemma_solid_cat(a: Seq<char>, b: Seq<char>)
    ensures
        solid(a + b) == solid(a) + solid(b),
    decreases b.len(),
{
    if b.len() == 0 {
        assert(a + b =~= a);
        assert(solid(a) + solid(b) =~= solid(a));
    } else {
        lemma_solid_cat(a, b.drop_last());
        assert((a + b).drop_last() =~= a + b.drop_last());
        assert((a + b).last() == b.last());
        assert(solid(a + b) =~= solid(a) + solid(b));
    }
}

pub(crate) proof fn lemma_solid_white(s: Seq<char>)
    requires
        forall|i: int| 0 <= i < s.len() ==> whitespace(#[trigger] s[i]),
    ensures
        solid(s) == Seq::<char>::empty(),
    decreases s.len(),
{
    if s.len() > 0 {
        assert(whitespace(s[s.len() - 1]));
        let front = s.drop_last();
        assert forall|i: int| 0 <= i < front.len() implies whitespace(#[trigger] front[i]) by {
            assert(front[i] == s[i]);
        }
        lemma_solid_white(front);
    }
}

proof fn lemma_skip_space(s: Seq<char>, i: int)
    requires
        0 <= i <= s.len(),
    ensures
        i <= skip_space(s, i) <= s.len(),
        forall|j: int| i <= j < skip_space(s, i) ==> whitespace(#[trigger] s[j]),
        skip_space(s, i) < s.len() ==> !whitespace(s[skip_space(s, i)]),
    decreases s.len() - i,
{
    if i < s.len() && whitespace(s[i]) {
        lemma_skip_space(s, i + 1);
    }
}

proof fn lemma_drop_space(s: Seq<char>, n: int)
    requires
        0 <= n <= s.len(),
    ensures
        0 <= drop_space(s, n) <= n,
        forall|j: int| drop_space(s, n) <= j < n ==> whitespace(#[trigger] s[j]),
        drop_space(s, n) > 0 ==> !whitespace(s[drop_space(s, n) - 1]),
    decreases n,
{
    if n > 0 && whitespace(s[n - 1]) {
        lemma_drop_space(s, n - 1);
    }
}

/// What is left of a row once it is trimmed: nothing, or a text with no white space at its
/// ends, and all that the row holds but white space.
proof fn lemma_trim(s: Seq<char>)
    ensures
        solid(trim(s)) == solid(s),
        trim(s).len() > 0 ==> !whitespace(trim(s)[0]) && !whitespace(trim(s).last()),
        !s.contains('\n') ==> !trim(s).contains('\n'),
{
    let start = skip_space(s, 0);
    let end = drop_space(s, s.len() as int);
    lemma_skip_space(s, 0);
    lemma_drop_space(s, s.len() as int);
    if start < end {
        let a = s.subrange(0, start);
        let b = s.subrange(start, end);
        let c = s.subrange(end, s.len() as int);
        assert(a + b + c =~= s);
        lemma_solid_cat(a + b, c);
        lemma_solid_cat(a, b);
        assert forall|i: int| 0 <= i < a.len() implies whitespace(#[trigger] a[i]) by {
            assert(a[i] == s[i]);
        }
        assert forall|i: int| 0 <= i < c.len() implies whitespace(#[trigger] c[i]) by {
            assert(c[i] == s[end + i]);
        }
        lemma_solid_white(a);
        lemma_solid_white(c);
        assert(solid(s) =~= solid(b));
        assert(b[0] == s[start] && b.last() == s[end - 1]);
        assert(forall|i: int| 0 <= i < b.len() ==> b[i] == s[start + i]);
    } else {
        assert forall|i: int| 0 <= i < s.len() implies whitespace(#[trigger] s[i]) by {
            if i >= start {
                assert(end <= i);
            }
        }
        lemma_solid_white(s);
    }
}

proof fn lemma_indent(level: nat)
    ensures
        forall|i: int| 0 <= i < indent(level).len() ==> #[trigger] indent(level)[i] == ' ',
    decreases level,
{
    if level > 0 {
        lemma_indent((level - 1) as nat);
        reveal_strlit("    ");
        let front = indent((level - 1) as nat);
        let whole = indent(level);
        assert forall|i: int| 0 <= i < whole.len() implies #[trigger] whole[i] == ' ' by {
            if i < front.len() {
                assert(whole[i] == front[i]);
            } else {
                assert(whole[i] == "    "@[i - front.len()]);
            }
        }
    }
}

/// Trimming takes an indent away again.
proof fn lemma_trim_laid_out(row: Seq<char>, level: nat)
    requires
        row.len() > 0 ==> !whitespace(row[0]) && !whitespace(row.last()),
    ensures
        trim(laid_out(row, level)) == row,
        solid(laid_out(row, level)) == solid(row),
        !row.contains('\n') ==> !laid_out(row, level).contains('\n'),
{
    let s = laid_out(row, level);
    if row.len() > 0 {
        let d = indent(level_of(row, level));
        lemma_indent(level_of(row, level));
        assert(forall|i: int| 0 <= i < d.len() ==> s[i] == d[i]);
        assert(forall|i: int| 0 <= i < row.len() ==> s[d.len() + i] == row[i]);
        lemma_skip_space(s, 0);
        lemma_drop_space(s, s.len() as int);
        let start = skip_space(s, 0);
        let end = drop_space(s, s.len() as int);
        assert(s[d.len() as int] == row[0]);
        assert(s[s.len() - 1] == row.last());
        assert(end == s.len());
        assert(start == d.len()) by {
            if start < d.len() {
                assert(s[start] == ' ');
            }
            if start > d.len() {
                assert(whitespace(s[d.len() as int]));
            }
        }
        assert(trim(s) =~= row);
        lemma_solid_cat(d, row);
        lemma_solid_white(d);
        assert(solid(s) =~= solid(row));
    } else {
        assert(row =~= Seq::empty());
        assert(trim(s) =~= row);
    }
}

proof fn lemma_all_solid_front(first: Seq<char>, rest: Seq<Seq<char>>)
    ensures
        all_solid(seq![first] + rest) == solid(first) + all_solid(rest),
    decreases rest.len(),
{
    reveal_with_fuel(all_solid, 2);
    let all = seq![first] + rest;
    if rest.len() == 0 {
        assert(all.drop_last() =~= Seq::empty());
        assert(all_solid(all) =~= solid(first) + all_solid(rest));
    } else {
        assert(all.drop_last() =~= seq![first] + rest.drop_last());
        assert(all.last() == rest.last());
        lemma_all_solid_front(first, rest.drop_last());
        assert(all_solid(all) =~= solid(first) + all_solid(rest));
    }
}

pub(crate) proof fn lemma_all_solid_alike(a: Seq<Seq<char>>, b: Seq<Seq<char>>)
    requires
        a.len() == b.len(),
        forall|i: int| 0 <= i < a.len() ==> solid(#[trigger] a[i]) == solid(b[i]),
    ensures
        all_solid(a) == all_solid(b),
    decreases a.len(),
{
    if a.len() > 0 {
        assert(solid(a[a.len() - 1]) == solid(b[b.len() - 1]));
        let x = a.drop_last();
        let y = b.drop_last();
        assert forall|i: int| 0 <= i < x.len() implies solid(#[trigger] x[i]) == solid(y[i]) by {
            assert(x[i] == a[i] && y[i] == b[i]);
        }
        lemma_all_solid_alike(x, y);
    }
}

/// Parts joined by white space hold what the parts hold.
pub(crate) proof fn lemma_solid_joined(parts: Seq<Seq<char>>)
    ensures
        solid(joined(parts, "\n"@)) == all_solid(parts),
    decreases parts.len(),
{
    reveal_strlit("\n");
    reveal_with_fuel(all_solid, 2);
    if parts.len() == 1 {
        assert(parts.drop_last() =~= Seq::empty());
        assert(all_solid(parts) =~= solid(parts[0]));
    } else if parts.len() > 1 {
        let front = joined(parts.drop_last(), "\n"@);
        lemma_solid_joined(parts.drop_last());
        lemma_solid_cat(front + "\n"@, parts.last());
        lemma_solid_cat(front, "\n"@);
        lemma_solid_white("\n"@);
        assert(solid(joined(parts, "\n"@)) =~= all_solid(parts));
    }
}

/// The rows of a text hold what the text holds, but for white space.
proof fn lemma_solid_rows(cs: Seq<char>, i: int)
    requires
        0 <= i <= cs.len(),
    ensures
        all_solid(rows_from(cs, i)) == solid(cs.skip(i)),
    decreases cs.len() - i,
{
    lemma_row_end(cs, i);
    let e = row_end(cs, i);
    if i < cs.len() {
        let row = row_at(cs, i);
        let whole = cs.subrange(i, e);
        if row != whole {
            let r = cs.subrange(e - 1, e);
            assert(whole =~= row + r);
            lemma_solid_cat(row, r);
            lemma_solid_white(r);
            assert(solid(whole) =~= solid(row));
        }
        if e >= cs.len() {
            assert(cs.skip(i) =~= whole);
            reveal_with_fuel(all_solid, 2);
            assert(seq![row].drop_last() =~= Seq::empty());
            assert(all_solid(seq![row]) =~= solid(row));
        } else {
            lemma_solid_rows(cs, e + 1);
            lemma_all_solid_front(row, rows_from(cs, e + 1));
            let line_break = cs.subrange(e, e + 1);
            assert(cs.skip(i) =~= whole + line_break + cs.skip(e + 1));
            lemma_solid_cat(whole + line_break, cs.skip(e + 1));
            lemma_solid_cat(whole, line_break);
            lemma_solid_white(line_break);
            assert(solid(cs.skip(i)) =~= solid(row) + solid(cs.skip(e + 1)));
        }
    } else {
        assert(cs.skip(i) =~= Seq::empty());
    }
}

/// Laying a text out changes nothing but white space.
pub proof fn law_laying_out_changes_white_space_only(cs: Seq<char>)
    ensures
        solid(formatted(cs)) == solid(cs),
{
    let rs = rows(cs);
    let out = all_laid_out(rs);
    assert forall|i: int| 0 <= i < out.len() implies solid(#[trigger] out[i]) == solid(rs[i]) by {
        lemma_trim(rs[i]);
        lemma_trim_laid_out(trim(rs[i]), level_at(rs, i));
    }
    lemma_all_solid_alike(out, rs);
    lemma_solid_joined(out);
    lemma_solid_rows(cs, 0);
    assert(cs.skip(0) =~= cs);
    let t = joined(out, "\n"@);
    assert(t.push('\n').drop_last() =~= t);
}

proof fn lemma_row_end_shift(cs: Seq<char>, k: int, i: int)
    requires
        0 <= k <= cs.len(),
        0 <= i,
        k + i <= cs.len(),
    ensures
        row_end(cs, k + i) == k + row_end(cs.skip(k), i),
    decreases cs.len() - i,
{
    if k + i < cs.len() {
        assert(cs.skip(k)[i] == cs[k + i]);
        if cs[k + i] != '\n' {
            lemma_row_end_shift(cs, k, i + 1);
        }
    }
}

proof fn lemma_rows_shift(cs: Seq<char>, k: int, i: int)
    requires
        0 <= k <= cs.len(),
        0 <= i,
        k + i <= cs.len(),
    ensures
        rows_from(cs, k + i) == rows_from(cs.skip(k), i),
    decreases cs.len() - i,
{
    lemma_row_end_shift(cs, k, i);
    lemma_row_end(cs, k + i);
    if k + i < cs.len() {
        let e = row_end(cs, k + i);
        assert(row_at(cs, k + i) =~= row_at(cs.skip(k), i)) by {
            if e < cs.len() && e > k + i {
                assert(cs.skip(k)[e - 1 - k] == cs[e - 1]);
            }
        }
        if e < cs.len() {
            lemma_rows_shift(cs, k, e - k + 1);
        }
    }
}

/// Whether a text can stand in a row of its own.
pub open spec fn one_row(p: Seq<char>) -> bool {
    !p.contains('\n') && (p.len() > 0 ==> p.last() != '\r')
}

proof fn lemma_row_end_before(cs: Seq<char>, i: int, n: int)
    requires
        0 <= i <= n <= cs.len(),
        forall|j: int| i <= j < n ==> cs[j] != '\n',
        n < cs.len() ==> cs[n] == '\n',
    ensures
        row_end(cs, i) == n,
    decreases n - i,
{
    if i < n {
        lemma_row_end_before(cs, i + 1, n);
    }
}

proof fn lemma_rows_front(p: Seq<char>, rest: Seq<char>)
    requires
        one_row(p),
    ensures
        rows(p + "\n"@ + rest) == seq![p] + rows(rest),
{
    reveal_strlit("\n");
    let cs = p + "\n"@ + rest;
    let n = p.len() as int;
    assert(cs[n] == '\n');
    assert forall|j: int| 0 <= j < n implies cs[j] != '\n' by {
        assert(cs[j] == p[j]);
        assert(p.contains(p[j]));
    }
    lemma_row_end_before(cs, 0, n);
    if n > 0 {
        assert(cs[n - 1] == p.last());
    }
    assert(row_at(cs, 0) =~= p);
    lemma_rows_shift(cs, n + 1, 0);
    assert(cs.skip(n + 1) =~= rest);
}

proof fn lemma_rows_alone(p: Seq<char>)
    requires
        one_row(p),
        p.len() > 0,
    ensures
        rows(p) == seq![p],
{
    assert forall|j: int| 0 <= j < p.len() implies p[j] != '\n' by {
        assert(p.contains(p[j]));
    }
    lemma_row_end_before(p, 0, p.len() as int);
    assert(row_at(p, 0) =~= p);
}

proof fn lemma_joined_front(first: Seq<char>, rest: Seq<Seq<char>>, sep: Seq<char>)
    requires
        rest.len() > 0,
    ensures
        joined(seq![first] + rest, sep) == first + sep + joined(rest, sep),
    decreases rest.len(),
{
    reveal_with_fuel(joined, 2);
    let all = seq![first] + rest;
    assert(all.drop_last() =~= seq![first] + rest.drop_last());
    assert(all.last() == rest.last());
    if rest.len() == 1 {
        assert(all.drop_last() =~= seq![first]);
    } else {
        lemma_joined_front(first, rest.drop_last(), sep);
        assert(joined(all, sep) =~= first + sep + joined(rest, sep));
    }
}

/// The rows of joined rows are those rows, whether a line break ends them or not.
proof fn lemma_rows_of_joined(parts: Seq<Seq<char>>, broken: bool)
    requires
        parts.len() > 0,
        forall|i: int| 0 <= i < parts.len() ==> one_row(#[trigger] parts[i]),
        broken || parts.last().len() > 0,
    ensures
        rows(
            joined(parts, "\n"@) + if broken {
                "\n"@
            } else {
                Seq::empty()
            },
        ) == parts,
    decreases parts.len(),
{
    let end = if broken {
        "\n"@
    } else {
        Seq::empty()
    };
    let first = parts[0];
    let rest = parts.skip(1);
    assert(one_row(parts[0]));
    if parts.len() == 1 {
        assert(parts =~= seq![first]);
        if broken {
            lemma_rows_front(first, Seq::empty());
            assert(first + "\n"@ + Seq::empty() =~= first + "\n"@);
            assert(rows(Seq::<char>::empty()) =~= Seq::empty());
            assert(seq![first] + Seq::empty() =~= parts);
        } else {
            lemma_rows_alone(first);
            assert(first + end =~= first);
        }
    } else {
        assert(parts =~= seq![first] + rest);
        assert forall|i: int| 0 <= i < rest.len() implies one_row(#[trigger] rest[i]) by {
            assert(rest[i] == parts[i + 1]);
        }
        lemma_rows_of_joined(rest, broken);
        lemma_joined_front(first, rest, "\n"@);
        lemma_rows_front(first, joined(rest, "\n"@) + end);
        assert(joined(parts, "\n"@) + end =~= first + "\n"@ + (joined(rest, "\n"@) + end));
    }
}

proof fn lemma_level_again(rs: Seq<Seq<char>>, n: int)
    requires
        0 <= n <= rs.len(),
    ensures
        level_at(all_laid_out(rs), n) == level_at(rs, n),
    decreases n,
{
    if n > 0 {
        lemma_level_again(rs, n - 1);
        lemma_trim(rs[n - 1]);
        lemma_trim_laid_out(trim(rs[n - 1]), level_at(rs, n - 1));
    }
}

proof fn lemma_rows_hold_no_break(cs: Seq<char>, i: int)
    requires
        0 <= i <= cs.len(),
    ensures
        forall|k: int|
            0 <= k < rows_from(cs, i).len() ==> !(#[trigger] rows_from(cs, i)[k]).contains('\n'),
    decreases cs.len() - i,
{
    lemma_row_end(cs, i);
    let e = row_end(cs, i);
    if i < cs.len() {
        let row = row_at(cs, i);
        assert(!row.contains('\n')) by {
            if row.contains('\n') {
                let j = row.index_of('\n');
                assert(row[j] == cs[i + j]);
            }
        }
        if e < cs.len() {
            lemma_rows_hold_no_break(cs, e + 1);
            let rest = rows_from(cs, e + 1);
            let all = rows_from(cs, i);
            assert forall|k: int| 0 <= k < all.len() implies !(#[trigger] all[k]).contains('\n') by {
                if k > 0 {
                    assert(all[k] == rest[k - 1]);
                }
            }
        }
    }
}

/// A text that is laid out is left as it is, unless blank rows end it: each time such a text
/// is laid out it loses one of them.
pub proof fn law_a_text_laid_out_stays_as_it_is(cs: Seq<char>)
    requires
        rows(cs).len() > 0 ==> trim(rows(cs).last()).len() > 0,
    ensures
        formatted(formatted(cs)) == formatted(cs),
{
    reveal_strlit("\n");
    let rs = rows(cs);
    let out = all_laid_out(rs);
    let t = joined(out, "\n"@);
    lemma_rows_hold_no_break(cs, 0);
    if rs.len() == 0 {
        lemma_row_end(cs, 0);
        assert(cs.len() == 0);
        assert(t =~= Seq::empty());
        assert(formatted(cs) =~= Seq::empty());
        assert(cs =~= Seq::empty());
    } else {
        assert forall|i: int| 0 <= i < out.len() implies one_row(#[trigger] out[i]) && trim(out[i])
            == trim(rs[i]) by {
            let row = trim(rs[i]);
            assert(!rs[i].contains('\n'));
            lemma_trim(rs[i]);
            lemma_trim_laid_out(row, level_at(rs, i));
            if row.len() > 0 {
                assert(out[i].last() == row.last());
            }
        }
        let last = trim(rs.last());
        lemma_trim(rs.last());
        assert(out.last() == laid_out(last, level_at(rs, rs.len() - 1)));
        assert(out.last().last() == last.last());
        assert(t.len() > 0 && t.last() == out.last().last());
        let broken = ends(cs, '\n');
        let f = formatted(cs);
        assert(!ends(t, '\n'));
        lemma_rows_of_joined(out, broken);
        if broken {
            assert(f =~= t + "\n"@);
        } else {
            assert(f =~= t + Seq::empty());
        }
        assert(rows(f) == out);
        let again = all_laid_out(out);
        assert(again =~= out) by {
            assert forall|i: int| 0 <= i < out.len() implies again[i] == out[i] by {
                assert(trim(out[i]) == trim(rs[i]));
                lemma_level_again(rs, i);
            }
        }
        assert(ends(f, '\n') == broken);
    }
}

/// Laying a text out keeps each of its rows, but for the white space at its ends: it adds none,
/// and takes none away but a blank one at the end.
pub proof fn law_laying_out_keeps_each_row(cs: Seq<char>)
    ensures
        ({
            let before = rows(cs);
            let after = rows(formatted(cs));
            &&& before.len() - 1 <= after.len() <= before.len()
            &&& after.len() < before.len() ==> trim(before.last()).len() == 0
            &&& forall|i: int| 0 <= i < after.len() ==> trim(#[trigger] after[i]) == trim(before[i])
        }),
{
    reveal_strlit("\n");
    let rs = rows(cs);
    let out = all_laid_out(rs);
    let t = joined(out, "\n"@);
    let f = formatted(cs);
    lemma_rows_hold_no_break(cs, 0);
    assert forall|i: int| 0 <= i < out.len() implies one_row(#[trigger] out[i]) && trim(out[i]) == trim(
        rs[i],
    ) by {
        let row = trim(rs[i]);
        assert(!rs[i].contains('\n'));
        lemma_trim(rs[i]);
        lemma_trim_laid_out(row, level_at(rs, i));
        if row.len() > 0 {
            assert(out[i].last() == row.last());
        }
    }
    if rs.len() == 0 {
        lemma_row_end(cs, 0);
        assert(t =~= Seq::empty());
        assert(cs.len() == 0);
        assert(f =~= Seq::empty());
        assert(rows(f) =~= Seq::empty());
    } else if trim(rs.last()).len() > 0 {
        let last = trim(rs.last());
        lemma_trim(rs.last());
        assert(out.last().last() == last.last());
        assert(t.len() > 0 && t.last() == out.last().last());
        let broken = ends(cs, '\n');
        lemma_rows_of_joined(out, broken);
        if broken {
            assert(f =~= t + "\n"@);
        } else {
            assert(f =~= t + Seq::empty());
        }
        assert(rows(f) == out);
    } else {
        assert(out.last() =~= Seq::empty());
        if rs.len() == 1 {
            assert(t =~= Seq::empty());
            if ends(cs, '\n') {
                lemma_rows_of_joined(out, true);
                assert(f =~= t + "\n"@);
                assert(rows(f) == out);
            } else {
                assert(f =~= Seq::empty());
                assert(rows(f) =~= Seq::empty());
            }
        } else {
            let front = out.drop_last();
            assert forall|i: int| 0 <= i < front.len() implies one_row(#[trigger] front[i]) by {
                assert(front[i] == out[i]);
            }
            lemma_rows_of_joined(front, true);
            assert(t =~= joined(front, "\n"@) + "\n"@);
            assert(t.last() == '\n');
            assert(f == t);
            assert(rows(f) == front);
            assert forall|i: int| 0 <= i < front.len() implies trim(#[trigger] front[i]) == trim(rs[i]) by {
                assert(front[i] == out[i]);
            }
        }
    }
}

} // verus!
