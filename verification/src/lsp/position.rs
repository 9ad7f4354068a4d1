//! Places in a text: as a row and a column, and as a byte.

use crate::lsp::rows::{
    end_of_name, end_of_row, lemma_row_end, name_end, name_start, row_end, rows, rows_of,
    start_of_name, string_part, vecs,
};
use crate::syntax::token::Span;
use crate::text::{byte_len, chars_of, lemma_offset_monotonic, offset, width_of};
use vstd::prelude::*;

verus! {

/// A row and a column, both counted from zero. A column counts UTF-16 code units.
#[derive(Clone, Copy, Debug, PartialEq, Eq, Structural)]
pub struct Position {
    pub line: usize,
    pub character: usize,
}

/// From one place up to another.
#[derive(Clone, Copy, Debug, PartialEq, Eq, Structural)]
pub struct Range {
    pub start: Position,
    pub end: Position,
}

// -- bytes to places ----------------------------------------------------------------------------

/// How many of the first `n` characters end by a byte.
pub open spec fn chars_by(cs: Seq<char>, byte: int, n: int) -> int
    decreases n,
{
    if n <= 0 || n > cs.len() {
        0
    } else if offset(cs, n) <= byte {
        n
    } else {
        chars_by(cs, byte, n - 1)
    }
}

/// The character a byte stands before.
pub open spec fn char_at(cs: Seq<char>, byte: int) -> int {
    chars_by(cs, byte, cs.len() as int)
}

/// How many line breaks there are among the first `n` characters.
pub open spec fn breaks(cs: Seq<char>, n: int) -> nat
    decreases n,
{
    if n <= 0 || n > cs.len() {
        0
    } else {
        breaks(cs, n - 1) + if cs[n - 1] == '\n' {
            1nat
        } else {
            0
        }
    }
}

/// Where the row of the `n`th character starts.
pub open spec fn row_start(cs: Seq<char>, n: int) -> int
    decreases n,
{
    if n <= 0 || n > cs.len() {
        0
    } else if cs[n - 1] == '\n' {
        n
    } else {
        row_start(cs, n - 1)
    }
}

/// How many UTF-16 code units a character takes.
pub open spec fn units(c: char) -> nat {
    if (c as u32) < 0x10000 {
        1
    } else {
        2
    }
}

/// How many UTF-16 code units the characters from `a` up to `n` take.
pub open spec fn column(cs: Seq<char>, a: int, n: int) -> nat
    decreases n - a,
{
    if a < 0 || n <= a || n > cs.len() {
        0
    } else {
        column(cs, a, n - 1) + units(cs[n - 1])
    }
}

/// A count as a machine word holds it: what is past its range is the end of it.
pub open spec fn capped(n: nat) -> usize {
    if n <= usize::MAX {
        n as usize
    } else {
        usize::MAX
    }
}

/// How wide a text is, in UTF-16 code units.
pub open spec fn wide(s: Seq<char>) -> nat {
    column(s, 0, s.len() as int)
}

/// The character that stands `col` units behind `a`, or at `end` where there are fewer.
pub open spec fn char_at_column(cs: Seq<char>, a: int, end: int, col: int) -> int
    decreases end - a,
{
    if 0 <= a < end && end <= cs.len() && units(cs[a]) <= col {
        char_at_column(cs, a + 1, end, col - units(cs[a]))
    } else {
        a
    }
}

/// The place of the `n`th character.
pub open spec fn place_of(cs: Seq<char>, n: int) -> Position {
    Position {
        line: breaks(cs, n) as usize,
        character: capped(column(cs, row_start(cs, n), n)),
    }
}

/// How many units the characters from `a` up to `n` take.
pub(crate) fn columns(cs: &Vec<char>, a: usize, n: usize) -> (r: usize)
    requires
        a <= n <= cs@.len(),
    ensures
        r == capped(column(cs@, a as int, n as int)),
{
    let mut r: usize = 0;
    let mut i: usize = a;
    while i < n
        invariant
            a <= i <= n <= cs@.len(),
            r == capped(column(cs@, a as int, i as int)),
        decreases n - i,
    {
        let more: usize = if (cs[i] as u32) < 0x10000 {
            1
        } else {
            2
        };
        r = if r <= usize::MAX - more {
            r + more
        } else {
            usize::MAX
        };
        i += 1;
    }
    r
}

/// [`wide`], counted.
pub(crate) fn width_of_text(s: &str) -> (r: usize)
    ensures
        r == capped(wide(s@)),
{
    let cs = chars_of(s);
    columns(&cs, 0, cs.len())
}

/// [`char_at_column`], found.
pub(crate) fn index_at_column(cs: &Vec<char>, a: usize, end: usize, col: usize) -> (r: usize)
    requires
        a <= end <= cs@.len(),
    ensures
        r == char_at_column(cs@, a as int, end as int, col as int),
        a <= r <= end,
{
    let mut i: usize = a;
    let mut left: usize = col;
    while i < end
        invariant
            a <= i <= end <= cs@.len(),
            char_at_column(cs@, a as int, end as int, col as int) == char_at_column(
                cs@,
                i as int,
                end as int,
                left as int,
            ),
        decreases end - i,
    {
        let more: usize = if (cs[i] as u32) < 0x10000 {
            1
        } else {
            2
        };
        if more > left {
            return i;
        }
        left -= more;
        i += 1;
    }
    i
}

/// The place a byte stands at.
pub open spec fn position_of(cs: Seq<char>, byte: int) -> Position {
    place_of(cs, char_at(cs, byte))
}

proof fn lemma_place(cs: Seq<char>, n: int)
    requires
        0 <= n <= cs.len(),
    ensures
        breaks(cs, n) <= n,
        0 <= row_start(cs, n) <= n,
    decreases n,
{
    if n > 0 {
        lemma_place(cs, n - 1);
    }
}

/// The character a byte stands before, counted off from the start.
pub(crate) fn char_index(cs: &Vec<char>, byte: usize) -> (r: usize)
    ensures
        r == char_at(cs@, byte as int),
        r <= cs@.len(),
{
    let mut i: usize = 0;
    let mut left: usize = byte;
    proof {
        assert(chars_by(cs@, byte as int, 0) == 0);
    }
    while i < cs.len()
        invariant
            i <= cs@.len(),
            offset(cs@, i as int) + left == byte,
        decreases cs@.len() - i,
    {
        let w: usize = width_of(cs[i]);
        if w > left {
            proof {
                lemma_chars_by(cs@, byte as int, i as int, cs@.len() as int);
            }
            return i;
        }
        left -= w;
        i += 1;
    }
    i
}

proof fn lemma_chars_by(cs: Seq<char>, byte: int, i: int, n: int)
    requires
        0 <= i < n <= cs.len(),
        offset(cs, i + 1) > byte,
        i > 0 ==> offset(cs, i) <= byte,
    ensures
        chars_by(cs, byte, n) == i,
    decreases n,
{
    lemma_offset_monotonic(cs, i + 1, n);
    if n == i + 1 {
        assert(chars_by(cs, byte, i) == i);
    }
    if n > i + 1 {
        lemma_chars_by(cs, byte, i, n - 1);
    }
}

pub(crate) fn place(cs: &Vec<char>, n: usize) -> (r: Position)
    requires
        n <= cs@.len(),
    ensures
        r == place_of(cs@, n as int),
{
    let mut line: usize = 0;
    let mut start: usize = 0;
    let mut i: usize = 0;
    while i < n
        invariant
            i <= n <= cs@.len(),
            line == breaks(cs@, i as int),
            start == row_start(cs@, i as int),
            line <= i,
            start <= i,
        decreases n - i,
    {
        i += 1;
        if cs[i - 1] == '\n' {
            line += 1;
            start = i;
        }
    }
    Position { line, character: columns(cs, start, n) }
}

/// The place a byte of a text stands at.
pub fn offset_to_position(source: &str, byte: usize) -> (r: Position)
    ensures
        r == position_of(source@, byte as int),
{
    let cs = chars_of(source);
    let n = char_index(&cs, byte);
    place(&cs, n)
}

/// What a span covers; one that covers nothing is given a character.
pub open spec fn range_of(cs: Seq<char>, span: Span) -> Range {
    let start = position_of(cs, span.start as int);
    let end = position_of(cs, span.end as int);
    Range {
        start,
        end: if start == end {
            position_of(cs, span.end + 1)
        } else {
            end
        },
    }
}

/// Every byte past the end stands at the end.
proof fn lemma_past_the_end(cs: Seq<char>, a: int, b: int)
    requires
        a == b || (a >= offset(cs, cs.len() as int) && b >= offset(cs, cs.len() as int)),
    ensures
        position_of(cs, a) == position_of(cs, b),
{
}

/// What a span of a text covers.
pub fn span_to_range(source: &str, span: Span) -> (r: Range)
    ensures
        r == range_of(source@, span),
{
    let start = offset_to_position(source, span.start);
    let end = offset_to_position(source, span.end);
    if start == end {
        let length = byte_len(source);
        let next: usize = if span.end < length {
            span.end + 1
        } else {
            length
        };
        proof {
            lemma_past_the_end(source@, span.end + 1, next as int);
        }
        Range { start, end: offset_to_position(source, next) }
    } else {
        Range { start, end }
    }
}

// -- places to bytes ------------------------------------------------------------------------------

/// Where the `n`th row from `i` on starts.
pub open spec fn nth_row(cs: Seq<char>, n: nat, i: int) -> Option<int>
    decreases n,
{
    if n == 0 {
        Some(i)
    } else {
        let e = row_end(cs, i);
        if e < cs.len() {
            nth_row(cs, (n - 1) as nat, e + 1)
        } else {
            None
        }
    }
}

/// The character a place stands before: past the end of its row, the end of the row, and
/// past the last row, the end of the text.
pub open spec fn char_of(cs: Seq<char>, pos: Position) -> int {
    match nth_row(cs, pos.line as nat, 0) {
        Some(start) => char_at_column(cs, start, row_end(cs, start), pos.character as int),
        None => cs.len() as int,
    }
}

/// The character a place stands before.
pub(crate) fn char_of_position(cs: &Vec<char>, pos: Position) -> (r: usize)
    ensures
        r == char_of(cs@, pos),
        r <= cs@.len(),
{
    let len: usize = cs.len();
    let mut i: usize = 0;
    let mut n: usize = pos.line;
    while n > 0
        invariant
            i <= len,
            len == cs@.len(),
            nth_row(cs@, pos.line as nat, 0) == nth_row(cs@, n as nat, i as int),
        decreases n,
    {
        let e = end_of_row(cs, i);
        if e >= len {
            return len;
        }
        i = e + 1;
        n -= 1;
    }
    let e = end_of_row(cs, i);
    index_at_column(cs, i, e, pos.character)
}

/// How many bytes the first characters of a row take.
pub(crate) fn row_bytes(cs: &Vec<char>, n: usize) -> (r: usize)
    requires
        n <= cs@.len(),
        offset(cs@, cs@.len() as int) <= usize::MAX,
    ensures
        r == offset(cs@, n as int),
{
    let mut i: usize = 0;
    let mut at: usize = 0;
    while i < n
        invariant
            i <= n <= cs@.len(),
            at == offset(cs@, i as int),
            offset(cs@, cs@.len() as int) <= usize::MAX,
        decreases n - i,
    {
        proof {
            lemma_offset_monotonic(cs@, i + 1, cs@.len() as int);
        }
        at = at + width_of(cs[i]);
        i += 1;
    }
    at
}

/// The byte a place of a text stands at.
pub fn position_to_offset(source: &str, pos: Position) -> (r: usize)
    ensures
        r == offset(source@, char_of(source@, pos)),
{
    let cs = chars_of(source);
    let n = char_of_position(&cs, pos);
    row_bytes(&cs, n)
}

// -- words -------------------------------------------------------------------------------------------

/// The character of a row that a column stands before.
pub open spec fn row_char(row: Seq<char>, col: int) -> int {
    char_at_column(row, 0, row.len() as int, col)
}

/// The name that stands at a column of a row.
pub open spec fn name_at(row: Seq<char>, col: int) -> Option<Seq<char>> {
    if col > capped(wide(row)) {
        None
    } else {
        let start = name_start(row, row_char(row, col));
        let end = name_end(row, row_char(row, col));
        if start < end {
            Some(row.subrange(start, end))
        } else {
            None
        }
    }
}

/// The name that stands at a place.
pub open spec fn word_at(cs: Seq<char>, pos: Position) -> Option<Seq<char>> {
    if pos.line < rows(cs).len() {
        name_at(rows(cs)[pos.line as int], pos.character as int)
    } else {
        None
    }
}

pub open spec fn opt_text(s: Option<String>) -> Option<Seq<char>> {
    match s {
        Some(s) => Some(s@),
        None => None,
    }
}

/// The name that stands at a place of a text.
pub fn get_word_at_position(source: &str, pos: Position) -> (r: Option<String>)
    ensures
        opt_text(r) == word_at(source@, pos),
        r is Some ==> r->0@.len() > 0,
{
    let cs = chars_of(source);
    let all = rows_of(&cs);
    assert(vecs(all@).len() == all@.len());
    if pos.line >= all.len() {
        return None;
    }
    let row = &all[pos.line];
    assert(vecs(all@)[pos.line as int] == row@);
    if pos.character > columns(row, 0, row.len()) {
        return None;
    }
    let col = index_at_column(row, 0, row.len(), pos.character);
    let start = start_of_name(row, col);
    let end = end_of_name(row, col);
    if start < end {
        Some(string_part(row, start, end))
    } else {
        None
    }
}

// -- laws ----------------------------------------------------------------------------------------------

proof fn lemma_rows_meet(cs: Seq<char>, n: int)
    requires
        0 <= n <= cs.len(),
    ensures
        nth_row(cs, breaks(cs, n), 0) == Some(row_start(cs, n)),
        row_end(cs, row_start(cs, n)) >= n,
    decreases n,
{
    if n > 0 {
        lemma_rows_meet(cs, n - 1);
        lemma_place(cs, n - 1);
        let start = row_start(cs, n - 1);
        lemma_row_end(cs, start);
        if cs[n - 1] == '\n' {
            assert(row_end(cs, start) == n - 1) by {
                if row_end(cs, start) > n - 1 {
                    assert(cs[n - 1] != '\n');
                }
            }
            lemma_nth_row_next(cs, breaks(cs, n - 1), 0, start);
            lemma_row_end(cs, n);
        } else {
            assert(row_end(cs, start) >= n) by {
                if row_end(cs, start) == n - 1 {
                    assert(cs[n - 1] == '\n');
                }
            }
        }
    } else {
        lemma_row_end(cs, 0);
    }
}

proof fn lemma_nth_row_next(cs: Seq<char>, n: nat, i: int, start: int)
    requires
        nth_row(cs, n, i) == Some(start),
        row_end(cs, start) < cs.len(),
    ensures
        nth_row(cs, n + 1, i) == Some(row_end(cs, start) + 1),
    decreases n,
{
    if n > 0 {
        lemma_nth_row_next(cs, (n - 1) as nat, row_end(cs, i) + 1, start);
    } else {
        assert(nth_row(cs, 0, row_end(cs, i) + 1) == Some(row_end(cs, i) + 1));
    }
}

pub(crate) proof fn lemma_units(cs: Seq<char>, a: int, n: int)
    requires
        0 <= a <= n <= cs.len(),
    ensures
        column(cs, a, n) <= offset(cs, n) - offset(cs, a),
        a < n ==> column(cs, a, n) == units(cs[a]) + column(cs, a + 1, n),
    decreases n - a,
{
    if a < n {
        lemma_units(cs, a, n - 1);
    }
}

pub(crate) proof fn lemma_column_back(cs: Seq<char>, a: int, end: int, n: int)
    requires
        0 <= a <= n <= end <= cs.len(),
    ensures
        char_at_column(cs, a, end, column(cs, a, n) as int) == n,
    decreases n - a,
{
    lemma_units(cs, a, n);
    if a < n {
        lemma_column_back(cs, a + 1, end, n);
    }
}

/// A place and the byte it was taken from name the same character.
pub proof fn law_a_position_and_an_offset_name_the_same_character(cs: Seq<char>, n: int)
    requires
        0 <= n <= cs.len(),
        offset(cs, cs.len() as int) <= usize::MAX,
    ensures
        char_of(cs, place_of(cs, n)) == n,
{
    lemma_rows_meet(cs, n);
    lemma_place(cs, n);
    let start = row_start(cs, n);
    lemma_row_end(cs, start);
    lemma_units(cs, start, n);
    lemma_offset_monotonic(cs, n, cs.len() as int);
    lemma_breaks(cs, n);
    lemma_column_back(cs, start, row_end(cs, start), n);
}

proof fn lemma_breaks(cs: Seq<char>, n: int)
    requires
        0 <= n <= cs.len(),
    ensures
        breaks(cs, n) <= offset(cs, n),
    decreases n,
{
    if n > 0 {
        lemma_breaks(cs, n - 1);
    }
}

/// A byte between characters comes back from the place it stands at.
pub proof fn law_an_offset_comes_back_from_its_position(cs: Seq<char>, n: int)
    requires
        0 <= n <= cs.len(),
        offset(cs, cs.len() as int) <= usize::MAX,
    ensures
        offset(cs, char_of(cs, position_of(cs, offset(cs, n) as int))) == offset(cs, n),
{
    lemma_char_at(cs, n, cs.len() as int);
    law_a_position_and_an_offset_name_the_same_character(cs, n);
}

proof fn lemma_char_at(cs: Seq<char>, n: int, top: int)
    requires
        0 <= n <= top <= cs.len(),
    ensures
        chars_by(cs, offset(cs, n) as int, top) == n,
    decreases top,
{
    if top > n {
        lemma_offset_monotonic(cs, n, top);
        lemma_char_at(cs, n, top - 1);
    } else if n == 0 {
        assert(chars_by(cs, 0, 0) == 0);
    }
}

} // verus!
