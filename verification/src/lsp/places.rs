//! What holds of the places where a name stands, and of the edits that rename it.

use crate::lsp::document::DocumentState;
use crate::lsp::navigate::{
    all_references, alone, elsewhere, is_code, located, name_range, references, renames, row_range,
    uses_in, uses_in_row, uses_in_rows, Document, LocationV,
};
use crate::lsp::position::{
    char_of, column, law_a_position_and_an_offset_name_the_same_character, lemma_column_back,
    lemma_units, nth_row, row_char, units, word_at, Position,
};
use crate::lsp::rows::{
    in_name, lemma_row_end, name_end, name_start, row_at, row_end, rows, rows_from,
};
use crate::lsp::server::distinct;
use crate::syntax::token::Span;
use crate::text::{found, lemma_found, offset, stands_at};
use vstd::prelude::*;

verus! {

// -- rows and the text they are of --------------------------------------------------------------

proof fn lemma_bytes(cs: Seq<char>, n: int)
    requires
        0 <= n <= cs.len(),
    ensures
        n <= offset(cs, n),
    decreases n,
{
    if n > 0 {
        lemma_bytes(cs, n - 1);
    }
}

/// The `n`th row from `i` on is the row that starts where the `n`th row does.
proof fn lemma_nth(cs: Seq<char>, i: int, n: nat)
    requires
        0 <= i <= cs.len(),
        n < rows_from(cs, i).len(),
    ensures
        nth_row(cs, n, i) is Some,
        i <= nth_row(cs, n, i)->0 <= cs.len(),
        i + n <= nth_row(cs, n, i)->0,
        rows_from(cs, i)[n as int] == row_at(cs, nth_row(cs, n, i)->0),
        n + 1 < rows_from(cs, i).len() ==> nth_row(cs, n + 1, i) == Some(
            row_end(cs, nth_row(cs, n, i)->0) + 1,
        ),
    decreases n,
{
    lemma_row_end(cs, i);
    let e = row_end(cs, i);
    if n > 0 {
        assert(e < cs.len());
        lemma_nth(cs, e + 1, (n - 1) as nat);
        assert(rows_from(cs, i)[n as int] == rows_from(cs, e + 1)[n - 1]);
    } else if rows_from(cs, i).len() > 1 {
        assert(e < cs.len());
        assert(nth_row(cs, 0, e + 1) == Some(e + 1));
    }
}

/// Where the rows of a text start.
spec fn row_start_of(cs: Seq<char>, line: int) -> int {
    nth_row(cs, line as nat, 0)->0
}

proof fn lemma_row(cs: Seq<char>, line: int)
    requires
        0 <= line < rows(cs).len(),
    ensures
        ({
            let s = row_start_of(cs, line);
            let row = rows(cs)[line];
            &&& nth_row(cs, line as nat, 0) == Some(s)
            &&& line <= s <= cs.len()
            &&& s + row.len() <= row_end(cs, s) <= cs.len()
            &&& row == cs.subrange(s, s + row.len())
        }),
{
    lemma_nth(cs, 0, line as nat);
    let s = row_start_of(cs, line);
    lemma_row_end(cs, s);
}

proof fn lemma_rows_apart(cs: Seq<char>, a: int, b: int)
    requires
        0 <= a < b < rows(cs).len(),
    ensures
        row_end(cs, row_start_of(cs, a)) < row_start_of(cs, b),
    decreases b - a,
{
    lemma_nth(cs, 0, a as nat);
    lemma_row(cs, a);
    lemma_row_end(cs, row_start_of(cs, a));
    if a + 1 < b {
        lemma_rows_apart(cs, a + 1, b);
        lemma_row(cs, a + 1);
        lemma_row_end(cs, row_start_of(cs, a + 1));
    }
}

proof fn lemma_same_columns(cs: Seq<char>, row: Seq<char>, s: int, k: int)
    requires
        0 <= k <= row.len(),
        0 <= s,
        s + row.len() <= cs.len(),
        row == cs.subrange(s, s + row.len()),
    ensures
        column(row, 0, k) == column(cs, s, s + k),
    decreases k,
{
    if k > 0 {
        lemma_same_columns(cs, row, s, k - 1);
        assert(row[k - 1] == cs[s + k - 1]);
    }
}

/// A place in a row names the character that stands there in the text.
proof fn lemma_place_in_row(cs: Seq<char>, line: int, k: int)
    requires
        0 <= line < rows(cs).len(),
        0 <= k <= rows(cs)[line].len(),
        offset(cs, cs.len() as int) <= usize::MAX,
    ensures
        column(rows(cs)[line], 0, k) <= usize::MAX,
        line <= usize::MAX,
        char_of(
            cs,
            Position {
                line: line as usize,
                character: crate::lsp::position::capped(column(rows(cs)[line], 0, k)),
            },
        ) == row_start_of(cs, line) + k,
{
    let row = rows(cs)[line];
    let s = row_start_of(cs, line);
    lemma_row(cs, line);
    lemma_same_columns(cs, row, s, k);
    lemma_units(cs, s, s + k);
    lemma_bytes(cs, cs.len() as int);
    crate::text::lemma_offset_monotonic(cs, s + k, cs.len() as int);
    lemma_column_back(cs, s, row_end(cs, s), s + k);
}

// -- the uses of a word in a row -----------------------------------------------------------------

/// Whether a word stands at a place of a row by itself, as part of the program.
pub open spec fn is_use(row: Seq<char>, word: Seq<char>, k: int) -> bool {
    &&& stands_at(row, word, k)
    &&& alone(row, k, word.len() as int)
    &&& is_code(row, k)
}

/// What the uses found in a row from `from` on are: places of it, in order.
proof fn lemma_uses(line: int, row: Seq<char>, word: Seq<char>, from: int) -> (ks: Seq<int>)
    requires
        0 <= from <= row.len(),
        word.len() > 0,
    ensures
        ks.len() == uses_in_row(line, row, word, from).len(),
        forall|i: int|
            0 <= i < ks.len() ==> from <= #[trigger] ks[i] && is_use(row, word, ks[i]) && uses_in_row(
                line,
                row,
                word,
                from,
            )[i] == row_range(line, row, ks[i], ks[i] + word.len()),
        forall|i: int, j: int|
            0 <= i < j < ks.len() ==> #[trigger] ks[i] + word.len() <= #[trigger] ks[j],
    decreases row.len() - from,
{
    lemma_found(row, word, from);
    match found(row, word, from) {
        None => Seq::empty(),
        Some(k) => {
            let n = word.len() as int;
            let rest = lemma_uses(line, row, word, k + n);
            let all = uses_in_row(line, row, word, from);
            let behind = uses_in_row(line, row, word, k + n);
            if alone(row, k, n) && is_code(row, k) {
                let ks = seq![k] + rest;
                let own = seq![row_range(line, row, k, k + n)];
                assert(all == own + behind);
                assert forall|i: int| 0 <= i < ks.len() implies from <= #[trigger] ks[i] && is_use(
                    row,
                    word,
                    ks[i],
                ) && all[i] == row_range(line, row, ks[i], ks[i] + n) by {
                    if i > 0 {
                        assert(ks[i] == rest[i - 1]);
                        assert(all[i] == behind[i - 1]);
                    }
                }
                assert forall|i: int, j: int| 0 <= i < j < ks.len() implies #[trigger] ks[i] + n <= #[trigger] ks[j] by {
                    assert(ks[j] == rest[j - 1]);
                    if i > 0 {
                        assert(ks[i] == rest[i - 1]);
                    }
                }
                ks
            } else {
                assert(all =~= behind);
                rest
            }
        },
    }
}

/// No use of a name is passed over.
proof fn lemma_no_use_missed(line: int, row: Seq<char>, word: Seq<char>, from: int, k: int)
    requires
        0 <= from <= k,
        word.len() > 0,
        forall|i: int| 0 <= i < word.len() ==> in_name(#[trigger] word[i]),
        is_use(row, word, k),
    ensures
        uses_in_row(line, row, word, from).contains(row_range(line, row, k, k + word.len())),
    decreases row.len() - from,
{
    lemma_found(row, word, from);
    let n = word.len() as int;
    let first = found(row, word, from)->0;
    assert(found(row, word, from) is Some);
    assert(first <= k) by {
        if first > k {
            assert(!stands_at(row, word, k));
        }
    }
    let all = uses_in_row(line, row, word, from);
    let behind = uses_in_row(line, row, word, first + n);
    if first == k {
        assert(all[0] == row_range(line, row, k, k + n));
    } else {
        assert(first + n <= k) by {
            if first + n > k {
                assert(row[k - 1] == row.subrange(first, first + n)[k - 1 - first]);
                assert(row[k - 1] == word[k - 1 - first]);
            }
        }
        lemma_no_use_missed(line, row, word, first + n, k);
        let i = behind.index_of(row_range(line, row, k, k + n));
        let shift = all.len() - behind.len();
        assert(all[shift + i] == behind[i]);
    }
}

// -- the uses of a word in a text -----------------------------------------------------------------

/// Where the uses found in the first `n` rows stand in the text: `spots[i]` is the character
/// that the `i`th starts at.
proof fn lemma_uses_in_rows(cs: Seq<char>, word: Seq<char>, n: int) -> (spots: Seq<int>)
    requires
        0 <= n <= rows(cs).len(),
        word.len() > 0,
        offset(cs, cs.len() as int) <= usize::MAX,
    ensures
        spots.len() == uses_in_rows(rows(cs), word, n).len(),
        forall|i: int|
            0 <= i < spots.len() ==> ({
                let r = uses_in_rows(rows(cs), word, n)[i];
                &&& stands_at(cs, word, #[trigger] spots[i])
                &&& char_of(cs, r.start) == spots[i]
                &&& char_of(cs, r.end) == spots[i] + word.len()
                &&& n > 0
                &&& spots[i] + word.len() <= row_end(cs, row_start_of(cs, n - 1))
            }),
        forall|i: int, j: int|
            0 <= i < j < spots.len() ==> #[trigger] spots[i] + word.len() <= #[trigger] spots[j],
    decreases n,
{
    if n == 0 {
        Seq::empty()
    } else {
        let line = n - 1;
        let row = rows(cs)[line];
        let m = word.len() as int;
        let before = lemma_uses_in_rows(cs, word, n - 1);
        let ks = lemma_uses(line, row, word, 0);
        let s = row_start_of(cs, line);
        lemma_row(cs, line);
        let own = Seq::new(ks.len(), |i: int| s + ks[i]);
        let spots = before + own;
        let front = uses_in_rows(rows(cs), word, n - 1);
        let here = uses_in_row(line, row, word, 0);
        let all = uses_in_rows(rows(cs), word, n);
        assert(all == front + here);
        assert forall|i: int| 0 <= i < spots.len() implies ({
            let r = all[i];
            &&& stands_at(cs, word, #[trigger] spots[i])
            &&& char_of(cs, r.start) == spots[i]
            &&& char_of(cs, r.end) == spots[i] + m
            &&& spots[i] + m <= row_end(cs, s)
        }) by {
            if i < before.len() {
                assert(spots[i] == before[i]);
                assert(all[i] == front[i]);
                lemma_rows_apart(cs, n - 2, n - 1);
                lemma_row_end(cs, s);
            } else {
                let k = ks[i - before.len()];
                assert(spots[i] == s + k);
                assert(all[i] == here[i - before.len()]);
                assert(stands_at(row, word, k));
                assert(cs.subrange(s + k, s + k + m) =~= row.subrange(k, k + m));
                lemma_place_in_row(cs, line, k);
                lemma_place_in_row(cs, line, k + m);
            }
        }
        assert forall|i: int, j: int| 0 <= i < j < spots.len() implies #[trigger] spots[i] + m <= #[trigger] spots[j] by {
            if j < before.len() {
                assert(spots[i] == before[i] && spots[j] == before[j]);
            } else if i < before.len() {
                assert(spots[i] == before[i]);
                assert(spots[j] == s + ks[j - before.len()]);
                lemma_rows_apart(cs, n - 2, n - 1);
            } else {
                assert(spots[i] == s + ks[i - before.len()]);
                assert(spots[j] == s + ks[j - before.len()]);
            }
        }
        spots
    }
}

// -- laws -------------------------------------------------------------------------------------------

/// Every reference to a name is a place where the text reads that name, and the references come
/// in the order of the text: none of them starts before the one in front of it ends, so no
/// place is given twice.
pub proof fn law_every_reference_reads_the_name(cs: Seq<char>, word: Seq<char>, i: int, j: int)
    requires
        word.len() > 0,
        offset(cs, cs.len() as int) <= usize::MAX,
        0 <= i < j < uses_in(cs, word).len(),
    ensures
        ({
            let all = uses_in(cs, word);
            &&& 0 <= char_of(cs, all[i].start) < char_of(cs, all[i].end) <= cs.len()
            &&& cs.subrange(char_of(cs, all[i].start), char_of(cs, all[i].end)) == word
            &&& cs.subrange(char_of(cs, all[j].start), char_of(cs, all[j].end)) == word
            &&& char_of(cs, all[i].end) <= char_of(cs, all[j].start)
            &&& all[i] != all[j]
        }),
{
    let spots = lemma_uses_in_rows(cs, word, rows(cs).len() as int);
    assert(stands_at(cs, word, spots[i]) && stands_at(cs, word, spots[j]));
    assert(spots[i] + word.len() <= spots[j]);
}

/// The only reference to a name reads that name too.
pub proof fn law_a_reference_reads_the_name(cs: Seq<char>, word: Seq<char>, i: int)
    requires
        word.len() > 0,
        offset(cs, cs.len() as int) <= usize::MAX,
        0 <= i < uses_in(cs, word).len(),
    ensures
        ({
            let r = uses_in(cs, word)[i];
            &&& 0 <= char_of(cs, r.start) < char_of(cs, r.end) <= cs.len()
            &&& cs.subrange(char_of(cs, r.start), char_of(cs, r.end)) == word
        }),
{
    let spots = lemma_uses_in_rows(cs, word, rows(cs).len() as int);
    assert(stands_at(cs, word, spots[i]));
}

/// No reference is missed: wherever a name stands in a row by itself, outside of strings and
/// comments, there is a reference to that place.
pub proof fn law_no_reference_is_missed(cs: Seq<char>, word: Seq<char>, line: int, k: int)
    requires
        word.len() > 0,
        forall|i: int| 0 <= i < word.len() ==> in_name(#[trigger] word[i]),
        0 <= line < rows(cs).len(),
        is_use(rows(cs)[line], word, k),
    ensures
        uses_in(cs, word).contains(row_range(line, rows(cs)[line], k, k + word.len())),
{
    lemma_row_is_kept(cs, word, line, k, rows(cs).len() as int);
}

proof fn lemma_row_is_kept(cs: Seq<char>, word: Seq<char>, line: int, k: int, n: int)
    requires
        word.len() > 0,
        forall|i: int| 0 <= i < word.len() ==> in_name(#[trigger] word[i]),
        0 <= line < n <= rows(cs).len(),
        is_use(rows(cs)[line], word, k),
    ensures
        uses_in_rows(rows(cs), word, n).contains(row_range(line, rows(cs)[line], k, k + word.len())),
    decreases n,
{
    let r = row_range(line, rows(cs)[line], k, k + word.len());
    let front = uses_in_rows(rows(cs), word, n - 1);
    let here = uses_in_row(n - 1, rows(cs)[n - 1], word, 0);
    let all = uses_in_rows(rows(cs), word, n);
    assert(all == front + here);
    if line == n - 1 {
        lemma_no_use_missed(line, rows(cs)[line], word, 0, k);
        let i = here.index_of(r);
        assert(all[front.len() + i] == r);
    } else {
        lemma_row_is_kept(cs, word, line, k, n - 1);
        let i = front.index_of(r);
        assert(all[i] == r);
    }
}

/// A reference never stands inside a longer name, in a string or in a comment.
pub proof fn law_a_reference_stands_by_itself(cs: Seq<char>, word: Seq<char>, i: int)
    requires
        word.len() > 0,
        0 <= i < uses_in(cs, word).len(),
    ensures
        exists|line: int, k: int|
            0 <= line < rows(cs).len() && #[trigger] is_use(rows(cs)[line], word, k) && uses_in(cs, word)[i]
                == row_range(line, rows(cs)[line], k, k + word.len()),
{
    lemma_each_is_a_use(cs, word, rows(cs).len() as int, i);
}

proof fn lemma_each_is_a_use(cs: Seq<char>, word: Seq<char>, n: int, i: int)
    requires
        word.len() > 0,
        0 <= n <= rows(cs).len(),
        0 <= i < uses_in_rows(rows(cs), word, n).len(),
    ensures
        exists|line: int, k: int|
            0 <= line < n && #[trigger] is_use(rows(cs)[line], word, k) && uses_in_rows(rows(cs), word, n)[i]
                == row_range(line, rows(cs)[line], k, k + word.len()),
    decreases n,
{
    let front = uses_in_rows(rows(cs), word, n - 1);
    let here = uses_in_row(n - 1, rows(cs)[n - 1], word, 0);
    assert(uses_in_rows(rows(cs), word, n) == front + here);
    if i < front.len() {
        lemma_each_is_a_use(cs, word, n - 1, i);
    } else {
        let ks = lemma_uses(n - 1, rows(cs)[n - 1], word, 0);
        assert(is_use(rows(cs)[n - 1], word, ks[i - front.len()]));
    }
}

/// The name at a place is as long as it can be: only name characters, none before it and none
/// behind it, and the place stands in it or at its end.
pub proof fn law_the_name_at_a_place_is_whole(cs: Seq<char>, pos: Position)
    requires
        word_at(cs, pos) is Some,
    ensures
        ({
            let row = rows(cs)[pos.line as int];
            let word = word_at(cs, pos)->0;
            &&& pos.line < rows(cs).len()
            &&& word.len() > 0
            &&& forall|i: int| 0 <= i < word.len() ==> in_name(#[trigger] word[i])
            &&& exists|k: int| #[trigger]
                stands_at(row, word, k) && alone(row, k, word.len() as int) && k <= row_char(
                    row,
                    pos.character as int,
                ) <= k + word.len()
        }),
{
    let row = rows(cs)[pos.line as int];
    let c = row_char(row, pos.character as int);
    lemma_row_char(row, 0, pos.character as int);
    lemma_name_start(row, c);
    lemma_name_end(row, c);
    let a = name_start(row, c);
    let b = name_end(row, c);
    let word = row.subrange(a, b);
    assert forall|i: int| 0 <= i < word.len() implies in_name(#[trigger] word[i]) by {
        assert(word[i] == row[a + i]);
    }
    assert(word_at(cs, pos) == crate::lsp::position::name_at(row, pos.character as int));
    assert(a <= c <= b);
    assert(a < b);
    assert(word_at(cs, pos)->0 == word);
    assert(word.len() == b - a);
    assert(row.subrange(a, a + word.len()) =~= word);
    assert(stands_at(row, word, a));
    assert(alone(row, a, word.len() as int));
}

proof fn lemma_row_char(row: Seq<char>, a: int, col: int)
    requires
        0 <= a <= row.len(),
    ensures
        a <= crate::lsp::position::char_at_column(row, a, row.len() as int, col) <= row.len(),
    decreases row.len() - a,
{
    if a < row.len() && units(row[a]) <= col {
        lemma_row_char(row, a + 1, col - units(row[a]));
    }
}

proof fn lemma_name_start(s: Seq<char>, n: int)
    requires
        0 <= n <= s.len(),
    ensures
        0 <= name_start(s, n) <= n,
        forall|i: int| name_start(s, n) <= i < n ==> in_name(#[trigger] s[i]),
        name_start(s, n) > 0 ==> !in_name(s[name_start(s, n) - 1]),
    decreases n,
{
    if n > 0 && in_name(s[n - 1]) {
        lemma_name_start(s, n - 1);
    }
}

proof fn lemma_name_end(s: Seq<char>, i: int)
    requires
        0 <= i <= s.len(),
    ensures
        i <= name_end(s, i) <= s.len(),
        forall|j: int| i <= j < name_end(s, i) ==> in_name(#[trigger] s[j]),
        name_end(s, i) < s.len() ==> !in_name(s[name_end(s, i)]),
    decreases s.len() - i,
{
    if i < s.len() && in_name(s[i]) {
        lemma_name_end(s, i + 1);
    }
}

/// The references in other documents are references of those documents, to the same name.
proof fn lemma_elsewhere(docs: Seq<Document>, uri: Seq<char>, word: Seq<char>, n: int, i: int)
    requires
        0 <= n <= docs.len(),
        0 <= i < elsewhere(docs, uri, word, n).len(),
    ensures
        exists|d: int, k: int|
            0 <= d < n && docs[d].uri@ != uri && 0 <= k < uses_in(docs[d].state.text@, word).len()
                && elsewhere(docs, uri, word, n)[i] == (LocationV {
                uri: docs[d].uri@,
                range: #[trigger] uses_in(docs[d].state.text@, word)[k],
            }),
    decreases n,
{
    let before = elsewhere(docs, uri, word, n - 1);
    if docs[n - 1].uri@ == uri || i < before.len() {
        lemma_elsewhere(docs, uri, word, n - 1, i);
    } else {
        let ranges = uses_in(docs[n - 1].state.text@, word);
        let own = located(docs[n - 1].uri@, ranges);
        assert(elsewhere(docs, uri, word, n) == before + own);
        assert(elsewhere(docs, uri, word, n)[i] == own[i - before.len()]);
        let k = i - before.len();
        assert(own[k].range == ranges[k]);
    }
}

/// No two references in other documents are the same, where no two documents have one name.
proof fn lemma_elsewhere_once(docs: Seq<Document>, uri: Seq<char>, word: Seq<char>, n: int, i: int, j: int)
    requires
        0 <= n <= docs.len(),
        0 <= i < j < elsewhere(docs, uri, word, n).len(),
        word.len() > 0,
        distinct(docs),
        forall|d: int|
            0 <= d < docs.len() ==> offset(
                (#[trigger] docs[d]).state.text@,
                docs[d].state.text@.len() as int,
            ) <= usize::MAX,
    ensures
        elsewhere(docs, uri, word, n)[i] != elsewhere(docs, uri, word, n)[j],
    decreases n,
{
    let before = elsewhere(docs, uri, word, n - 1);
    let all = elsewhere(docs, uri, word, n);
    if docs[n - 1].uri@ == uri || j < before.len() {
        lemma_elsewhere_once(docs, uri, word, n - 1, i, j);
    } else {
        let text = docs[n - 1].state.text@;
        let ranges = uses_in(text, word);
        let own = located(docs[n - 1].uri@, ranges);
        assert(all == before + own);
        assert(all[j] == own[j - before.len()]);
        if i < before.len() {
            assert(all[i] == before[i]);
            lemma_elsewhere(docs, uri, word, n - 1, i);
            let (d, k) = choose|d: int, k: int|
                0 <= d < n - 1 && docs[d].uri@ != uri && 0 <= k < uses_in(docs[d].state.text@, word).len()
                    && before[i] == (LocationV {
                    uri: docs[d].uri@,
                    range: #[trigger] uses_in(docs[d].state.text@, word)[k],
                });
            assert(docs[d].uri@ != docs[n - 1].uri@);
        } else {
            assert(all[i] == own[i - before.len()]);
            assert(offset(docs[n - 1].state.text@, text.len() as int) <= usize::MAX);
            law_every_reference_reads_the_name(text, word, i - before.len(), j - before.len());
        }
    }
}

/// The text of the document that a location is in.
pub open spec fn text_at(uri: Seq<char>, state: DocumentState, docs: Seq<Document>, at: Seq<char>) -> Seq<char> {
    if at == uri {
        state.text@
    } else {
        match crate::lsp::server::document(docs, at) {
            Some(other) => other.text@,
            None => Seq::empty(),
        }
    }
}

/// A rename is one edit for each reference: at its range, in its document, writing the new name.
/// What each edit replaces is the old name, and no place is edited twice.
pub proof fn law_a_rename_replaces_each_reference_once(
    uri: Seq<char>,
    state: DocumentState,
    docs: Seq<Document>,
    pos: Position,
    new_name: Seq<char>,
    i: int,
    j: int,
)
    requires
        word_at(state.text@, pos) is Some,
        distinct(docs),
        offset(state.text@, state.text@.len() as int) <= usize::MAX,
        forall|d: int|
            0 <= d < docs.len() ==> offset(
                (#[trigger] docs[d]).state.text@,
                docs[d].state.text@.len() as int,
            ) <= usize::MAX,
        0 <= i < renames(all_references(uri, state, docs, pos), new_name).len(),
        0 <= j < renames(all_references(uri, state, docs, pos), new_name).len(),
    ensures
        ({
            let places = all_references(uri, state, docs, pos);
            let edits = renames(places, new_name);
            let text = text_at(uri, state, docs, edits[i].uri);
            let r = edits[i].edit.range;
            &&& edits.len() == places.len()
            &&& edits[i].uri == places[i].uri
            &&& edits[i].edit.range == places[i].range
            &&& edits[i].edit.new_text == new_name
            &&& text.subrange(char_of(text, r.start), char_of(text, r.end)) == word_at(state.text@, pos)->0
            &&& i != j ==> edits[i].uri != edits[j].uri || edits[i].edit.range != edits[j].edit.range
            &&& i < j && edits[i].uri == uri && edits[j].uri == uri ==> char_of(state.text@, r.end)
                <= char_of(state.text@, edits[j].edit.range.start)
        }),
{
    let word = word_at(state.text@, pos)->0;
    law_the_name_at_a_place_is_whole(state.text@, pos);
    let places = all_references(uri, state, docs, pos);
    let own = located(uri, uses_in(state.text@, word));
    let others = elsewhere(docs, uri, word, docs.len() as int);
    assert(places == own + others);
    lemma_location_reads(uri, state, docs, word, i);
    if i != j {
        let a = if i < j {
            i
        } else {
            j
        };
        let b = if i < j {
            j
        } else {
            i
        };
        if b < own.len() {
            law_every_reference_reads_the_name(state.text@, word, a, b);
        } else if a < own.len() {
            assert(places[b] == others[b - own.len()]);
            lemma_elsewhere(docs, uri, word, docs.len() as int, b - own.len());
        } else {
            assert(places[a] == others[a - own.len()] && places[b] == others[b - own.len()]);
            lemma_elsewhere_once(
                docs,
                uri,
                word,
                docs.len() as int,
                a - own.len(),
                b - own.len(),
            );
            lemma_elsewhere(docs, uri, word, docs.len() as int, a - own.len());
        }
    }
}

proof fn lemma_location_reads(uri: Seq<char>, state: DocumentState, docs: Seq<Document>, word: Seq<char>, i: int)
    requires
        word.len() > 0,
        distinct(docs),
        offset(state.text@, state.text@.len() as int) <= usize::MAX,
        forall|d: int|
            0 <= d < docs.len() ==> offset(
                (#[trigger] docs[d]).state.text@,
                docs[d].state.text@.len() as int,
            ) <= usize::MAX,
        0 <= i < (located(uri, uses_in(state.text@, word)) + elsewhere(docs, uri, word, docs.len() as int)).len(),
    ensures
        ({
            let place = (located(uri, uses_in(state.text@, word)) + elsewhere(
                docs,
                uri,
                word,
                docs.len() as int,
            ))[i];
            let text = text_at(uri, state, docs, place.uri);
            text.subrange(char_of(text, place.range.start), char_of(text, place.range.end)) == word
        }),
{
    let own = located(uri, uses_in(state.text@, word));
    let others = elsewhere(docs, uri, word, docs.len() as int);
    let place = (own + others)[i];
    if i < own.len() {
        assert(place == own[i]);
        law_a_reference_reads_the_name(state.text@, word, i);
    } else {
        assert(place == others[i - own.len()]);
        lemma_elsewhere(docs, uri, word, docs.len() as int, i - own.len());
        let (d, k) = choose|d: int, k: int|
            0 <= d < docs.len() && docs[d].uri@ != uri && 0 <= k < uses_in(docs[d].state.text@, word).len()
                && place == (LocationV {
                uri: docs[d].uri@,
                range: #[trigger] uses_in(docs[d].state.text@, word)[k],
            });
        crate::lsp::server::lemma_found(docs, docs[d].uri@, d);
        assert(offset(docs[d].state.text@, docs[d].state.text@.len() as int) <= usize::MAX);
        law_a_reference_reads_the_name(docs[d].state.text@, word, k);
    }
}

/// Every reference in a document that is open is among all of them: those of the document
/// itself first, in their order, and then those of every other.
pub proof fn law_all_documents_are_searched(
    uri: Seq<char>,
    state: DocumentState,
    docs: Seq<Document>,
    pos: Position,
    d: int,
    k: int,
)
    requires
        word_at(state.text@, pos) is Some,
    ensures
        ({
            let word = word_at(state.text@, pos)->0;
            let places = all_references(uri, state, docs, pos);
            let own = uses_in(state.text@, word);
            &&& own.len() <= places.len()
            &&& 0 <= k < own.len() ==> places[k] == (LocationV { uri, range: own[k] })
            &&& 0 <= d < docs.len() && docs[d].uri@ != uri && 0 <= k < uses_in(docs[d].state.text@, word).len()
                ==> places.contains(
                LocationV { uri: docs[d].uri@, range: uses_in(docs[d].state.text@, word)[k] },
            )
            &&& references(state.text@, pos) == own
        }),
{
    let word = word_at(state.text@, pos)->0;
    let own = located(uri, uses_in(state.text@, word));
    let others = elsewhere(docs, uri, word, docs.len() as int);
    let places = all_references(uri, state, docs, pos);
    if 0 <= k < own.len() {
        assert(places[k] == own[k]);
    }
    if 0 <= d < docs.len() && docs[d].uri@ != uri && 0 <= k < uses_in(docs[d].state.text@, word).len() {
        lemma_searched(docs, uri, word, docs.len() as int, d, k);
        let r = LocationV { uri: docs[d].uri@, range: uses_in(docs[d].state.text@, word)[k] };
        let i = others.index_of(r);
        assert(places[own.len() + i] == r);
    }
}

proof fn lemma_searched(docs: Seq<Document>, uri: Seq<char>, word: Seq<char>, n: int, d: int, k: int)
    requires
        0 <= d < n <= docs.len(),
        docs[d].uri@ != uri,
        0 <= k < uses_in(docs[d].state.text@, word).len(),
    ensures
        elsewhere(docs, uri, word, n).contains(
            LocationV { uri: docs[d].uri@, range: uses_in(docs[d].state.text@, word)[k] },
        ),
    decreases n,
{
    let r = LocationV { uri: docs[d].uri@, range: uses_in(docs[d].state.text@, word)[k] };
    let before = elsewhere(docs, uri, word, n - 1);
    let all = elsewhere(docs, uri, word, n);
    if d == n - 1 {
        let own = located(docs[d].uri@, uses_in(docs[d].state.text@, word));
        assert(all == before + own);
        assert(all[before.len() + k] == own[k]);
    } else {
        lemma_searched(docs, uri, word, n - 1, d, k);
        let i = before.index_of(r);
        assert(all[i] == r);
    }
}

/// Where a name is found inside a span, the text reads that name there.
pub proof fn law_a_name_found_in_a_span_stands_there(cs: Seq<char>, span: Span, name: Seq<char>)
    requires
        name_range(cs, span, name) is Some,
        offset(cs, cs.len() as int) <= usize::MAX,
        0 <= crate::lsp::position::char_at(cs, span.start as int),
        crate::lsp::position::char_at(cs, span.end as int) <= cs.len(),
    ensures
        ({
            let r = name_range(cs, span, name)->0;
            let a = crate::lsp::position::char_at(cs, span.start as int);
            let b = crate::lsp::position::char_at(cs, span.end as int);
            &&& a <= char_of(cs, r.start) <= char_of(cs, r.end) <= b
            &&& cs.subrange(char_of(cs, r.start), char_of(cs, r.end)) == name
        }),
{
    let a = crate::lsp::position::char_at(cs, span.start as int);
    let b = crate::lsp::position::char_at(cs, span.end as int);
    let inside = cs.subrange(a, b);
    lemma_found(inside, name, 0);
    let k = found(inside, name, 0)->0;
    law_a_position_and_an_offset_name_the_same_character(cs, a + k);
    law_a_position_and_an_offset_name_the_same_character(cs, a + k + name.len());
    assert(cs.subrange(a + k, a + k + name.len()) =~= inside.subrange(k, k + name.len()));
}

} // verus!
