//! A text as rows, and the small questions its heuristics ask of one.

use crate::text::{alphanumeric, chars_of, is_alphanumeric, is_whitespace, string_of, whitespace};
use vstd::prelude::*;

verus! {

// -- rows --------------------------------------------------------------------------------------

/// Where the row that `i` stands in ends: at its line break, or at the end.
pub open spec fn row_end(cs: Seq<char>, i: int) -> int
    decreases cs.len() - i,
{
    if i < 0 || i >= cs.len() {
        cs.len() as int
    } else if cs[i] == '\n' {
        i
    } else {
        row_end(cs, i + 1)
    }
}

/// The row that starts at `i`, without its line break.
pub open spec fn row_at(cs: Seq<char>, i: int) -> Seq<char> {
    let e = row_end(cs, i);
    if e < cs.len() && e > i && cs[e - 1] == '\r' {
        cs.subrange(i, e - 1)
    } else {
        cs.subrange(i, e)
    }
}

/// The rows from `i` on.
pub open spec fn rows_from(cs: Seq<char>, i: int) -> Seq<Seq<char>>
    decreases cs.len() - i,
{
    let e = row_end(cs, i);
    if i < 0 || i >= cs.len() || e < i {
        Seq::empty()
    } else if e >= cs.len() {
        seq![row_at(cs, i)]
    } else {
        seq![row_at(cs, i)] + rows_from(cs, e + 1)
    }
}

/// The rows of a text. A line break at the end starts no row.
pub open spec fn rows(cs: Seq<char>) -> Seq<Seq<char>> {
    rows_from(cs, 0)
}

pub open spec fn vecs(s: Seq<Vec<char>>) -> Seq<Seq<char>> {
    Seq::new(s.len(), |i: int| s[i]@)
}

pub proof fn lemma_row_end(cs: Seq<char>, i: int)
    requires
        0 <= i <= cs.len(),
    ensures
        i <= row_end(cs, i) <= cs.len(),
        row_end(cs, i) < cs.len() ==> cs[row_end(cs, i)] == '\n',
        forall|j: int| i <= j < row_end(cs, i) ==> cs[j] != '\n',
    decreases cs.len() - i,
{
    if i < cs.len() && cs[i] != '\n' {
        lemma_row_end(cs, i + 1);
    }
}

/// [`row_end`], computed.
pub(crate) fn end_of_row(cs: &Vec<char>, i: usize) -> (r: usize)
    requires
        i <= cs@.len(),
    ensures
        r == row_end(cs@, i as int),
        i <= r <= cs@.len(),
{
    let mut e: usize = i;
    while e < cs.len() && cs[e] != '\n'
        invariant
            i <= e <= cs@.len(),
            row_end(cs@, i as int) == row_end(cs@, e as int),
        decreases cs@.len() - e,
    {
        e += 1;
    }
    e
}

/// Some of the characters of a text.
pub(crate) fn part(cs: &Vec<char>, from: usize, to: usize) -> (r: Vec<char>)
    requires
        from <= to <= cs@.len(),
    ensures
        r@ == cs@.subrange(from as int, to as int),
{
    let mut r: Vec<char> = Vec::new();
    let mut i: usize = from;
    while i < to
        invariant
            from <= i <= to <= cs@.len(),
            r@ =~= cs@.subrange(from as int, i as int),
        decreases to - i,
    {
        r.push(cs[i]);
        i += 1;
    }
    r
}

/// [`rows`], computed.
pub(crate) fn rows_of(cs: &Vec<char>) -> (r: Vec<Vec<char>>)
    ensures
        vecs(r@) == rows(cs@),
{
    let mut r: Vec<Vec<char>> = Vec::new();
    let mut i: usize = 0;
    let len: usize = cs.len();
    assert(vecs(r@) + rows_from(cs@, 0) =~= rows(cs@));
    while i < len
        invariant
            i <= len,
            len == cs@.len(),
            vecs(r@) + rows_from(cs@, i as int) == rows(cs@),
        decreases len - i,
    {
        let ghost before = vecs(r@);
        let e = end_of_row(cs, i);
        let to: usize = if e < len && e > i && cs[e - 1] == '\r' {
            e - 1
        } else {
            e
        };
        let row = part(cs, i, to);
        assert(row@ == row_at(cs@, i as int));
        r.push(row);
        let next: usize = if e < len {
            e + 1
        } else {
            len
        };
        proof {
            assert(vecs(r@) =~= before.push(row_at(cs@, i as int)));
            if e >= len {
                assert(rows_from(cs@, next as int) =~= Seq::empty());
            }
            assert(before + rows_from(cs@, i as int) =~= vecs(r@) + rows_from(cs@, next as int));
        }
        i = next;
    }
    assert(vecs(r@) =~= rows(cs@));
    r
}

// -- the ends of a row -----------------------------------------------------------------------------

/// Where white space from `i` on ends.
pub open spec fn skip_space(s: Seq<char>, i: int) -> int
    decreases s.len() - i,
{
    if 0 <= i < s.len() && whitespace(s[i]) {
        skip_space(s, i + 1)
    } else {
        i
    }
}

/// Where the white space that ends at `n` starts.
pub open spec fn drop_space(s: Seq<char>, n: int) -> int
    decreases n,
{
    if 0 < n <= s.len() && whitespace(s[n - 1]) {
        drop_space(s, n - 1)
    } else {
        n
    }
}

/// A text without the white space behind it.
pub open spec fn trim_end(s: Seq<char>) -> Seq<char> {
    s.take(drop_space(s, s.len() as int))
}

/// A text without the white space around it.
pub open spec fn trim(s: Seq<char>) -> Seq<char> {
    let end = drop_space(s, s.len() as int);
    let start = skip_space(s, 0);
    if start < end {
        s.subrange(start, end)
    } else {
        Seq::empty()
    }
}

fn space_from(s: &Vec<char>) -> (r: usize)
    ensures
        r == skip_space(s@, 0),
        r <= s@.len(),
{
    let mut i: usize = 0;
    while i < s.len() && is_whitespace(s[i])
        invariant
            i <= s@.len(),
            skip_space(s@, 0) == skip_space(s@, i as int),
        decreases s@.len() - i,
    {
        i += 1;
    }
    i
}

pub(crate) fn space_before(s: &Vec<char>, from: usize) -> (r: usize)
    requires
        from <= s@.len(),
    ensures
        r == drop_space(s@, from as int),
        r <= from,
{
    let mut n: usize = from;
    while n > 0 && is_whitespace(s[n - 1])
        invariant
            n <= from <= s@.len(),
            drop_space(s@, from as int) == drop_space(s@, n as int),
        decreases n,
    {
        n -= 1;
    }
    n
}

/// [`trim_end`], computed.
pub(crate) fn trimmed_end(s: &Vec<char>) -> (r: Vec<char>)
    ensures
        r@ == trim_end(s@),
{
    let n = space_before(s, s.len());
    let r = part(s, 0, n);
    assert(r@ =~= trim_end(s@));
    r
}

/// [`trim`], computed.
pub(crate) fn trimmed(s: &Vec<char>) -> (r: Vec<char>)
    ensures
        r@ == trim(s@),
{
    let end = space_before(s, s.len());
    let start = space_from(s);
    if start < end {
        part(s, start, end)
    } else {
        let r: Vec<char> = Vec::new();
        assert(r@ =~= Seq::empty());
        r
    }
}

// -- parts of a row ---------------------------------------------------------------------------------

/// Whether a text starts with another.
pub open spec fn starts(s: Seq<char>, with: Seq<char>) -> bool {
    with.len() <= s.len() && s.take(with.len() as int) == with
}

/// Whether a text's last character is this one.
pub open spec fn ends(s: Seq<char>, with: char) -> bool {
    s.len() > 0 && s.last() == with
}

/// Where a character first stands, from `i` on.
pub open spec fn char_from(s: Seq<char>, c: char, i: int) -> Option<int>
    decreases s.len() - i,
{
    if i < 0 || i >= s.len() {
        None
    } else if s[i] == c {
        Some(i)
    } else {
        char_from(s, c, i + 1)
    }
}

/// Where a character last stands before `n`.
pub open spec fn char_before(s: Seq<char>, c: char, n: int) -> Option<int>
    decreases n,
{
    if n <= 0 || n > s.len() {
        None
    } else if s[n - 1] == c {
        Some(n - 1)
    } else {
        char_before(s, c, n - 1)
    }
}

/// A text up to where a character first stands.
pub open spec fn until(s: Seq<char>, c: char) -> Seq<char> {
    match char_from(s, c, 0) {
        Some(i) => s.take(i),
        None => s,
    }
}

/// Whether a character may stand in a name.
pub open spec fn in_name(c: char) -> bool {
    c == '_' || alphanumeric(c)
}

/// Where the name that ends at `n` starts.
pub open spec fn name_start(s: Seq<char>, n: int) -> int
    decreases n,
{
    if 0 < n <= s.len() && in_name(s[n - 1]) {
        name_start(s, n - 1)
    } else {
        n
    }
}

/// Where the name that stands at `i` ends.
pub open spec fn name_end(s: Seq<char>, i: int) -> int
    decreases s.len() - i,
{
    if 0 <= i < s.len() && in_name(s[i]) {
        name_end(s, i + 1)
    } else {
        i
    }
}

pub(crate) fn starts_with(s: &Vec<char>, with: &str) -> (r: bool)
    ensures
        r == starts(s@, with@),
{
    let w = chars_of(with);
    if w.len() > s.len() {
        return false;
    }
    let mut i: usize = 0;
    while i < w.len()
        invariant
            i <= w@.len() <= s@.len(),
            w@ == with@,
            forall|j: int| 0 <= j < i ==> s@[j] == w@[j],
        decreases w@.len() - i,
    {
        if s[i] != w[i] {
            assert(s@.take(w@.len() as int)[i as int] != w@[i as int]);
            return false;
        }
        i += 1;
    }
    assert(s@.take(w@.len() as int) =~= w@);
    true
}

pub(crate) fn ends_with(s: &Vec<char>, with: char) -> (r: bool)
    ensures
        r == ends(s@, with),
{
    s.len() > 0 && s[s.len() - 1] == with
}

pub(crate) fn find_char(s: &Vec<char>, c: char, from: usize) -> (r: Option<usize>)
    ensures
        match r {
            Some(i) => char_from(s@, c, from as int) == Some(i as int) && from <= i < s@.len(),
            None => char_from(s@, c, from as int) is None,
        },
{
    let mut i: usize = from;
    while i < s.len()
        invariant
            from <= i,
            char_from(s@, c, from as int) == char_from(s@, c, i as int),
        decreases s@.len() - i,
    {
        if s[i] == c {
            return Some(i);
        }
        i += 1;
    }
    None
}

pub(crate) fn rfind_char(s: &Vec<char>, c: char) -> (r: Option<usize>)
    ensures
        match r {
            Some(i) => char_before(s@, c, s@.len() as int) == Some(i as int) && i < s@.len(),
            None => char_before(s@, c, s@.len() as int) is None,
        },
{
    let mut n: usize = s.len();
    while n > 0
        invariant
            n <= s@.len(),
            char_before(s@, c, s@.len() as int) == char_before(s@, c, n as int),
        decreases n,
    {
        if s[n - 1] == c {
            return Some(n - 1);
        }
        n -= 1;
    }
    None
}

/// [`until`], computed.
pub(crate) fn up_to(s: &Vec<char>, c: char) -> (r: Vec<char>)
    ensures
        r@ == until(s@, c),
{
    let n: usize = match find_char(s, c, 0) {
        Some(i) => i,
        None => s.len(),
    };
    let r = part(s, 0, n);
    assert(r@ =~= until(s@, c));
    r
}

pub(crate) fn is_in_name(c: char) -> (r: bool)
    ensures
        r == in_name(c),
{
    c == '_' || is_alphanumeric(c)
}

pub(crate) fn start_of_name(s: &Vec<char>, n: usize) -> (r: usize)
    requires
        n <= s@.len(),
    ensures
        r == name_start(s@, n as int),
        r <= n,
{
    let mut i: usize = n;
    while i > 0 && is_in_name(s[i - 1])
        invariant
            i <= n <= s@.len(),
            name_start(s@, n as int) == name_start(s@, i as int),
        decreases i,
    {
        i -= 1;
    }
    i
}

pub(crate) fn end_of_name(s: &Vec<char>, from: usize) -> (r: usize)
    requires
        from <= s@.len(),
    ensures
        r == name_end(s@, from as int),
        from <= r <= s@.len(),
{
    let mut i: usize = from;
    while i < s.len() && is_in_name(s[i])
        invariant
            from <= i <= s@.len(),
            name_end(s@, from as int) == name_end(s@, i as int),
        decreases s@.len() - i,
    {
        i += 1;
    }
    i
}

pub(crate) fn text(s: &Vec<char>) -> (r: String)
    ensures
        r@ == s@,
{
    let r = string_of(s, 0, s.len());
    assert(r@ =~= s@);
    r
}

pub(crate) fn string_part(s: &Vec<char>, from: usize, to: usize) -> (r: String)
    requires
        from <= to <= s@.len(),
    ensures
        r@ == s@.subrange(from as int, to as int),
{
    string_of(s, from, to)
}

pub(crate) fn is_text(s: &Vec<char>, t: &str) -> (r: bool)
    ensures
        r == (s@ == t@),
{
    let w = chars_of(t);
    same_chars(s, &w)
}

pub(crate) fn same_chars(a: &Vec<char>, b: &Vec<char>) -> (r: bool)
    ensures
        r == (a@ == b@),
{
    if a.len() != b.len() {
        return false;
    }
    let mut i: usize = 0;
    while i < a.len()
        invariant
            i <= a@.len(),
            a@.len() == b@.len(),
            forall|j: int| 0 <= j < i ==> a@[j] == b@[j],
        decreases a@.len() - i,
    {
        if a[i] != b[i] {
            return false;
        }
        i += 1;
    }
    assert(a@ =~= b@);
    true
}

// -- words -------------------------------------------------------------------------------------------

/// Where the word at `i` ends.
pub open spec fn word_end(s: Seq<char>, i: int) -> int
    decreases s.len() - i,
{
    if 0 <= i < s.len() && !whitespace(s[i]) {
        word_end(s, i + 1)
    } else {
        i
    }
}

/// The words from `i` on, as white space parts them.
pub open spec fn words_from(s: Seq<char>, i: int) -> Seq<Seq<char>>
    decreases s.len() - i,
{
    let start = skip_space(s, i);
    let end = word_end(s, start);
    if i < 0 || start < i || start >= s.len() || end <= start || end > s.len() {
        Seq::empty()
    } else {
        seq![s.subrange(start, end)] + words_from(s, end)
    }
}

/// The words of a text.
pub open spec fn words(s: Seq<char>) -> Seq<Seq<char>> {
    words_from(s, 0)
}

fn space_end(s: &Vec<char>, from: usize) -> (r: usize)
    requires
        from <= s@.len(),
    ensures
        r == skip_space(s@, from as int),
        from <= r <= s@.len(),
        r < s@.len() ==> !whitespace(s@[r as int]),
{
    let mut i: usize = from;
    while i < s.len() && is_whitespace(s[i])
        invariant
            from <= i <= s@.len(),
            skip_space(s@, from as int) == skip_space(s@, i as int),
        decreases s@.len() - i,
    {
        i += 1;
    }
    i
}

/// [`words`], computed.
pub(crate) fn words_of(s: &Vec<char>) -> (r: Vec<Vec<char>>)
    ensures
        vecs(r@) == words(s@),
{
    let mut r: Vec<Vec<char>> = Vec::new();
    let mut i: usize = 0;
    assert(vecs(r@) + words_from(s@, 0) =~= words(s@));
    loop
        invariant
            i <= s@.len(),
            vecs(r@) + words_from(s@, i as int) == words(s@),
        decreases s@.len() - i,
    {
        let start = space_end(s, i);
        if start >= s.len() {
            assert(words_from(s@, i as int) =~= Seq::empty());
            assert(vecs(r@) =~= words(s@));
            return r;
        }
        let mut end: usize = start;
        while end < s.len() && !is_whitespace(s[end])
            invariant
                start <= end <= s@.len(),
                word_end(s@, start as int) == word_end(s@, end as int),
            decreases s@.len() - end,
        {
            end += 1;
        }
        proof {
            assert(end > start) by {
                if end == start {
                    assert(!whitespace(s@[start as int]));
                }
            }
        }
        let ghost before = vecs(r@);
        let word = part(s, start, end);
        let ghost model = word@;
        r.push(word);
        proof {
            assert(vecs(r@) =~= before.push(model));
            assert(before + words_from(s@, i as int) =~= vecs(r@) + words_from(s@, end as int));
        }
        i = end;
    }
}

} // verus!
