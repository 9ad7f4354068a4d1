//! Characters and strings: the vocabulary every other module builds on.
//!
//! A string is modelled by its characters. Positions in a source text are byte
//! offsets, so the width of a character in UTF-8 is part of the model too.

use vstd::prelude::*;

verus! {

// -- what the standard library is trusted for --------------------------------

/// Whether a character is alphabetic, as `char::is_alphabetic` decides it.
pub uninterp spec fn alphabetic(c: char) -> bool;

/// Whether a character is alphanumeric, as `char::is_alphanumeric` decides it.
pub uninterp spec fn alphanumeric(c: char) -> bool;

/// Whether a character is an upper-case letter, as `char::is_uppercase` decides it.
pub uninterp spec fn capital(c: char) -> bool;

/// The upper-case form of a text, as `str::to_uppercase` gives it.
pub uninterp spec fn uppercase(s: Seq<char>) -> Seq<char>;

/// The lower-case form of a text, as `str::to_lowercase` gives it.
pub uninterp spec fn lowercase(s: Seq<char>) -> Seq<char>;

/// Calls `char::is_alphabetic`, whose answer has a name and no other statement:
/// the Unicode tables behind it are not restated here.
#[verifier::external_body]
pub(crate) fn is_alphabetic(c: char) -> (r: bool)
    ensures
        r == alphabetic(c),
{
    c.is_alphabetic()
}

/// Calls `char::is_alphanumeric`, named like [`is_alphabetic`].
#[verifier::external_body]
pub(crate) fn is_alphanumeric(c: char) -> (r: bool)
    ensures
        r == alphanumeric(c),
{
    c.is_alphanumeric()
}

/// Calls `char::is_uppercase`, named like [`is_alphabetic`].
#[verifier::external_body]
pub(crate) fn is_uppercase(c: char) -> (r: bool)
    ensures
        r == capital(c),
{
    c.is_uppercase()
}

/// Calls `str::to_uppercase`; the result is named, not restated.
#[verifier::external_body]
pub(crate) fn to_uppercase(s: &str) -> (r: String)
    ensures
        r@ == uppercase(s@),
{
    s.to_uppercase()
}

/// Calls `str::to_lowercase`; the result is named, not restated.
#[verifier::external_body]
pub(crate) fn to_lowercase(s: &str) -> (r: String)
    ensures
        r@ == lowercase(s@),
{
    s.to_lowercase()
}

/// A text in quotes with its special characters escaped, as `{:?}` writes a `str`.
pub uninterp spec fn quoted(s: Seq<char>) -> Seq<char>;

/// Formats a `str` with `{:?}`; the result is named, not restated.
#[verifier::external_body]
pub(crate) fn quote(s: &str) -> (r: String)
    ensures
        r@ == quoted(s@),
{
    format!("{:?}", s)
}

/// Calls `String::push`: the character goes at the end.
#[verifier::external_body]
pub(crate) fn push_char(s: &mut String, c: char)
    ensures
        final(s)@ == old(s)@.push(c),
{
    s.push(c)
}

// -- white space and equality ---------------------------------------------------

/// Whether a character is white space: those Unicode gives that property.
pub open spec fn whitespace(c: char) -> bool {
    let n = c as u32;
    (0x9 <= n && n <= 0xd) || n == 0x20 || n == 0x85 || n == 0xa0 || n == 0x1680 || (0x2000 <= n && n <= 0x200a)
        || n == 0x2028 || n == 0x2029 || n == 0x202f || n == 0x205f || n == 0x3000
}

/// [`whitespace`], decided.
pub(crate) fn is_whitespace(c: char) -> (r: bool)
    ensures
        r == whitespace(c),
{
    let n: u32 = c as u32;
    (0x9 <= n && n <= 0xd) || n == 0x20 || n == 0x85 || n == 0xa0 || n == 0x1680 || (0x2000 <= n && n <= 0x200a)
        || n == 0x2028 || n == 0x2029 || n == 0x202f || n == 0x205f || n == 0x3000
}

/// Whether two strings hold the same characters.
pub(crate) fn same(a: &str, b: &str) -> (r: bool)
    ensures
        r == (a@ == b@),
{
    let x = a.as_bytes();
    let y = b.as_bytes();
    proof {
        vstd::utf8::encode_utf8_decode_utf8(a@);
        vstd::utf8::encode_utf8_decode_utf8(b@);
    }
    if x.len() != y.len() {
        return false;
    }
    let mut i: usize = 0;
    while i < x.len()
        invariant
            i <= x@.len(),
            x@.len() == y@.len(),
            x@ == vstd::utf8::encode_utf8(a@),
            y@ == vstd::utf8::encode_utf8(b@),
            forall|j: int| 0 <= j < i ==> x@[j] == y@[j],
        decreases x@.len() - i,
    {
        if x[i] != y[i] {
            return false;
        }
        i += 1;
    }
    assert(x@ =~= y@);
    true
}

// -- widths and offsets --------------------------------------------------------

/// How many bytes a character takes in UTF-8.
pub open spec fn width(c: char) -> nat {
    if (c as u32) < 0x80 {
        1
    } else if (c as u32) < 0x800 {
        2
    } else if (c as u32) < 0x10000 {
        3
    } else {
        4
    }
}

/// The byte offset of the `i`th character of a text.
pub open spec fn offset(cs: Seq<char>, i: int) -> nat
    decreases i,
{
    if i <= 0 || i > cs.len() {
        0
    } else {
        offset(cs, i - 1) + width(cs[i - 1])
    }
}

/// [`width`], computed.
pub fn width_of(c: char) -> (r: usize)
    ensures
        r == width(c),
        1 <= r <= 4,
{
    let code: u32 = c as u32;
    if code < 0x80 {
        1
    } else if code < 0x800 {
        2
    } else if code < 0x10000 {
        3
    } else {
        4
    }
}

proof fn lemma_offset_front(cs: Seq<char>, i: int)
    requires
        0 < i <= cs.len(),
    ensures
        offset(cs, i) == width(cs[0]) + offset(cs.drop_first(), i - 1),
    decreases i,
{
    reveal_with_fuel(offset, 3);
    if i > 1 {
        lemma_offset_front(cs, i - 1);
        assert(cs.drop_first()[i - 2] == cs[i - 1]);
    }
}

proof fn lemma_offset_bytes(cs: Seq<char>)
    ensures
        offset(cs, cs.len() as int) == vstd::utf8::encode_utf8(cs).len(),
    decreases cs.len(),
{
    if cs.len() > 0 {
        vstd::utf8::char_is_scalar(cs[0]);
        lemma_offset_bytes(cs.drop_first());
        lemma_offset_front(cs, cs.len() as int);
        assert(vstd::utf8::is_scalar(cs[0] as u32));
        assert(vstd::utf8::encode_scalar(cs[0] as u32).len() == width(cs[0]));
    }
}

/// Offsets grow with the position they are taken at.
pub proof fn lemma_offset_monotonic(cs: Seq<char>, i: int, j: int)
    requires
        0 <= i <= j <= cs.len(),
    ensures
        offset(cs, i) + (j - i) <= offset(cs, j),
    decreases j - i,
{
    if i < j {
        lemma_offset_monotonic(cs, i, j - 1);
    }
}

/// A text that starts another takes as many bytes as its end stands at.
pub proof fn lemma_offset_prefix(cs: Seq<char>, front: Seq<char>, k: int)
    requires
        0 <= k <= cs.len(),
        front == cs.take(k),
    ensures
        offset(front, front.len() as int) == offset(cs, k),
{
    lemma_offset_agrees(cs, front, k);
}

/// An offset depends on the characters before it alone.
pub proof fn lemma_offset_agrees(a: Seq<char>, b: Seq<char>, k: int)
    requires
        0 <= k <= a.len(),
        k <= b.len(),
        forall|i: int| 0 <= i < k ==> a[i] == b[i],
    ensures
        offset(a, k) == offset(b, k),
    decreases k,
{
    if k > 0 {
        lemma_offset_agrees(a, b, k - 1);
    }
}

/// How many bytes a string takes.
pub fn byte_len(s: &str) -> (r: usize)
    ensures
        r == offset(s@, s@.len() as int),
{
    proof {
        lemma_offset_bytes(s@);
    }
    s.as_bytes().len()
}

/// The characters of a string. Its offsets fit a machine word, as its bytes do.
pub fn chars_of(s: &str) -> (r: Vec<char>)
    ensures
        r@ == s@,
        offset(s@, s@.len() as int) <= usize::MAX,
{
    let bytes = s.as_bytes();
    let ghost n = bytes.len();
    proof {
        lemma_offset_bytes(s@);
    }
    let mut out: Vec<char> = Vec::new();
    for c in iter: s.chars()
        invariant
            out@ == iter.seq().take(iter.index()),
            iter.seq() == s@,
    {
        out.push(c);
        assert(out@ =~= iter.seq().take(iter.index() + 1));
    }
    out
}

/// The string made of the characters from `from` up to `to`.
pub fn string_of(cs: &Vec<char>, from: usize, to: usize) -> (r: String)
    requires
        from <= to <= cs@.len(),
    ensures
        r@ == cs@.subrange(from as int, to as int),
{
    let mut out = String::new();
    let mut i: usize = from;
    while i < to
        invariant
            from <= i <= to <= cs@.len(),
            out@ == cs@.subrange(from as int, i as int),
        decreases to - i,
    {
        push_char(&mut out, cs[i]);
        assert(cs@.subrange(from as int, i + 1) =~= cs@.subrange(from as int, i as int).push(
            cs@[i as int],
        ));
        i += 1;
    }
    out
}

// -- numbers as text -----------------------------------------------------------

/// The character of a decimal digit.
pub open spec fn digit(n: nat) -> char {
    if n == 0 {
        '0'
    } else if n == 1 {
        '1'
    } else if n == 2 {
        '2'
    } else if n == 3 {
        '3'
    } else if n == 4 {
        '4'
    } else if n == 5 {
        '5'
    } else if n == 6 {
        '6'
    } else if n == 7 {
        '7'
    } else if n == 8 {
        '8'
    } else {
        '9'
    }
}

/// A natural number in decimal.
pub open spec fn digits(n: nat) -> Seq<char>
    decreases n,
{
    if n < 10 {
        seq![digit(n)]
    } else {
        digits(n / 10).push(digit(n % 10))
    }
}

/// An integer in decimal, with a minus sign in front where it is negative.
pub open spec fn decimal(n: int) -> Seq<char> {
    if n < 0 {
        seq!['-'] + digits((-n) as nat)
    } else {
        digits(n as nat)
    }
}

pub(crate) fn digit_char(n: u64) -> (r: char)
    requires
        n < 10,
    ensures
        r == digit(n as nat),
{
    match n {
        0 => '0',
        1 => '1',
        2 => '2',
        3 => '3',
        4 => '4',
        5 => '5',
        6 => '6',
        7 => '7',
        8 => '8',
        _ => '9',
    }
}

/// [`digits`], computed.
pub fn digits_of(n: u64) -> (r: String)
    ensures
        r@ == digits(n as nat),
    decreases n,
{
    if n < 10 {
        let mut out = String::new();
        push_char(&mut out, digit_char(n));
        assert(out@ =~= seq![digit(n as nat)]);
        out
    } else {
        let mut out = digits_of(n / 10);
        push_char(&mut out, digit_char(n % 10));
        out
    }
}

/// [`decimal`], computed.
pub fn decimal_of(n: i64) -> (r: String)
    ensures
        r@ == decimal(n as int),
{
    if n < 0 {
        let mut out = String::new();
        push_char(&mut out, '-');
        assert(out@ =~= seq!['-']);
        let magnitude: u64 = if n == i64::MIN {
            0x8000_0000_0000_0000
        } else {
            (-n) as u64
        };
        let rest = digits_of(magnitude);
        out.append(rest.as_str());
        out
    } else {
        digits_of(n as u64)
    }
}

// -- joining -------------------------------------------------------------------

/// The contents of a sequence of strings.
pub open spec fn strs(parts: Seq<String>) -> Seq<Seq<char>> {
    Seq::new(parts.len(), |i: int| parts[i]@)
}

/// A text added to texts is added to what they hold.
pub broadcast proof fn lemma_strs_push(s: Seq<String>, x: String)
    ensures
        #[trigger] strs(s.push(x)) == strs(s).push(x@),
{
    assert(strs(s.push(x)) =~= strs(s).push(x@));
}

/// Texts one after another, with a separator between each two.
pub open spec fn joined(parts: Seq<Seq<char>>, sep: Seq<char>) -> Seq<char>
    decreases parts.len(),
{
    if parts.len() == 0 {
        Seq::empty()
    } else if parts.len() == 1 {
        parts[0]
    } else {
        joined(parts.drop_last(), sep) + sep + parts.last()
    }
}

/// [`joined`], computed.
pub fn join(parts: &Vec<String>, sep: &str) -> (r: String)
    ensures
        r@ == joined(strs(parts@), sep@),
{
    let mut out = String::new();
    let mut i: usize = 0;
    while i < parts.len()
        invariant
            i <= parts.len(),
            out@ == joined(strs(parts@).take(i as int), sep@),
        decreases parts.len() - i,
    {
        let ghost whole = strs(parts@).take(i + 1);
        assert(whole.drop_last() =~= strs(parts@).take(i as int));
        if i > 0 {
            out.append(sep);
            out.append(parts[i].as_str());
        } else {
            out = parts[i].clone();
        }
        i += 1;
    }
    assert(strs(parts@).take(i as int) =~= strs(parts@));
    out
}

// -- comparing and searching -----------------------------------------------------

/// Whether one text comes before another, character by character.
pub open spec fn before(a: Seq<char>, b: Seq<char>, i: int) -> bool
    decreases a.len() - i,
{
    if i < 0 || i >= b.len() {
        false
    } else if i >= a.len() {
        true
    } else if a[i] != b[i] {
        (a[i] as u32) < (b[i] as u32)
    } else {
        before(a, b, i + 1)
    }
}

/// Whether `a` comes before `b` in the order of their characters.
pub fn comes_before(a: &str, b: &str) -> (r: bool)
    ensures
        r == before(a@, b@, 0),
{
    let a_chars = chars_of(a);
    let b_chars = chars_of(b);
    let mut i: usize = 0;
    while i < a_chars.len() && i < b_chars.len() && a_chars[i] == b_chars[i]
        invariant
            a_chars@ == a@,
            b_chars@ == b@,
            i <= a@.len(),
            i <= b@.len(),
            before(a@, b@, 0) == before(a@, b@, i as int),
        decreases a@.len() - i,
    {
        i += 1;
    }
    if i >= b_chars.len() {
        false
    } else if i >= a_chars.len() {
        true
    } else {
        (a_chars[i] as u32) < (b_chars[i] as u32)
    }
}

/// Whether `part` stands in `text` at position `i`.
pub open spec fn stands_at(text: Seq<char>, part: Seq<char>, i: int) -> bool {
    0 <= i && i + part.len() <= text.len() && text.subrange(i, i + part.len()) == part
}

/// The first position at or after `from` where `part` stands in `text`, or the
/// length of the text plus one where it stands nowhere.
pub open spec fn found(text: Seq<char>, part: Seq<char>, from: int) -> Option<int>
    decreases text.len() + 1 - from,
{
    if from < 0 || from + part.len() > text.len() {
        None
    } else if stands_at(text, part, from) {
        Some(from)
    } else {
        found(text, part, from + 1)
    }
}

/// Whether `part` stands in `text` anywhere.
pub open spec fn contains(text: Seq<char>, part: Seq<char>) -> bool {
    exists|i: int| stands_at(text, part, i)
}

pub(crate) fn stands(text: &Vec<char>, part: &Vec<char>, i: usize) -> (r: bool)
    requires
        i + part@.len() <= text@.len(),
    ensures
        r == stands_at(text@, part@, i as int),
{
    let len: usize = text.len();
    let mut k: usize = 0;
    while k < part.len()
        invariant
            k <= part@.len(),
            i + part@.len() <= text@.len(),
            len == text@.len(),
            forall|j: int| 0 <= j < k ==> text@[i + j] == part@[j],
        decreases part@.len() - k,
    {
        if text[i + k] != part[k] {
            assert(text@.subrange(i as int, i + part@.len())[k as int] != part@[k as int]);
            return false;
        }
        k += 1;
    }
    assert(text@.subrange(i as int, i + part@.len()) =~= part@);
    true
}

/// [`found`], computed.
pub fn find(text: &Vec<char>, part: &Vec<char>, from: usize) -> (r: Option<usize>)
    ensures
        match r {
            Some(i) => found(text@, part@, from as int) == Some(i as int),
            None => found(text@, part@, from as int) is None,
        },
{
    let mut i: usize = from;
    while i <= text.len() && part.len() <= text.len() - i
        invariant
            from <= i,
            found(text@, part@, from as int) == found(text@, part@, i as int),
        decreases text@.len() + 1 - i,
    {
        if stands(text, part, i) {
            return Some(i);
        }
        if i == text.len() {
            assert(text@.subrange(i as int, i as int) =~= part@);
            return None;
        }
        i += 1;
    }
    None
}

/// What [`found`] answers with: the first place, or that there is none.
pub proof fn lemma_found(text: Seq<char>, part: Seq<char>, from: int)
    requires
        0 <= from,
    ensures
        match found(text, part, from) {
            Some(i) => from <= i && stands_at(text, part, i) && forall|j: int|
                from <= j < i ==> !stands_at(text, part, j),
            None => forall|j: int| from <= j ==> !stands_at(text, part, j),
        },
    decreases text.len() + 1 - from,
{
    if from + part.len() <= text.len() && !stands_at(text, part, from) {
        lemma_found(text, part, from + 1);
    }
}

/// Whether `part` stands anywhere in `text`, computed.
pub fn contains_text(text: &str, part: &str) -> (r: bool)
    ensures
        r == contains(text@, part@),
{
    let text_chars = chars_of(text);
    let part_chars = chars_of(part);
    proof {
        lemma_found(text@, part@, 0);
    }
    let hit = find(&text_chars, &part_chars, 0);
    match hit {
        Some(i) => {
            assert(stands_at(text@, part@, i as int));
            true
        },
        None => false,
    }
}

// -- splitting --------------------------------------------------------------------------

/// The pieces of a text from `from` on, between the places where `sep` stands.
pub open spec fn pieces(text: Seq<char>, sep: Seq<char>, from: int) -> Seq<Seq<char>>
    decreases text.len() - from,
{
    match found(text, sep, from) {
        Some(i) => if from <= i && sep.len() > 0 && i + sep.len() <= text.len() {
            seq![text.subrange(from, i)] + pieces(text, sep, i + sep.len())
        } else {
            seq![text.subrange(from, text.len() as int)]
        },
        None => seq![text.subrange(from, text.len() as int)],
    }
}

/// [`pieces`] of a whole text, computed.
pub(crate) fn split(text: &str, sep: &str) -> (r: Vec<String>)
    requires
        sep@.len() > 0,
    ensures
        strs(r@) == pieces(text@, sep@, 0),
{
    let chars = chars_of(text);
    let part = chars_of(sep);
    let len: usize = chars.len();
    let mut r: Vec<String> = Vec::new();
    let mut from: usize = 0;
    assert(strs(r@) + pieces(text@, sep@, 0) =~= pieces(text@, sep@, 0));
    loop
        invariant
            chars@ == text@,
            part@ == sep@,
            part@.len() > 0,
            len == chars@.len(),
            from <= chars@.len(),
            strs(r@) + pieces(text@, sep@, from as int) == pieces(text@, sep@, 0),
        decreases chars@.len() - from,
    {
        let ghost so_far = strs(r@);
        match find(&chars, &part, from) {
            Some(i) => {
                proof {
                    lemma_found(text@, sep@, from as int);
                }
                let piece = string_of(&chars, from, i);
                let ghost text_of = piece@;
                r.push(piece);
                let next: usize = i + part.len();
                proof {
                    assert(strs(r@) =~= so_far.push(text_of));
                    assert(so_far.push(text_of) + pieces(text@, sep@, next as int) =~= so_far + (
                    seq![text_of] + pieces(text@, sep@, next as int)));
                }
                from = next;
            },
            None => {
                let piece = string_of(&chars, from, chars.len());
                let ghost text_of = piece@;
                r.push(piece);
                assert(strs(r@) =~= so_far + seq![text_of]);
                return r;
            },
        }
    }
}

// -- sorting ---------------------------------------------------------------------------

/// A text put into texts in order, before the first that comes after it.
pub open spec fn inserted(s: Seq<Seq<char>>, x: Seq<char>) -> Seq<Seq<char>>
    decreases s.len(),
{
    if s.len() > 0 && before(x, s.last(), 0) {
        inserted(s.drop_last(), x).push(s.last())
    } else {
        s.push(x)
    }
}

/// Texts in the order of their characters.
pub open spec fn sorted(s: Seq<Seq<char>>) -> Seq<Seq<char>>
    decreases s.len(),
{
    if s.len() == 0 {
        Seq::empty()
    } else {
        inserted(sorted(s.drop_last()), s.last())
    }
}

/// How many texts at the front stay in front of `x` when it is put in its place.
pub open spec fn rank_in(s: Seq<Seq<char>>, x: Seq<char>) -> int
    decreases s.len(),
{
    if s.len() > 0 && before(x, s.last(), 0) {
        rank_in(s.drop_last(), x)
    } else {
        s.len() as int
    }
}

proof fn lemma_rank(s: Seq<Seq<char>>, x: Seq<char>)
    ensures
        0 <= rank_in(s, x) <= s.len(),
        inserted(s, x) == s.insert(rank_in(s, x), x),
    decreases s.len(),
{
    if s.len() > 0 && before(x, s.last(), 0) {
        lemma_rank(s.drop_last(), x);
        assert(s.drop_last().insert(rank_in(s, x), x).push(s.last()) =~= s.insert(
            rank_in(s, x),
            x,
        ));
    } else {
        assert(s.push(x) =~= s.insert(s.len() as int, x));
    }
}

/// Puts a text into texts in order.
fn insert_sorted(s: &mut Vec<String>, x: String)
    ensures
        strs(final(s)@) == inserted(strs(old(s)@), x@),
{
    let ghost all = strs(s@);
    let mut i: usize = s.len();
    assert(all.take(i as int) =~= all);
    while i > 0 && comes_before(x.as_str(), s[i - 1].as_str())
        invariant
            i <= s@.len(),
            all == strs(s@),
            rank_in(all, x@) == rank_in(all.take(i as int), x@),
        decreases i,
    {
        assert(all.take(i as int).drop_last() =~= all.take(i - 1));
        i -= 1;
    }
    proof {
        lemma_rank(all, x@);
        if i > 0 {
            assert(all.take(i as int).last() == s@[i - 1]@);
        }
        assert(rank_in(all, x@) == i);
    }
    s.insert(i, x);
    assert(strs(s@) =~= all.insert(i as int, x@));
}

/// [`sorted`], computed.
pub fn sort(s: &Vec<String>) -> (r: Vec<String>)
    ensures
        strs(r@) == sorted(strs(s@)),
{
    let ghost all = strs(s@);
    let mut r: Vec<String> = Vec::new();
    let mut i: usize = 0;
    assert(strs(r@) =~= sorted(all.take(0)));
    while i < s.len()
        invariant
            i <= s@.len(),
            all == strs(s@),
            strs(r@) == sorted(all.take(i as int)),
        decreases s@.len() - i,
    {
        insert_sorted(&mut r, s[i].clone());
        proof {
            let longer = all.take(i + 1);
            assert(longer.drop_last() =~= all.take(i as int));
            assert(longer.last() == s@[i as int]@);
        }
        i += 1;
    }
    assert(all.take(i as int) =~= all);
    r
}

// -- putting texts together ----------------------------------------------------------

/// Two texts one after another.
pub fn cat2(a: &str, b: &str) -> (r: String)
    ensures
        r@ == a@ + b@,
{
    let mut r = String::from_str(a);
    r.append(b);
    r
}

/// Three texts one after another.
pub fn cat3(a: &str, b: &str, c: &str) -> (r: String)
    ensures
        r@ == a@ + b@ + c@,
{
    let mut r = String::from_str(a);
    r.append(b);
    r.append(c);
    r
}

/// Four texts one after another.
pub fn cat4(a: &str, b: &str, c: &str, d: &str) -> (r: String)
    ensures
        r@ == a@ + b@ + c@ + d@,
{
    let mut r = String::from_str(a);
    r.append(b);
    r.append(c);
    r.append(d);
    r
}

/// Five texts one after another.
pub fn cat5(a: &str, b: &str, c: &str, d: &str, e: &str) -> (r: String)
    ensures
        r@ == a@ + b@ + c@ + d@ + e@,
{
    let mut r = String::from_str(a);
    r.append(b);
    r.append(c);
    r.append(d);
    r.append(e);
    r
}

/// Six texts one after another.
pub fn cat6(a: &str, b: &str, c: &str, d: &str, e: &str, f: &str) -> (r: String)
    ensures
        r@ == a@ + b@ + c@ + d@ + e@ + f@,
{
    let mut r = String::from_str(a);
    r.append(b);
    r.append(c);
    r.append(d);
    r.append(e);
    r.append(f);
    r
}

/// Seven texts one after another.
pub fn cat7(a: &str, b: &str, c: &str, d: &str, e: &str, f: &str, g: &str) -> (r: String)
    ensures
        r@ == a@ + b@ + c@ + d@ + e@ + f@ + g@,
{
    let mut r = String::from_str(a);
    r.append(b);
    r.append(c);
    r.append(d);
    r.append(e);
    r.append(f);
    r.append(g);
    r
}

/// Nine texts one after another.
pub fn cat9(a: &str, b: &str, c: &str, d: &str, e: &str, f: &str, g: &str, h: &str, i: &str) -> (r: String)
    ensures
        r@ == a@ + b@ + c@ + d@ + e@ + f@ + g@ + h@ + i@,
{
    let mut r = String::from_str(a);
    r.append(b);
    r.append(c);
    r.append(d);
    r.append(e);
    r.append(f);
    r.append(g);
    r.append(h);
    r.append(i);
    r
}

} // verus!
