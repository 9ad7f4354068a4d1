//! What a text that does not parse still suggests: which class a receiver is of.

use crate::lsp::position::{index_at_column, opt_text, row_char, Position};
use crate::lsp::rows::{
    char_before, char_from, ends, ends_with, find_char, in_name, is_in_name, is_text, part,
    rfind_char, rows, rows_of, same_chars, starts, starts_with, text, trim, trim_end, trimmed,
    trimmed_end, until, up_to, vecs, words, words_of,
};
use crate::text::{capital, chars_of, find, found, is_uppercase, lemma_found};
use vstd::prelude::*;

verus! {

// -- small questions -------------------------------------------------------------------------------

/// What stands before a character, without the space around it.
pub open spec fn head(s: Seq<char>, c: char) -> Seq<char> {
    trim(until(s, c))
}

pub(crate) fn head_of(s: &Vec<char>, c: char) -> (r: Vec<char>)
    ensures
        r@ == head(s@, c),
{
    trimmed(&up_to(s, c))
}

/// Whether a text starts with a capital letter.
pub open spec fn capitalised(s: Seq<char>) -> bool {
    s.len() > 0 && capital(s[0])
}

pub(crate) fn is_capitalised(s: &Vec<char>) -> (r: bool)
    ensures
        r == capitalised(s@),
{
    s.len() > 0 && is_uppercase(s[0])
}

pub open spec fn opt_chars(s: Option<Vec<char>>) -> Option<Seq<char>> {
    match s {
        Some(s) => Some(s@),
        None => None,
    }
}

/// The name of the class a row opens.
pub open spec fn class_opened(row: Seq<char>) -> Option<Seq<char>> {
    let t = trim(row);
    if starts(t, "class "@) && words(t).len() >= 2 {
        Some(head(words(t)[1], '{'))
    } else {
        None
    }
}

/// Where a word stands among others, from `i` on.
pub open spec fn word_index(ws: Seq<Seq<char>>, w: Seq<char>, i: int) -> Option<int>
    decreases ws.len() - i,
{
    if i < 0 || i >= ws.len() {
        None
    } else if ws[i] == w {
        Some(i)
    } else {
        word_index(ws, w, i + 1)
    }
}

/// The name of the class that the class a row opens extends.
pub open spec fn parent_opened(row: Seq<char>) -> Option<Seq<char>> {
    let t = trim(row);
    let ws = words(t);
    if starts(t, "class "@) && ws.len() >= 2 {
        match word_index(ws, "extends"@, 0) {
            Some(k) => if k + 1 < ws.len() {
                Some(head(ws[k + 1], '{'))
            } else {
                None
            },
            None => None,
        }
    } else {
        None
    }
}

/// The name of the method a row opens.
pub open spec fn method_opened(row: Seq<char>) -> Option<Seq<char>> {
    let t = trim(row);
    if (starts(t, "fn "@) || starts(t, "op "@)) && words(t).len() >= 2 {
        Some(head(words(t)[1], '('))
    } else {
        None
    }
}

pub(crate) fn class_opened_by(row: &Vec<char>) -> (r: Option<Vec<char>>)
    ensures
        opt_chars(r) == class_opened(row@),
{
    let t = trimmed(row);
    if !starts_with(&t, "class ") {
        return None;
    }
    let ws = words_of(&t);
    assert(vecs(ws@).len() == ws@.len());
    if ws.len() < 2 {
        return None;
    }
    assert(vecs(ws@)[1] == ws@[1]@);
    Some(head_of(&ws[1], '{'))
}

fn find_word(ws: &Vec<Vec<char>>, w: &str) -> (r: Option<usize>)
    ensures
        match r {
            Some(k) => word_index(vecs(ws@), w@, 0) == Some(k as int) && k < ws@.len(),
            None => word_index(vecs(ws@), w@, 0) is None,
        },
{
    let mut i: usize = 0;
    while i < ws.len()
        invariant
            i <= ws@.len(),
            word_index(vecs(ws@), w@, 0) == word_index(vecs(ws@), w@, i as int),
        decreases ws@.len() - i,
    {
        assert(vecs(ws@)[i as int] == ws@[i as int]@);
        if is_text(&ws[i], w) {
            return Some(i);
        }
        i += 1;
    }
    None
}

pub(crate) fn parent_opened_by(row: &Vec<char>) -> (r: Option<Vec<char>>)
    ensures
        opt_chars(r) == parent_opened(row@),
{
    let t = trimmed(row);
    if !starts_with(&t, "class ") {
        return None;
    }
    let ws = words_of(&t);
    assert(vecs(ws@).len() == ws@.len());
    if ws.len() < 2 {
        return None;
    }
    match find_word(&ws, "extends") {
        Some(k) => if k + 1 < ws.len() {
            assert(vecs(ws@)[k + 1] == ws@[k + 1]@);
            Some(head_of(&ws[k + 1], '{'))
        } else {
            None
        },
        None => None,
    }
}

pub(crate) fn method_opened_by(row: &Vec<char>) -> (r: Option<Vec<char>>)
    ensures
        opt_chars(r) == method_opened(row@),
{
    let t = trimmed(row);
    if !starts_with(&t, "fn ") && !starts_with(&t, "op ") {
        return None;
    }
    let ws = words_of(&t);
    assert(vecs(ws@).len() == ws@.len());
    if ws.len() < 2 {
        return None;
    }
    assert(vecs(ws@)[1] == ws@[1]@);
    Some(head_of(&ws[1], '('))
}

// -- the class a row stands in ----------------------------------------------------------------------

/// One more open brace.
pub open spec fn deeper(depth: usize) -> usize {
    if depth < usize::MAX {
        (depth + 1) as usize
    } else {
        depth
    }
}

/// One open brace fewer.
pub open spec fn shallower(depth: usize) -> usize {
    if depth > 0 {
        (depth - 1) as usize
    } else {
        depth
    }
}

/// What is known of the class around a place: its name, the depth of braces there, and the
/// depth at which the class began.
pub struct Around {
    pub name: Option<Seq<char>>,
    pub depth: usize,
    pub from: usize,
}

/// The class around the first `n` characters of a row.
pub open spec fn around_chars(at: Around, row: Seq<char>, n: int) -> Around
    decreases n,
{
    if 0 < n <= row.len() {
        let at = around_chars(at, row, n - 1);
        if row[n - 1] == '{' {
            Around { depth: deeper(at.depth), ..at }
        } else if row[n - 1] == '}' {
            let depth = shallower(at.depth);
            Around {
                name: if depth <= at.from {
                    None
                } else {
                    at.name
                },
                depth,
                from: at.from,
            }
        } else {
            at
        }
    } else {
        at
    }
}

/// What a row opens: the class it declares, or the class that one extends.
pub open spec fn opened(row: Seq<char>, parent: bool) -> Option<Seq<char>> {
    if parent {
        parent_opened(row)
    } else {
        class_opened(row)
    }
}

/// The class around a row, once the row has opened what it opens.
pub open spec fn entering(at: Around, row: Seq<char>, parent: bool) -> Around {
    match opened(row, parent) {
        Some(name) => if name.len() > 0 {
            Around { name: Some(name), depth: at.depth, from: at.depth }
        } else {
            at
        },
        None => at,
    }
}

/// The class around what follows the first `n` rows.
pub open spec fn after_rows(rs: Seq<Seq<char>>, parent: bool, n: int) -> Around
    decreases n,
{
    if 0 < n <= rs.len() {
        let row = rs[n - 1];
        around_chars(entering(after_rows(rs, parent, n - 1), row, parent), row, row.len() as int)
    } else {
        Around { name: None, depth: 0, from: 0 }
    }
}

/// The class around a row of a text, or the class it extends.
pub open spec fn enclosing(rs: Seq<Seq<char>>, parent: bool, line: int) -> Option<Seq<char>> {
    if 0 <= line < rs.len() {
        entering(after_rows(rs, parent, line), rs[line], parent).name
    } else {
        after_rows(rs, parent, rs.len() as int).name
    }
}

fn enclosing_class(rs: &Vec<Vec<char>>, parent: bool, line: usize) -> (r: Option<Vec<char>>)
    ensures
        opt_chars(r) == enclosing(vecs(rs@), parent, line as int),
{
    let ghost all = vecs(rs@);
    let mut name: Option<Vec<char>> = None;
    let mut depth: usize = 0;
    let mut from: usize = 0;
    let mut i: usize = 0;
    while i < rs.len()
        invariant
            i <= rs@.len(),
            i <= line,
            all == vecs(rs@),
            (Around { name: opt_chars(name), depth, from }) == after_rows(all, parent, i as int),
        decreases rs@.len() - i,
    {
        let row = &rs[i];
        assert(all[i as int] == row@);
        let opens = if parent {
            parent_opened_by(row)
        } else {
            class_opened_by(row)
        };
        if let Some(opens) = opens {
            if opens.len() > 0 {
                name = Some(opens);
                from = depth;
            }
        }
        let ghost entered = entering(after_rows(all, parent, i as int), row@, parent);
        assert((Around { name: opt_chars(name), depth, from }) == entered);
        if i == line {
            return name;
        }
        let mut k: usize = 0;
        while k < row.len()
            invariant
                k <= row@.len(),
                (Around { name: opt_chars(name), depth, from }) == around_chars(entered, row@, k as int),
            decreases row@.len() - k,
        {
            if row[k] == '{' {
                if depth < usize::MAX {
                    depth += 1;
                }
            } else if row[k] == '}' {
                if depth > 0 {
                    depth -= 1;
                }
                if depth <= from {
                    name = None;
                }
            }
            k += 1;
        }
        i += 1;
    }
    name
}

// -- what an expression suggests -----------------------------------------------------------------------

/// The type a literal starts with.
pub open spec fn literal_start(s: Seq<char>) -> Option<Seq<char>> {
    if starts(s, "\""@) {
        Some("string"@)
    } else if starts(s, "["@) {
        Some("list"@)
    } else if starts(s, "{"@) {
        Some("dict"@)
    } else {
        None
    }
}

/// Whether a text is made of digits and points, and is not empty.
pub open spec fn numeric(s: Seq<char>) -> bool {
    s.len() > 0 && forall|i: int| 0 <= i < s.len() ==> ('0' <= #[trigger] s[i] && s[i] <= '9') || s[i] == '.'
}

/// The type of a receiver that is a literal.
pub open spec fn literal_class(s: Seq<char>) -> Option<Seq<char>> {
    if starts(s, "\""@) || ends(s, '"') {
        Some("string"@)
    } else if starts(s, "["@) || ends(s, ']') {
        Some("list"@)
    } else if starts(s, "{"@) || ends(s, '}') {
        Some("dict"@)
    } else if numeric(s) {
        if char_from(s, '.', 0) is Some {
            Some("float"@)
        } else {
            Some("int"@)
        }
    } else {
        None
    }
}

pub(crate) fn literal_start_of(s: &Vec<char>) -> (r: Option<Vec<char>>)
    ensures
        opt_chars(r) == literal_start(s@),
{
    if starts_with(s, "\"") {
        Some(chars_of("string"))
    } else if starts_with(s, "[") {
        Some(chars_of("list"))
    } else if starts_with(s, "{") {
        Some(chars_of("dict"))
    } else {
        None
    }
}

fn is_numeric(s: &Vec<char>) -> (r: bool)
    ensures
        r == numeric(s@),
{
    let mut i: usize = 0;
    while i < s.len()
        invariant
            i <= s@.len(),
            forall|j: int| 0 <= j < i ==> ('0' <= #[trigger] s@[j] && s@[j] <= '9') || s@[j] == '.',
        decreases s@.len() - i,
    {
        let c = s[i];
        if !(('0' <= c && c <= '9') || c == '.') {
            return false;
        }
        i += 1;
    }
    s.len() > 0
}

pub(crate) fn literal_class_of(s: &Vec<char>) -> (r: Option<Vec<char>>)
    ensures
        opt_chars(r) == literal_class(s@),
{
    if starts_with(s, "\"") || ends_with(s, '"') {
        Some(chars_of("string"))
    } else if starts_with(s, "[") || ends_with(s, ']') {
        Some(chars_of("list"))
    } else if starts_with(s, "{") || ends_with(s, '}') {
        Some(chars_of("dict"))
    } else if is_numeric(s) {
        if find_char(s, '.', 0).is_some() {
            Some(chars_of("float"))
        } else {
            Some(chars_of("int"))
        }
    } else {
        None
    }
}

// -- what a method returns ---------------------------------------------------------------------------------

/// The class of what a row returns, as far as the row shows it.
pub open spec fn returned(row: Seq<char>) -> Option<Seq<char>> {
    let t = trim(row);
    match found(t, "return "@, 0) {
        Some(k) => {
            let value = trim(t.skip(k + "return "@.len()));
            let first = head(value, '(');
            if capitalised(first) {
                Some(first)
            } else {
                literal_start(value)
            }
        },
        None => None,
    }
}

/// What a method of a class returns, read from row `i` on, inside the class and the method
/// or not.
pub open spec fn method_result(
    rs: Seq<Seq<char>>,
    class: Seq<char>,
    method: Seq<char>,
    i: int,
    in_class: bool,
    in_method: bool,
) -> Option<Seq<char>>
    decreases rs.len() - i,
{
    if i < 0 || i >= rs.len() {
        None
    } else {
        let row = rs[i];
        let in_class = match class_opened(row) {
            Some(name) => name == class,
            None => in_class,
        };
        if !in_class {
            method_result(rs, class, method, i + 1, in_class, in_method)
        } else {
            let in_method = match method_opened(row) {
                Some(name) => name == method,
                None => in_method,
            };
            if in_method && returned(row) is Some {
                returned(row)
            } else {
                method_result(rs, class, method, i + 1, in_class, in_method && !starts(trim(row), "}"@))
            }
        }
    }
}

fn returned_by(row: &Vec<char>) -> (r: Option<Vec<char>>)
    ensures
        opt_chars(r) == returned(row@),
{
    let t = trimmed(row);
    let word = chars_of("return ");
    match find(&t, &word, 0) {
        Some(k) => {
            proof {
                lemma_found(t@, word@, 0);
            }
            let len: usize = t.len();
            assert(k + word@.len() <= len);
            let rest = part(&t, k + word.len(), len);
            assert(rest@ =~= t@.skip(k + "return "@.len()));
            let value = trimmed(&rest);
            let first = head_of(&value, '(');
            if is_capitalised(&first) {
                Some(first)
            } else {
                literal_start_of(&value)
            }
        },
        None => None,
    }
}

fn method_result_in(rs: &Vec<Vec<char>>, class: &Vec<char>, method: &Vec<char>) -> (r: Option<Vec<char>>)
    ensures
        opt_chars(r) == method_result(vecs(rs@), class@, method@, 0, false, false),
{
    let ghost all = vecs(rs@);
    let ghost goal = method_result(all, class@, method@, 0, false, false);
    let mut in_class = false;
    let mut in_method = false;
    let mut i: usize = 0;
    while i < rs.len()
        invariant
            i <= rs@.len(),
            all == vecs(rs@),
            goal == method_result(all, class@, method@, 0, false, false),
            goal == method_result(all, class@, method@, i as int, in_class, in_method),
        decreases rs@.len() - i,
    {
        let row = &rs[i];
        assert(all[i as int] == row@);
        if let Some(name) = class_opened_by(row) {
            in_class = same_chars(&name, class);
        }
        if in_class {
            if let Some(name) = method_opened_by(row) {
                in_method = same_chars(&name, method);
            }
            if in_method {
                let found_here = returned_by(row);
                if found_here.is_some() {
                    return found_here;
                }
            }
            let t = trimmed(row);
            if starts_with(&t, "}") {
                in_method = false;
            }
        }
        i += 1;
    }
    None
}

/// The class of what a method of a class returns, as far as the text shows it.
pub fn infer_method_return_class(source: &str, class_name: &str, method_name: &str) -> (r: Option<String>)
    ensures
        opt_text(r) == method_result(rows(source@), class_name@, method_name@, 0, false, false),
{
    let cs = chars_of(source);
    let rs = rows_of(&cs);
    let class = chars_of(class_name);
    let method = chars_of(method_name);
    match method_result_in(&rs, &class, &method) {
        Some(name) => Some(text(&name)),
        None => None,
    }
}

// -- what a receiver is ---------------------------------------------------------------------------------------

/// What a row assigns to a name.
pub open spec fn assigned(row: Seq<char>, name: Seq<char>) -> Option<Seq<char>> {
    let t = trim(row);
    if starts(t, "#"@) {
        None
    } else {
        match char_from(t, '=', 0) {
            Some(e) => {
                let ws = words(trim(t.take(e)));
                let target = if ws.len() > 0 {
                    ws.last()
                } else {
                    Seq::empty()
                };
                if target == name {
                    Some(trim(t.skip(e + 1)))
                } else {
                    None
                }
            },
            None => None,
        }
    }
}

/// Where the first word of a value ends.
pub open spec fn first_word_end(s: Seq<char>, i: int) -> int
    decreases s.len() - i,
{
    if 0 <= i < s.len() && s[i] != '(' && s[i] != ' ' && s[i] != ';' {
        first_word_end(s, i + 1)
    } else {
        i
    }
}

/// The class a value shows by how it starts.
pub open spec fn shown_class(value: Seq<char>) -> Option<Seq<char>> {
    let first = trim(value.take(first_word_end(value, 0)));
    if capitalised(first) {
        Some(first)
    } else {
        literal_start(value)
    }
}

/// What stands before the first point of a value, and the name behind it.
pub open spec fn dotted(value: Seq<char>) -> Option<(Seq<char>, Seq<char>)> {
    match char_from(value, '.', 0) {
        Some(d) => Some((trim(value.take(d)), head(trim(value.skip(d + 1)), '('))),
        None => None,
    }
}

/// The class of a receiver at a line, the last assignment to it among the first `n` rows
/// counting.
pub open spec fn receiver_class(rs: Seq<Seq<char>>, receiver: Seq<char>, line: int, n: int) -> Option<Seq<char>>
    decreases n, 1int,
{
    let clean = head(receiver, '(');
    if literal_class(clean) is Some {
        literal_class(clean)
    } else if capitalised(clean) {
        Some(clean)
    } else if clean == "self"@ {
        enclosing(rs, false, line)
    } else if clean == "super"@ {
        enclosing(rs, true, line)
    } else {
        last_assigned(rs, receiver, n)
    }
}

/// The class of what was last assigned to a name among the first `n` rows.
pub open spec fn last_assigned(rs: Seq<Seq<char>>, receiver: Seq<char>, n: int) -> Option<Seq<char>>
    decreases n, 0int,
{
    if n <= 0 || n > rs.len() {
        None
    } else {
        match assigned(rs[n - 1], receiver) {
            None => last_assigned(rs, receiver, n - 1),
            Some(value) => match assigned_class(rs, value, n - 1) {
                Some(class) => Some(class),
                None => last_assigned(rs, receiver, n - 1),
            },
        }
    }
}

/// The class of a value assigned at row `n`.
pub open spec fn assigned_class(rs: Seq<Seq<char>>, value: Seq<char>, n: int) -> Option<Seq<char>>
    decreases n, 2int,
{
    if shown_class(value) is Some {
        shown_class(value)
    } else {
        match dotted(value) {
            None => None,
            Some((object, method)) => match receiver_class(rs, object, n, n) {
                None => None,
                Some(class) => match method_result(rs, class, method, 0, false, false) {
                    Some(result) => Some(result),
                    None => Some(class),
                },
            },
        }
    }
}

/// How many rows count at a line: those up to it.
pub open spec fn rows_counted(rs: Seq<Seq<char>>, line: int) -> int {
    if line < rs.len() {
        line + 1
    } else {
        rs.len() as int
    }
}

fn assigned_by(row: &Vec<char>, name: &Vec<char>) -> (r: Option<Vec<char>>)
    ensures
        opt_chars(r) == assigned(row@, name@),
{
    let t = trimmed(row);
    if starts_with(&t, "#") {
        return None;
    }
    match find_char(&t, '=', 0) {
        Some(e) => {
            let left = part(&t, 0, e);
            assert(left@ =~= t@.take(e as int));
            let ws = words_of(&trimmed(&left));
            assert(vecs(ws@).len() == ws@.len());
            let is_name = if ws.len() > 0 {
                assert(vecs(ws@).last() == ws@[ws@.len() - 1]@);
                same_chars(&ws[ws.len() - 1], name)
            } else {
                assert(name@.len() == 0 ==> name@ =~= Seq::empty());
                name.len() == 0
            };
            if is_name {
                let len: usize = t.len();
                let right = part(&t, e + 1, len);
                assert(right@ =~= t@.skip(e + 1));
                Some(trimmed(&right))
            } else {
                None
            }
        },
        None => None,
    }
}

fn shown_class_of(value: &Vec<char>) -> (r: Option<Vec<char>>)
    ensures
        opt_chars(r) == shown_class(value@),
{
    let mut i: usize = 0;
    while i < value.len() && value[i] != '(' && value[i] != ' ' && value[i] != ';'
        invariant
            i <= value@.len(),
            first_word_end(value@, 0) == first_word_end(value@, i as int),
        decreases value@.len() - i,
    {
        i += 1;
    }
    let word = part(value, 0, i);
    assert(word@ =~= value@.take(i as int));
    let first = trimmed(&word);
    if is_capitalised(&first) {
        Some(first)
    } else {
        literal_start_of(value)
    }
}

fn receiver_class_in(rs: &Vec<Vec<char>>, receiver: &Vec<char>, line: usize, n: usize) -> (r: Option<Vec<char>>)
    requires
        n <= rs@.len(),
    ensures
        opt_chars(r) == receiver_class(vecs(rs@), receiver@, line as int, n as int),
    decreases n, 1int,
{
    let clean = head_of(receiver, '(');
    let literal = literal_class_of(&clean);
    if literal.is_some() {
        return literal;
    }
    if is_capitalised(&clean) {
        return Some(clean);
    }
    if is_text(&clean, "self") {
        return enclosing_class(rs, false, line);
    }
    if is_text(&clean, "super") {
        return enclosing_class(rs, true, line);
    }
    last_assigned_in(rs, receiver, n)
}

fn last_assigned_in(rs: &Vec<Vec<char>>, receiver: &Vec<char>, n: usize) -> (r: Option<Vec<char>>)
    requires
        n <= rs@.len(),
    ensures
        opt_chars(r) == last_assigned(vecs(rs@), receiver@, n as int),
    decreases n, 0int,
{
    let ghost all = vecs(rs@);
    let mut k: usize = n;
    while k > 0
        invariant
            k <= n <= rs@.len(),
            all == vecs(rs@),
            last_assigned(all, receiver@, n as int) == last_assigned(all, receiver@, k as int),
        decreases k,
    {
        assert(all[k - 1] == rs@[k - 1]@);
        if let Some(value) = assigned_by(&rs[k - 1], receiver) {
            let class = assigned_class_in(rs, &value, k - 1);
            if class.is_some() {
                return class;
            }
        }
        k -= 1;
    }
    None
}

fn assigned_class_in(rs: &Vec<Vec<char>>, value: &Vec<char>, n: usize) -> (r: Option<Vec<char>>)
    requires
        n <= rs@.len(),
    ensures
        opt_chars(r) == assigned_class(vecs(rs@), value@, n as int),
    decreases n, 2int,
{
    let shown = shown_class_of(value);
    if shown.is_some() {
        return shown;
    }
    match find_char(value, '.', 0) {
        None => None,
        Some(d) => {
            let left = part(value, 0, d);
            assert(left@ =~= value@.take(d as int));
            let len: usize = value.len();
            let right = part(value, d + 1, len);
            assert(right@ =~= value@.skip(d + 1));
            let object = trimmed(&left);
            let method = head_of(&trimmed(&right), '(');
            match receiver_class_in(rs, &object, n, n) {
                None => None,
                Some(class) => match method_result_in(rs, &class, &method) {
                    Some(result) => Some(result),
                    None => Some(class),
                },
            }
        },
    }
}

/// The class of a receiver at a place, as far as the text up to there shows it.
///
/// A name that is assigned from a member of itself is looked for further up.
pub fn infer_receiver_class(source: &str, receiver: &str, pos: Position) -> (r: Option<String>)
    ensures
        opt_text(r) == receiver_class(rows(source@), receiver@, pos.line as int, rows_counted(rows(source@), pos.line as int)),
{
    let cs = chars_of(source);
    let rs = rows_of(&cs);
    assert(vecs(rs@).len() == rs@.len());
    let name = chars_of(receiver);
    let n: usize = if pos.line < rs.len() {
        pos.line + 1
    } else {
        rs.len()
    };
    match receiver_class_in(&rs, &name, pos.line, n) {
        Some(class) => Some(text(&class)),
        None => None,
    }
}

// -- the text before a point ---------------------------------------------------------------------------------

/// A row up to a column.
pub open spec fn row_before(cs: Seq<char>, pos: Position) -> Option<Seq<char>> {
    if pos.line < rows(cs).len() {
        let row = rows(cs)[pos.line as int];
        Some(row.take(row_char(row, pos.character as int)))
    } else {
        None
    }
}

/// Whether the text before a place ends in a point.
pub open spec fn after_dot(cs: Seq<char>, pos: Position) -> bool {
    match row_before(cs, pos) {
        Some(row) => ends(trim_end(row), '.'),
        None => false,
    }
}

pub(crate) fn row_before_of(cs: &Vec<char>, pos: Position) -> (r: Option<Vec<char>>)
    ensures
        opt_chars(r) == row_before(cs@, pos),
{
    let rs = rows_of(cs);
    assert(vecs(rs@).len() == rs@.len());
    if pos.line < rs.len() {
        let row = &rs[pos.line];
        assert(vecs(rs@)[pos.line as int] == row@);
        let k = index_at_column(row, 0, row.len(), pos.character);
        let r = part(row, 0, k);
        assert(r@ =~= row@.take(k as int));
        Some(r)
    } else {
        None
    }
}

/// Whether the text before a place ends in a point.
pub fn is_preceded_by_dot(source: &str, pos: Position) -> (r: bool)
    ensures
        r == after_dot(source@, pos),
{
    let cs = chars_of(source);
    match row_before_of(&cs, pos) {
        Some(row) => ends_with(&trimmed_end(&row), '.'),
        None => false,
    }
}

/// Whether a character may stand in a path of names.
pub open spec fn in_path(c: char) -> bool {
    c == '.' || in_name(c)
}

/// Where the path that ends at `n` starts.
pub open spec fn path_start(s: Seq<char>, n: int) -> int
    decreases n,
{
    if 0 < n <= s.len() && in_path(s[n - 1]) {
        path_start(s, n - 1)
    } else {
        n
    }
}

/// A receiver without the call it ends in.
pub open spec fn without_call(s: Seq<char>) -> Seq<char> {
    if ends(s, ')') {
        match char_before(s, '(', s.len() as int) {
            Some(k) => trim_end(s.take(k)),
            None => s,
        }
    } else {
        s
    }
}

/// Whether a text ends as a literal does.
pub open spec fn ends_literal(s: Seq<char>) -> bool {
    ends(s, '"') || ends(s, ']') || ends(s, '}')
}

/// The receiver a text ends in: the path of names it ends in, or all of it where it ends in
/// a literal.
pub open spec fn receiver_of(before: Seq<char>) -> Seq<char> {
    let s = without_call(before);
    if ends_literal(s) {
        s
    } else {
        s.skip(path_start(s, s.len() as int))
    }
}

/// What stands before the point that the text before a place ends in.
pub open spec fn receiver_before(cs: Seq<char>, pos: Position) -> Option<Seq<char>> {
    match row_before(cs, pos) {
        None => None,
        Some(row) => {
            let t = trim_end(row);
            if !ends(t, '.') {
                None
            } else {
                let before = trim_end(t.drop_last());
                if before.len() == 0 {
                    None
                } else {
                    let r = receiver_of(before);
                    Some(if r.len() > 0 {
                        r
                    } else {
                        without_call(before)
                    })
                }
            }
        },
    }
}

fn start_of_path(s: &Vec<char>) -> (r: usize)
    ensures
        r == path_start(s@, s@.len() as int),
        r <= s@.len(),
{
    let mut i: usize = s.len();
    while i > 0 && (s[i - 1] == '.' || is_in_name(s[i - 1]))
        invariant
            i <= s@.len(),
            path_start(s@, s@.len() as int) == path_start(s@, i as int),
        decreases i,
    {
        i -= 1;
    }
    i
}

fn without_call_of(s: Vec<char>) -> (r: Vec<char>)
    ensures
        r@ == without_call(s@),
{
    if ends_with(&s, ')') {
        match rfind_char(&s, '(') {
            Some(k) => {
                let front = part(&s, 0, k);
                assert(front@ =~= s@.take(k as int));
                trimmed_end(&front)
            },
            None => s,
        }
    } else {
        s
    }
}

pub(crate) fn receiver_in(before: Vec<char>) -> (r: Vec<char>)
    ensures
        r@ == receiver_of(before@),
{
    let s = without_call_of(before);
    if ends_with(&s, '"') || ends_with(&s, ']') || ends_with(&s, '}') {
        s
    } else {
        let start = start_of_path(&s);
        let r = part(&s, start, s.len());
        assert(r@ =~= s@.skip(start as int));
        r
    }
}

/// The receiver before the point that the text before a place ends in.
pub fn get_receiver_before_dot(source: &str, pos: Position) -> (r: Option<String>)
    ensures
        opt_text(r) == receiver_before(source@, pos),
{
    let cs = chars_of(source);
    let row = match row_before_of(&cs, pos) {
        Some(row) => row,
        None => return None,
    };
    let t = trimmed_end(&row);
    if !ends_with(&t, '.') {
        return None;
    }
    let front = part(&t, 0, t.len() - 1);
    assert(front@ =~= t@.drop_last());
    let before = trimmed_end(&front);
    if before.len() == 0 {
        return None;
    }
    let copy = part(&before, 0, before.len());
    assert(copy@ =~= before@);
    let receiver = receiver_in(copy);
    if receiver.len() > 0 {
        Some(text(&receiver))
    } else {
        Some(text(&without_call_of(before)))
    }
}

} // verus!
