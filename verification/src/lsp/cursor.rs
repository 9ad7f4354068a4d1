//! What the text before a place says of what is being written there.

use crate::lsp::position::{char_at, char_index, opt_text, Position};
use crate::lsp::receiver::{opt_chars, row_before, row_before_of};
use crate::lsp::rows::{
    char_before, char_from, ends, ends_with, find_char, in_name, is_in_name, is_text, name_start,
    part, rfind_char, skip_space, start_of_name, starts, starts_with, text, trim_end, trimmed_end,
    vecs, words, words_of,
};
use crate::lsp::symbols::{class_type, Type, TypeV};
use crate::syntax::lexer::{tokens_of, Lexer};
use crate::syntax::token::{tokens_view, Token, TokenKind, TokenKindV, TokenV};
use crate::text::{cat3, chars_of, is_whitespace, string_of};
use vstd::prelude::*;

verus! {

// -- the text before a point --------------------------------------------------------------------------------

/// The text of a row before the point that it ends in at a place.
pub open spec fn before_dot(cs: Seq<char>, pos: Position) -> Option<Seq<char>> {
    match row_before(cs, pos) {
        Some(row) => before_last_dot(row),
        None => None,
    }
}

/// A text without the point it ends in.
pub open spec fn before_last_dot(row: Seq<char>) -> Option<Seq<char>> {
    let t = trim_end(row);
    if ends(t, '.') {
        Some(t.drop_last())
    } else {
        None
    }
}

/// The text of a row before the point that stands before the name at a place.
pub open spec fn before_word(cs: Seq<char>, pos: Position) -> Option<Seq<char>> {
    match row_before(cs, pos) {
        Some(row) => before_last_dot(row.take(name_start(row, row.len() as int))),
        None => None,
    }
}

pub(crate) fn before_last_dot_of(row: &Vec<char>) -> (r: Option<Vec<char>>)
    ensures
        opt_chars(r) == before_last_dot(row@),
{
    let t = trimmed_end(row);
    if ends_with(&t, '.') {
        let front = part(&t, 0, t.len() - 1);
        assert(front@ =~= t@.drop_last());
        Some(front)
    } else {
        None
    }
}

/// The text of a row before the point that it ends in at a place.
pub fn text_before_dot(source: &str, pos: Position) -> (r: Option<String>)
    ensures
        opt_text(r) == before_dot(source@, pos),
{
    let cs = chars_of(source);
    match row_before_of(&cs, pos) {
        Some(row) => match before_last_dot_of(&row) {
            Some(front) => Some(text(&front)),
            None => None,
        },
        None => None,
    }
}

/// The text of a row before the point that stands before the name at a place.
pub fn text_before_word(source: &str, pos: Position) -> (r: Option<String>)
    ensures
        opt_text(r) == before_word(source@, pos),
{
    let cs = chars_of(source);
    match row_before_of(&cs, pos) {
        Some(row) => {
            let start = start_of_name(&row, row.len());
            let front = part(&row, 0, start);
            assert(front@ =~= row@.take(start as int));
            match before_last_dot_of(&front) {
                Some(front) => Some(text(&front)),
                None => None,
            }
        },
        None => None,
    }
}

// -- paths -------------------------------------------------------------------------------------------------------

/// The round bracket that opens what `depth` brackets after the first `n` characters close.
pub open spec fn matching(s: Seq<char>, n: int, depth: nat) -> Option<int>
    decreases n,
{
    if n <= 0 || n > s.len() {
        None
    } else if s[n - 1] == ')' {
        matching(s, n - 1, depth + 1)
    } else if s[n - 1] == '(' {
        if depth <= 1 {
            Some(n - 1)
        } else {
            matching(s, n - 1, (depth - 1) as nat)
        }
    } else {
        matching(s, n - 1, depth)
    }
}

/// Where the name ends that the first `n` characters end in, a call behind it left out.
pub open spec fn called_name_end(s: Seq<char>, n: int) -> Option<int> {
    if 0 < n <= s.len() && s[n - 1] == ')' {
        matching(s, n - 1, 1)
    } else {
        Some(n)
    }
}

/// The path of names that the first `n` characters end in. A call in it keeps its brackets
/// and loses what stands between them.
pub open spec fn path(s: Seq<char>, n: int) -> Option<Seq<char>>
    decreases n,
{
    match called_name_end(s, n) {
        None => None,
        Some(m) => {
            let start = name_start(s, m);
            if n <= 0 || n > s.len() || m > n || start >= m || start < 0 {
                None
            } else {
                let own = s.subrange(start, m) + if m < n {
                    "()"@
                } else {
                    ""@
                };
                if start > 0 && s[start - 1] == '.' {
                    match path(s, start - 1) {
                        Some(front) => Some(front + "."@ + own),
                        None => None,
                    }
                } else {
                    Some(own)
                }
            }
        },
    }
}

fn matching_in(s: &Vec<char>, n: usize) -> (r: Option<usize>)
    requires
        n < s@.len(),
    ensures
        match r {
            Some(k) => matching(s@, n as int, 1) == Some(k as int) && k < n,
            None => matching(s@, n as int, 1) is None,
        },
{
    let mut i: usize = n;
    let mut depth: usize = 1;
    let len: usize = s.len();
    while i > 0
        invariant
            i <= n < len,
            len == s@.len(),
            depth + i <= n + 1,
            matching(s@, n as int, 1) == matching(s@, i as int, depth as nat),
        decreases i,
    {
        if s[i - 1] == ')' {
            depth += 1;
        } else if s[i - 1] == '(' {
            if depth <= 1 {
                return Some(i - 1);
            }
            depth -= 1;
        }
        i -= 1;
    }
    None
}

fn path_in(s: &Vec<char>, n: usize) -> (r: Option<String>)
    requires
        n <= s@.len(),
    ensures
        opt_text(r) == path(s@, n as int),
    decreases n,
{
    if n == 0 {
        assert(path(s@, 0) is None);
        return None;
    }
    let m: usize = if s[n - 1] == ')' {
        match matching_in(s, n - 1) {
            Some(k) => k,
            None => return None,
        }
    } else {
        n
    };
    let start = start_of_name(s, m);
    if start >= m {
        return None;
    }
    let name = string_of(s, start, m);
    let calls = if m < n {
        "()"
    } else {
        ""
    };
    if start > 0 && s[start - 1] == '.' {
        match path_in(s, start - 1) {
            Some(front) => {
                let own = crate::text::cat2(name.as_str(), calls);
                Some(cat3(front.as_str(), ".", own.as_str()))
            },
            None => None,
        }
    } else {
        Some(crate::text::cat2(name.as_str(), calls))
    }
}

/// The path of names that a text ends in.
pub open spec fn path_ending(s: Seq<char>) -> Option<Seq<char>> {
    path(trim_end(s), trim_end(s).len() as int)
}

/// The path of names that a text ends in: `None` where it ends in anything else.
pub fn path_ending_at(before: &str) -> (r: Option<String>)
    ensures
        opt_text(r) == path_ending(before@),
{
    let cs = chars_of(before);
    let t = trimmed_end(&cs);
    path_in(&t, t.len())
}

// -- literals ---------------------------------------------------------------------------------------------------

/// Whether a token opens a bracket.
pub open spec fn opens(t: TokenV) -> bool {
    t.kind is LParen || t.kind is LBracket || t.kind is LBrace
}

/// Whether a token closes a bracket.
pub open spec fn closes(t: TokenV) -> bool {
    t.kind is RParen || t.kind is RBracket || t.kind is RBrace
}

/// The token that opens what `depth` brackets after the first `n` tokens close.
pub open spec fn opening(ts: Seq<TokenV>, n: int, depth: nat) -> Option<int>
    decreases n,
{
    if n <= 0 || n > ts.len() {
        None
    } else if closes(ts[n - 1]) {
        opening(ts, n - 1, depth + 1)
    } else if opens(ts[n - 1]) {
        if depth <= 1 {
            Some(n - 1)
        } else {
            opening(ts, n - 1, (depth - 1) as nat)
        }
    } else {
        opening(ts, n - 1, depth)
    }
}

/// Whether a token ends a value, so that a bracket behind it belongs to the value.
pub open spec fn ends_value(t: TokenV) -> bool {
    t.kind is Ident || t.kind is Str || t.kind is RParen || t.kind is RBracket || t.kind is RBrace || t.kind is Super
}

/// The type of the literal that the first `n` tokens end in.
pub open spec fn literal_at(ts: Seq<TokenV>, n: int) -> TypeV {
    if n <= 0 || n > ts.len() {
        TypeV::Unknown
    } else {
        match ts[n - 1].kind {
            TokenKindV::Str(_) => TypeV::Class("string"@),
            TokenKindV::Int(_) => TypeV::Class("int"@),
            TokenKindV::Float(_) => TypeV::Class("float"@),
            TokenKindV::True => TypeV::Class("bool"@),
            TokenKindV::False => TypeV::Class("bool"@),
            TokenKindV::RBracket => if literal_starts(ts, n) {
                TypeV::Class("list"@)
            } else {
                TypeV::Unknown
            },
            TokenKindV::RBrace => if literal_starts(ts, n) {
                TypeV::Class("dict"@)
            } else {
                TypeV::Unknown
            },
            _ => TypeV::Unknown,
        }
    }
}

/// Whether the bracket that the first `n` tokens end in was opened where a value may start.
pub open spec fn literal_starts(ts: Seq<TokenV>, n: int) -> bool {
    match opening(ts, n - 1, 1) {
        Some(k) => k == 0 || !ends_value(ts[k - 1]),
        None => false,
    }
}

/// The type of the literal that a text ends in.
pub open spec fn trailing_literal(s: Seq<char>) -> TypeV {
    match tokens_of(s) {
        Ok(ts) => literal_at(ts, ts.len() - 1),
        Err(_) => TypeV::Unknown,
    }
}

fn is_opening(t: &Token) -> (r: bool)
    ensures
        r == opens(t@),
{
    match t.kind {
        TokenKind::LParen | TokenKind::LBracket | TokenKind::LBrace => true,
        _ => false,
    }
}

fn is_closing(t: &Token) -> (r: bool)
    ensures
        r == closes(t@),
{
    match t.kind {
        TokenKind::RParen | TokenKind::RBracket | TokenKind::RBrace => true,
        _ => false,
    }
}

fn is_value_end(t: &Token) -> (r: bool)
    ensures
        r == ends_value(t@),
{
    match t.kind {
        TokenKind::Ident(_) | TokenKind::Str(_) | TokenKind::RParen | TokenKind::RBracket | TokenKind::RBrace
        | TokenKind::Super => true,
        _ => false,
    }
}

fn is_literal_start(ts: &Vec<Token>, n: usize) -> (r: bool)
    requires
        0 < n <= ts@.len(),
    ensures
        r == literal_starts(tokens_view(ts@), n as int),
{
    let ghost all = tokens_view(ts@);
    let mut i: usize = n - 1;
    let mut depth: usize = 1;
    while i > 0
        invariant
            i < n <= ts@.len(),
            all == tokens_view(ts@),
            1 <= depth,
            depth + i <= n,
            opening(all, n - 1, 1) == opening(all, i as int, depth as nat),
        decreases i,
    {
        assert(all[i - 1] == ts@[i - 1]@);
        if is_closing(&ts[i - 1]) {
            depth += 1;
        } else if is_opening(&ts[i - 1]) {
            if depth <= 1 {
                if i - 1 == 0 {
                    return true;
                }
                assert(all[i - 2] == ts@[i - 2]@);
                return !is_value_end(&ts[i - 2]);
            }
            depth -= 1;
        }
        i -= 1;
    }
    false
}

/// The type of the literal that a text ends in.
pub fn trailing_literal_type(before: &str) -> (r: Type)
    ensures
        r@ == trailing_literal(before@),
{
    let ts = match Lexer::new(before).tokenize() {
        Ok(ts) => ts,
        Err(_) => return Type::Unknown,
    };
    assert(tokens_view(ts@).len() == ts@.len());
    if ts.len() < 2 {
        return Type::Unknown;
    }
    let n: usize = ts.len() - 1;
    assert(tokens_view(ts@)[n - 1] == ts@[n - 1]@);
    match ts[n - 1].kind {
        TokenKind::Str(_) => class_type("string"),
        TokenKind::Int(_) => class_type("int"),
        TokenKind::Float(_) => class_type("float"),
        TokenKind::True => class_type("bool"),
        TokenKind::False => class_type("bool"),
        TokenKind::RBracket => if is_literal_start(&ts, n) {
            class_type("list")
        } else {
            Type::Unknown
        },
        TokenKind::RBrace => if is_literal_start(&ts, n) {
            class_type("dict")
        } else {
            Type::Unknown
        },
        _ => Type::Unknown,
    }
}

// -- annotations -----------------------------------------------------------------------------------------------

/// The innermost bracket that the first `n` characters leave open, `depth` closed ones to be
/// matched first.
pub open spec fn innermost(s: Seq<char>, n: int, depth: nat) -> Option<char>
    decreases n,
{
    if n <= 0 || n > s.len() {
        None
    } else if s[n - 1] == ')' || s[n - 1] == ']' || s[n - 1] == '}' {
        innermost(s, n - 1, depth + 1)
    } else if s[n - 1] == '(' || s[n - 1] == '[' || s[n - 1] == '{' {
        if depth == 0 {
            Some(s[n - 1])
        } else {
            innermost(s, n - 1, (depth - 1) as nat)
        }
    } else {
        innermost(s, n - 1, depth)
    }
}

/// The first of some words, from `i` on, that says nothing of who may reach a name.
pub open spec fn declaring(ws: Seq<Seq<char>>, i: int) -> Seq<char>
    decreases ws.len() - i,
{
    if i < 0 || i >= ws.len() {
        Seq::empty()
    } else if ws[i] == "public"@ || ws[i] == "private"@ || ws[i] == "protected"@ {
        declaring(ws, i + 1)
    } else {
        ws[i]
    }
}

/// Whether a colon behind a text annotates what the text declares: a binding that has no
/// value yet, or a parameter or the result of a function.
pub open spec fn annotates(s: Seq<char>) -> bool {
    let word = declaring(words(s), 0);
    let open = innermost(s, s.len() as int, 0);
    let names = s.len() > 0 && (in_name(s.last()) || s.last() == ')');
    if word == "let"@ || word == "final"@ || word == "const"@ {
        names && open is None && char_from(s, '=', 0) is None
    } else if word == "fn"@ || word == "op"@ {
        names && (open is None || open == Some('('))
    } else {
        false
    }
}

/// Whether a character may stand in a type.
pub open spec fn in_type(c: char) -> bool {
    in_name(c) || c == ' ' || c == '[' || c == ']' || c == ',' || c == '?'
}

/// Whether a type is being written at the end of a text.
pub open spec fn type_position(s: Seq<char>) -> bool {
    match char_before(s, ':', s.len() as int) {
        Some(k) => (forall|i: int| k < i < s.len() ==> in_type(#[trigger] s[i])) && annotates(trim_end(s.take(k))),
        None => false,
    }
}

fn innermost_in(s: &Vec<char>) -> (r: Option<char>)
    ensures
        r == innermost(s@, s@.len() as int, 0),
{
    let mut n: usize = s.len();
    let mut depth: usize = 0;
    let len: usize = s.len();
    while n > 0
        invariant
            n <= len,
            len == s@.len(),
            depth + n <= len,
            innermost(s@, len as int, 0) == innermost(s@, n as int, depth as nat),
        decreases n,
    {
        let c = s[n - 1];
        if c == ')' || c == ']' || c == '}' {
            depth += 1;
        } else if c == '(' || c == '[' || c == '{' {
            if depth == 0 {
                return Some(c);
            }
            depth -= 1;
        }
        n -= 1;
    }
    None
}

fn declaring_in(ws: &Vec<Vec<char>>) -> (r: Vec<char>)
    ensures
        r@ == declaring(vecs(ws@), 0),
{
    let mut i: usize = 0;
    while i < ws.len()
        invariant
            i <= ws@.len(),
            declaring(vecs(ws@), 0) == declaring(vecs(ws@), i as int),
        decreases ws@.len() - i,
    {
        assert(vecs(ws@)[i as int] == ws@[i as int]@);
        let w = &ws[i];
        if !(is_text(w, "public") || is_text(w, "private") || is_text(w, "protected")) {
            let r = part(w, 0, w.len());
            assert(r@ =~= w@);
            return r;
        }
        i += 1;
    }
    let none: Vec<char> = Vec::new();
    assert(none@ =~= Seq::empty());
    none
}

fn is_annotating(s: &Vec<char>) -> (r: bool)
    ensures
        r == annotates(s@),
{
    let ws = words_of(s);
    let word = declaring_in(&ws);
    let open = innermost_in(s);
    let names = s.len() > 0 && (is_in_name(s[s.len() - 1]) || s[s.len() - 1] == ')');
    if is_text(&word, "let") || is_text(&word, "final") || is_text(&word, "const") {
        names && open.is_none() && find_char(s, '=', 0).is_none()
    } else if is_text(&word, "fn") || is_text(&word, "op") {
        match open {
            None => names,
            Some(c) => names && c == '(',
        }
    } else {
        false
    }
}

/// Whether a type is being written at the end of a text.
pub(crate) fn is_type_position(s: &Vec<char>) -> (r: bool)
    ensures
        r == type_position(s@),
{
    match rfind_char(s, ':') {
        None => false,
        Some(k) => {
            let len: usize = s.len();
            let mut i: usize = k + 1;
            while i < len
                invariant
                    k < i <= len,
                    len == s@.len(),
                    char_before(s@, ':', len as int) == Some(k as int),
                    forall|j: int| k < j < i ==> in_type(#[trigger] s@[j]),
                decreases len - i,
            {
                let c = s[i];
                if !(is_in_name(c) || c == ' ' || c == '[' || c == ']' || c == ',' || c == '?') {
                    return false;
                }
                i += 1;
            }
            let front = part(s, 0, k);
            assert(front@ =~= s@.take(k as int));
            is_annotating(&trimmed_end(&front))
        },
    }
}

/// Whether a type is being written at a column of a row, the column in bytes.
pub fn in_type_position(line: &str, col: usize) -> (r: bool)
    ensures
        r == type_position(line@.take(char_at(line@, col as int))),
{
    let row = chars_of(line);
    let n = char_index(&row, col);
    let s = part(&row, 0, n);
    assert(s@ =~= line@.take(n as int));
    is_type_position(&s)
}

// -- imports ----------------------------------------------------------------------------------------------------

/// What an import is about to name.
#[derive(Debug)]
pub enum ImportSite {
    Module,
    Member(String),
}

/// The model of an [`ImportSite`].
pub enum ImportSiteV {
    Module,
    Member(Seq<char>),
}

impl View for ImportSite {
    type V = ImportSiteV;

    open spec fn view(&self) -> ImportSiteV {
        match self {
            ImportSite::Module => ImportSiteV::Module,
            ImportSite::Member(name) => ImportSiteV::Member(name@),
        }
    }
}

/// What the import that a text ends in is about to name.
pub open spec fn import_at(s: Seq<char>) -> Option<ImportSiteV> {
    let t = s.skip(skip_space(s, 0));
    let ws = words(t);
    if starts(t, "import "@) {
        Some(ImportSiteV::Module)
    } else if starts(t, "from "@) {
        if ws.len() >= 3 && ws[2] == "import"@ {
            Some(ImportSiteV::Member(ws[1]))
        } else if ws.len() <= 2 {
            Some(ImportSiteV::Module)
        } else {
            None
        }
    } else {
        None
    }
}

/// What the import that a text ends in is about to name.
pub fn import_site(before: &str) -> (r: Option<ImportSite>)
    ensures
        match r {
            Some(site) => import_at(before@) == Some(site@),
            None => import_at(before@) is None,
        },
{
    let cs = chars_of(before);
    let mut i: usize = 0;
    while i < cs.len() && is_whitespace(cs[i])
        invariant
            i <= cs@.len(),
            skip_space(cs@, 0) == skip_space(cs@, i as int),
        decreases cs@.len() - i,
    {
        i += 1;
    }
    let t = part(&cs, i, cs.len());
    assert(t@ =~= cs@.skip(i as int));
    if starts_with(&t, "import ") {
        return Some(ImportSite::Module);
    }
    if !starts_with(&t, "from ") {
        return None;
    }
    let ws = words_of(&t);
    assert(vecs(ws@).len() == ws@.len());
    if ws.len() >= 3 {
        assert(vecs(ws@)[2] == ws@[2]@);
        assert(vecs(ws@)[1] == ws@[1]@);
        if is_text(&ws[2], "import") {
            return Some(ImportSite::Member(text(&ws[1])));
        }
        None
    } else {
        Some(ImportSite::Module)
    }
}

} // verus!
