//! Where names are declared and used: definitions, references, renames and outlines.

use crate::lsp::document::DocumentState;
use crate::lsp::position::{
    capped, char_at, char_index, column, columns, get_word_at_position, opt_text, place, place_of,
    range_of, span_to_range, word_at, Position, Range,
};
use crate::lsp::rows::{
    in_name, is_in_name, part, rows, rows_of, same_chars, starts, starts_with, trim, trimmed, vecs,
};
use crate::syntax::ast::{FnDecl, Stmt, StmtKind};
use crate::syntax::token::Span;
use crate::text::{
    cat3, chars_of, contains, contains_text, find, found, lemma_found, lowercase, same,
    to_lowercase,
};
use std::rc::Rc;
use vstd::prelude::*;

verus! {

// -- names in a text ------------------------------------------------------------------------------

/// Where a name first stands inside a span.
pub open spec fn name_range(cs: Seq<char>, span: Span, name: Seq<char>) -> Option<Range> {
    let a = char_at(cs, span.start as int);
    let b = char_at(cs, span.end as int);
    if a >= b {
        None
    } else {
        match found(cs.subrange(a, b), name, 0) {
            Some(k) => Some(Range { start: place_of(cs, a + k), end: place_of(cs, a + k + name.len()) }),
            None => None,
        }
    }
}

pub(crate) fn name_range_in(cs: &Vec<char>, span: Span, name: &str) -> (r: Option<Range>)
    ensures
        r == name_range(cs@, span, name@),
{
    let a = char_index(cs, span.start);
    let b = char_index(cs, span.end);
    if a >= b {
        return None;
    }
    let inside = part(cs, a, b);
    let name_chars = chars_of(name);
    match find(&inside, &name_chars, 0) {
        Some(k) => {
            proof {
                lemma_found(inside@, name@, 0);
            }
            Some(Range { start: place(cs, a + k), end: place(cs, a + k + name_chars.len()) })
        },
        None => None,
    }
}

/// Where a name first stands inside a span of a text.
pub fn find_name_range(source: &str, span: Span, name: &str) -> (r: Option<Range>)
    ensures
        r == name_range(source@, span, name@),
{
    let cs = chars_of(source);
    name_range_in(&cs, span, name)
}

// -- declarations --------------------------------------------------------------------------------------

/// The first of the methods from `i` on that has a name.
pub open spec fn method_span(ms: Seq<Rc<FnDecl>>, target: Seq<char>, i: int) -> Option<Span>
    decreases ms.len() - i,
{
    if i < 0 || i >= ms.len() {
        None
    } else if ms[i].name@ == target {
        Some(ms[i].body.span)
    } else {
        method_span(ms, target, i + 1)
    }
}

/// What a statement declares under a name: itself, or a method of the class it declares.
pub open spec fn declared(s: Stmt, target: Seq<char>) -> Option<Span> {
    match s.kind {
        StmtKind::Fn(decl) => if decl.name@ == target {
            Some(s.span)
        } else {
            None
        },
        StmtKind::Class(decl) => if decl.name@ == target {
            Some(s.span)
        } else {
            method_span(decl.methods@, target, 0)
        },
        StmtKind::Let { name, .. } => if name@ == target {
            Some(s.span)
        } else {
            None
        },
        _ => None,
    }
}

/// The first declaration of a name among the statements from `i` on.
pub open spec fn decl_span(ss: Seq<Stmt>, target: Seq<char>, i: int) -> Option<Span>
    decreases ss.len() - i,
{
    if i < 0 || i >= ss.len() {
        None
    } else if declared(ss[i], target) is Some {
        declared(ss[i], target)
    } else {
        decl_span(ss, target, i + 1)
    }
}

fn method_at(ms: &Vec<Rc<FnDecl>>, target: &str) -> (r: Option<Span>)
    ensures
        r == method_span(ms@, target@, 0),
{
    let mut i: usize = 0;
    while i < ms.len()
        invariant
            i <= ms@.len(),
            method_span(ms@, target@, 0) == method_span(ms@, target@, i as int),
        decreases ms@.len() - i,
    {
        if same(ms[i].name.as_str(), target) {
            return Some(ms[i].body.span);
        }
        i += 1;
    }
    None
}

fn declared_by(s: &Stmt, target: &str) -> (r: Option<Span>)
    ensures
        r == declared(*s, target@),
{
    match &s.kind {
        StmtKind::Fn(decl) => if same(decl.name.as_str(), target) {
            Some(s.span)
        } else {
            None
        },
        StmtKind::Class(decl) => if same(decl.name.as_str(), target) {
            Some(s.span)
        } else {
            method_at(&decl.methods, target)
        },
        StmtKind::Let { name, .. } => if same(name.as_str(), target) {
            Some(s.span)
        } else {
            None
        },
        _ => None,
    }
}

/// Where a program declares a name.
pub fn find_decl_span(stmts: &Vec<Stmt>, target: &str) -> (r: Option<Span>)
    ensures
        r == decl_span(stmts@, target@, 0),
{
    let mut i: usize = 0;
    while i < stmts.len()
        invariant
            i <= stmts@.len(),
            decl_span(stmts@, target@, 0) == decl_span(stmts@, target@, i as int),
        decreases stmts@.len() - i,
    {
        let found_here = declared_by(&stmts[i], target);
        if found_here.is_some() {
            return found_here;
        }
        i += 1;
    }
    None
}

// -- definitions over documents -----------------------------------------------------------------------

/// A document under the name the editor opened it by.
#[derive(Debug)]
pub struct Document {
    pub uri: String,
    pub state: DocumentState,
}

/// A place in a document.
#[derive(Debug)]
pub struct Location {
    pub uri: String,
    pub range: Range,
}

/// The model of a [`Location`].
pub struct LocationV {
    pub uri: Seq<char>,
    pub range: Range,
}

impl View for Location {
    type V = LocationV;

    open spec fn view(&self) -> LocationV {
        LocationV { uri: self.uri@, range: self.range }
    }
}

/// Where a document declares a name.
pub open spec fn defined_in(state: DocumentState, word: Seq<char>) -> Option<Range> {
    match state.ast {
        Some(ast) => match decl_span(ast@, word, 0) {
            Some(span) => Some(range_of(state.text@, span)),
            None => None,
        },
        None => None,
    }
}

/// The first of the documents from `i` on, other than one, that declares a name.
pub open spec fn defined_elsewhere(docs: Seq<Document>, uri: Seq<char>, word: Seq<char>, i: int) -> Option<LocationV>
    decreases docs.len() - i,
{
    if i < 0 || i >= docs.len() {
        None
    } else if docs[i].uri@ != uri && defined_in(docs[i].state, word) is Some {
        Some(LocationV { uri: docs[i].uri@, range: defined_in(docs[i].state, word)->0 })
    } else {
        defined_elsewhere(docs, uri, word, i + 1)
    }
}

/// What the name of the file of a module ends in.
pub open spec fn module_file(word: Seq<char>) -> Seq<char> {
    "/"@ + word + ".qn"@
}

/// Whether a text ends in another.
pub open spec fn ends_in(s: Seq<char>, end: Seq<char>) -> bool {
    end.len() <= s.len() && s.skip(s.len() - end.len()) == end
}

/// The head of the first of the documents from `i` on, other than one, that is the file of a
/// module.
pub open spec fn module_elsewhere(docs: Seq<Document>, uri: Seq<char>, word: Seq<char>, i: int) -> Option<LocationV>
    decreases docs.len() - i,
{
    if i < 0 || i >= docs.len() {
        None
    } else if docs[i].uri@ != uri && ends_in(docs[i].uri@, module_file(word)) {
        Some(LocationV { uri: docs[i].uri@, range: head() })
    } else {
        module_elsewhere(docs, uri, word, i + 1)
    }
}

/// Where a document starts.
pub open spec fn head() -> Range {
    Range { start: Position { line: 0, character: 0 }, end: Position { line: 0, character: 0 } }
}

/// Where the name at a place is declared: in this document before any other, and the file of
/// a module where nothing else has its name.
pub open spec fn definition(uri: Seq<char>, state: DocumentState, docs: Seq<Document>, pos: Position) -> Option<LocationV> {
    match word_at(state.text@, pos) {
        None => None,
        Some(word) => match defined_in(state, word) {
            Some(range) => Some(LocationV { uri, range }),
            None => if defined_elsewhere(docs, uri, word, 0) is Some {
                defined_elsewhere(docs, uri, word, 0)
            } else {
                module_elsewhere(docs, uri, word, 0)
            },
        },
    }
}

pub(crate) fn name_ends_in(s: &str, end: &str) -> (r: bool)
    ensures
        r == ends_in(s@, end@),
{
    let cs = chars_of(s);
    let es = chars_of(end);
    if es.len() > cs.len() {
        return false;
    }
    let start: usize = cs.len() - es.len();
    let back = part(&cs, start, cs.len());
    assert(back@ =~= cs@.skip(start as int));
    same_chars(&back, &es)
}

fn find_elsewhere(documents: &Vec<Document>, uri: &str, word: &str) -> (r: Option<Location>)
    ensures
        location_v(r) == defined_elsewhere(documents@, uri@, word@, 0),
{
    let mut i: usize = 0;
    while i < documents.len()
        invariant
            i <= documents@.len(),
            defined_elsewhere(documents@, uri@, word@, 0) == defined_elsewhere(documents@, uri@, word@, i as int),
        decreases documents@.len() - i,
    {
        let doc = &documents[i];
        if !same(doc.uri.as_str(), uri) {
            if let Some(range) = definition_in(&doc.state, word) {
                return Some(Location { uri: doc.uri.as_str().to_owned(), range });
            }
        }
        i += 1;
    }
    None
}

pub(crate) fn file_of_module(word: &str) -> (r: String)
    ensures
        r@ == module_file(word@),
{
    cat3("/", word, ".qn")
}

fn find_module(documents: &Vec<Document>, uri: &str, word: &str) -> (r: Option<Location>)
    ensures
        location_v(r) == module_elsewhere(documents@, uri@, word@, 0),
{
    let file = file_of_module(word);
    let mut i: usize = 0;
    while i < documents.len()
        invariant
            i <= documents@.len(),
            file@ == module_file(word@),
            module_elsewhere(documents@, uri@, word@, 0) == module_elsewhere(documents@, uri@, word@, i as int),
        decreases documents@.len() - i,
    {
        let doc = &documents[i];
        if !same(doc.uri.as_str(), uri) && name_ends_in(doc.uri.as_str(), file.as_str()) {
            let start = Position { line: 0, character: 0 };
            return Some(Location { uri: doc.uri.as_str().to_owned(), range: Range { start, end: start } });
        }
        i += 1;
    }
    None
}

pub open spec fn location_v(l: Option<Location>) -> Option<LocationV> {
    match l {
        Some(l) => Some(l@),
        None => None,
    }
}

fn definition_in(state: &DocumentState, word: &str) -> (r: Option<Range>)
    ensures
        r == defined_in(*state, word@),
{
    match &state.ast {
        Some(ast) => match find_decl_span(ast, word) {
            Some(span) => Some(span_to_range(state.text.as_str(), span)),
            None => None,
        },
        None => None,
    }
}

/// Where the name at a place of a document is declared.
pub fn get_definition(uri: &str, state: Option<&DocumentState>, documents: &Vec<Document>, pos: Position) -> (r: Option<
    Location,
>)
    ensures
        location_v(r) == match state {
            Some(state) => definition(uri@, *state, documents@, pos),
            None => None,
        },
{
    let own = match state {
        Some(own) => own,
        None => return None,
    };
    let word = match get_word_at_position(own.text.as_str(), pos) {
        Some(word) => word,
        None => return None,
    };
    if let Some(range) = definition_in(own, word.as_str()) {
        return Some(Location { uri: uri.to_owned(), range });
    }
    let declared = find_elsewhere(documents, uri, word.as_str());
    if declared.is_some() {
        return declared;
    }
    find_module(documents, uri, word.as_str())
}

// -- references ------------------------------------------------------------------------------------------

/// Whether the name of `n` characters at `k` stands by itself, rather than inside another name.
pub open spec fn alone(row: Seq<char>, k: int, n: int) -> bool {
    (k == 0 || !in_name(row[k - 1])) && (k + n >= row.len() || !in_name(row[k + n]))
}

/// What a row is in the middle of: a string, an escape in it, a comment.
#[derive(Clone, Copy, PartialEq, Eq, Structural)]
pub struct Amid {
    pub string: bool,
    pub escape: bool,
    pub comment: bool,
}

/// What a row is in the middle of after a character.
pub open spec fn amid_after(at: Amid, c: char) -> Amid {
    if at.comment {
        at
    } else if at.string {
        if at.escape {
            Amid { string: true, escape: false, comment: false }
        } else {
            Amid { string: c != '"', escape: c == '\\', comment: false }
        }
    } else {
        Amid { string: c == '"', escape: false, comment: c == '#' }
    }
}

/// What a row is in the middle of after its first `n` characters.
pub open spec fn amid(row: Seq<char>, n: int) -> Amid
    decreases n,
{
    if 0 < n <= row.len() {
        amid_after(amid(row, n - 1), row[n - 1])
    } else {
        Amid { string: false, escape: false, comment: false }
    }
}

/// Whether what stands at `k` is read as part of the program, rather than as text.
pub open spec fn is_code(row: Seq<char>, k: int) -> bool {
    !starts(trim(row), "//"@) && !amid(row, k).string && !amid(row, k).comment
}

fn amid_of(row: &Vec<char>, k: usize) -> (r: Amid)
    requires
        k <= row@.len(),
    ensures
        r == amid(row@, k as int),
{
    let mut at = Amid { string: false, escape: false, comment: false };
    let mut i: usize = 0;
    while i < k
        invariant
            i <= k <= row@.len(),
            at == amid(row@, i as int),
        decreases k - i,
    {
        let c = row[i];
        if !at.comment {
            if at.string {
                if at.escape {
                    at = Amid { string: true, escape: false, comment: false };
                } else {
                    at = Amid { string: c != '"', escape: c == '\\', comment: false };
                }
            } else {
                at = Amid { string: c == '"', escape: false, comment: c == '#' };
            }
        }
        i += 1;
    }
    at
}

fn is_code_at(row: &Vec<char>, k: usize) -> (r: bool)
    requires
        k <= row@.len(),
    ensures
        r == is_code(row@, k as int),
{
    let t = trimmed(row);
    let at = amid_of(row, k);
    !starts_with(&t, "//") && !at.string && !at.comment
}

/// A part of one row.
pub open spec fn row_range(line: int, row: Seq<char>, from: int, to: int) -> Range {
    Range {
        start: Position { line: line as usize, character: capped(column(row, 0, from)) },
        end: Position { line: line as usize, character: capped(column(row, 0, to)) },
    }
}

/// Where a word stands by itself in a row, from `from` on; strings and comments are passed
/// over.
pub open spec fn uses_in_row(line: int, row: Seq<char>, word: Seq<char>, from: int) -> Seq<Range>
    decreases row.len() - from,
{
    match found(row, word, from) {
        Some(k) => if from <= k && k + word.len() <= row.len() && word.len() > 0 {
            (if alone(row, k, word.len() as int) && is_code(row, k) {
                seq![row_range(line, row, k, k + word.len())]
            } else {
                Seq::empty()
            }) + uses_in_row(line, row, word, k + word.len())
        } else {
            Seq::empty()
        },
        None => Seq::empty(),
    }
}

/// Where a word stands by itself in the first `n` rows.
pub open spec fn uses_in_rows(rs: Seq<Seq<char>>, word: Seq<char>, n: int) -> Seq<Range>
    decreases n,
{
    if 0 < n <= rs.len() {
        uses_in_rows(rs, word, n - 1) + uses_in_row(n - 1, rs[n - 1], word, 0)
    } else {
        Seq::empty()
    }
}

/// Every place where the name at `pos` stands.
pub open spec fn references(cs: Seq<char>, pos: Position) -> Seq<Range> {
    match word_at(cs, pos) {
        Some(word) => uses_in(cs, word),
        None => Seq::empty(),
    }
}

fn collect_row(line: usize, row: &Vec<char>, word: &Vec<char>, out: &mut Vec<Range>)
    requires
        word@.len() > 0,
    ensures
        final(out)@ == old(out)@ + uses_in_row(line as int, row@, word@, 0),
{
    let mut from: usize = 0;
    let ghost goal = out@ + uses_in_row(line as int, row@, word@, 0);
    let len: usize = row.len();
    let n: usize = word.len();
    loop
        invariant
            from <= len,
            len == row@.len(),
            n == word@.len(),
            n > 0,
                goal == out@ + uses_in_row(line as int, row@, word@, from as int),
            goal == old(out)@ + uses_in_row(line as int, row@, word@, 0),
        decreases len - from,
    {
        match find(row, word, from) {
            None => {
                assert(uses_in_row(line as int, row@, word@, from as int) =~= Seq::empty());
                assert(out@ =~= goal);
                return;
            },
            Some(k) => {
                proof {
                    lemma_found(row@, word@, from as int);
                }
                let ghost before = out@;
                let left_ok = k == 0 || !is_in_name(row[k - 1]);
                let right_ok = k + n >= len || !is_in_name(row[k + n]);
                if left_ok && right_ok && is_code_at(row, k) {
                    let start = columns(row, 0, k);
                    let end = columns(row, 0, k + n);
                    out.push(
                        Range {
                            start: Position { line, character: start },
                            end: Position { line, character: end },
                        },
                    );
                }
                proof {
                    let own = if alone(row@, k as int, n as int) && is_code(row@, k as int) {
                        seq![row_range(line as int, row@, k as int, k + n)]
                    } else {
                        Seq::empty()
                    };
                    assert(out@ =~= before + own);
                    assert(before + (own + uses_in_row(line as int, row@, word@, k + n)) =~= out@ + uses_in_row(
                        line as int,
                        row@,
                        word@,
                        k + n,
                    ));
                }
                from = k + n;
            },
        }
    }
}

/// The places of a word in a text.
pub open spec fn uses_in(cs: Seq<char>, word: Seq<char>) -> Seq<Range> {
    uses_in_rows(rows(cs), word, rows(cs).len() as int)
}

fn find_uses(source: &str, word: &str) -> (r: Vec<Range>)
    requires
        word@.len() > 0,
    ensures
        r@ == uses_in(source@, word@),
{
    let mut out: Vec<Range> = Vec::new();
    let cs = chars_of(source);
    let word_chars = chars_of(word);
    let rs = rows_of(&cs);
    let ghost all = rows(cs@);
    let mut i: usize = 0;
    while i < rs.len()
        invariant
            i <= rs@.len(),
            vecs(rs@) == all,
            word_chars@ == word@,
            word@.len() > 0,
            out@ == uses_in_rows(all, word@, i as int),
        decreases rs@.len() - i,
    {
        assert(all[i as int] == rs@[i as int]@);
        collect_row(i, &rs[i], &word_chars, &mut out);
        i += 1;
    }
    assert(all.len() == rs@.len());
    out
}

pub(crate) fn own_references(state: &DocumentState, pos: Position) -> (r: Vec<Range>)
    ensures
        r@ == references(state.text@, pos),
{
    match get_word_at_position(state.text.as_str(), pos) {
        Some(word) => find_uses(state.text.as_str(), word.as_str()),
        None => Vec::new(),
    }
}

pub open spec fn locations_v(s: Seq<Location>) -> Seq<LocationV> {
    Seq::new(s.len(), |i: int| s[i]@)
}

/// Ranges of one document.
pub open spec fn located(uri: Seq<char>, ranges: Seq<Range>) -> Seq<LocationV> {
    Seq::new(ranges.len(), |i: int| LocationV { uri, range: ranges[i] })
}

/// The places of a word in the first `n` documents, one left out.
pub open spec fn elsewhere(docs: Seq<Document>, uri: Seq<char>, word: Seq<char>, n: int) -> Seq<LocationV>
    decreases n,
{
    if 0 < n <= docs.len() {
        let before = elsewhere(docs, uri, word, n - 1);
        if docs[n - 1].uri@ == uri {
            before
        } else {
            before + located(docs[n - 1].uri@, uses_in(docs[n - 1].state.text@, word))
        }
    } else {
        Seq::empty()
    }
}

/// Every place where the name at `pos` stands: in its own document, then in the others.
pub open spec fn all_references(uri: Seq<char>, state: DocumentState, docs: Seq<Document>, pos: Position) -> Seq<LocationV> {
    match word_at(state.text@, pos) {
        Some(word) => located(uri, uses_in(state.text@, word)) + elsewhere(docs, uri, word, docs.len() as int),
        None => Seq::empty(),
    }
}

fn locate(uri: &str, ranges: &Vec<Range>, out: &mut Vec<Location>)
    ensures
        locations_v(final(out)@) == locations_v(old(out)@) + located(uri@, ranges@),
{
    let ghost before = locations_v(out@);
    let ghost all = located(uri@, ranges@);
    let mut i: usize = 0;
    assert(before + all.take(0) =~= before);
    while i < ranges.len()
        invariant
            i <= ranges@.len(),
            before == locations_v(old(out)@),
            all == located(uri@, ranges@),
            locations_v(out@) == before + all.take(i as int),
        decreases ranges@.len() - i,
    {
        let ghost so_far = locations_v(out@);
        out.push(Location { uri: uri.to_owned(), range: ranges[i] });
        assert(locations_v(out@) =~= so_far.push(all[i as int]));
        i += 1;
        assert(locations_v(out@) =~= before + all.take(i as int));
    }
    assert(all.take(i as int) =~= all);
}

/// Every place where the name at a place of a document stands, in all documents.
pub fn get_references(uri: &str, state: Option<&DocumentState>, documents: &Vec<Document>, pos: Position) -> (r: Vec<Location>)
    ensures
        locations_v(r@) == match state {
            Some(state) => all_references(uri@, *state, documents@, pos),
            None => Seq::empty(),
        },
{
    let mut out: Vec<Location> = Vec::new();
    assert(locations_v(out@) =~= Seq::empty());
    let own = match state {
        Some(own) => own,
        None => return out,
    };
    let word = match get_word_at_position(own.text.as_str(), pos) {
        Some(word) => word,
        None => return out,
    };
    let here = find_uses(own.text.as_str(), word.as_str());
    locate(uri, &here, &mut out);
    let ghost mine = located(uri@, here@);
    assert(locations_v(out@) =~= mine + elsewhere(documents@, uri@, word@, 0));
    let mut i: usize = 0;
    while i < documents.len()
        invariant
            i <= documents@.len(),
            word@.len() > 0,
            locations_v(out@) == mine + elsewhere(documents@, uri@, word@, i as int),
        decreases documents@.len() - i,
    {
        let doc = &documents[i];
        if !same(doc.uri.as_str(), uri) {
            let there = find_uses(doc.state.text.as_str(), word.as_str());
            locate(doc.uri.as_str(), &there, &mut out);
        }
        i += 1;
        assert(locations_v(out@) =~= mine + elsewhere(documents@, uri@, word@, i as int));
    }
    out
}

/// A change to a part of a document.
#[derive(Debug)]
pub struct TextEdit {
    pub range: Range,
    pub new_text: String,
}

/// The model of a [`TextEdit`].
pub struct TextEditV {
    pub range: Range,
    pub new_text: Seq<char>,
}

impl View for TextEdit {
    type V = TextEditV;

    open spec fn view(&self) -> TextEditV {
        TextEditV { range: self.range, new_text: self.new_text@ }
    }
}

pub open spec fn edits_v(s: Seq<TextEdit>) -> Seq<TextEditV> {
    Seq::new(s.len(), |i: int| s[i]@)
}

/// A change to a part of one of several documents.
#[derive(Debug)]
pub struct DocumentEdit {
    pub uri: String,
    pub edit: TextEdit,
}

/// The model of a [`DocumentEdit`].
pub struct DocumentEditV {
    pub uri: Seq<char>,
    pub edit: TextEditV,
}

impl View for DocumentEdit {
    type V = DocumentEditV;

    open spec fn view(&self) -> DocumentEditV {
        DocumentEditV { uri: self.uri@, edit: self.edit@ }
    }
}

pub open spec fn document_edits_v(s: Seq<DocumentEdit>) -> Seq<DocumentEditV> {
    Seq::new(s.len(), |i: int| s[i]@)
}

/// The changes that write a name at each of some places.
pub open spec fn renames(places: Seq<LocationV>, new_name: Seq<char>) -> Seq<DocumentEditV> {
    Seq::new(
        places.len(),
        |i: int|
            DocumentEditV { uri: places[i].uri, edit: TextEditV { range: places[i].range, new_text: new_name } },
    )
}

/// The changes that rename what stands at a place; none where no name stands there.
pub fn rename_symbol(uri: &str, state: Option<&DocumentState>, documents: &Vec<Document>, pos: Position, new_name: &str) -> (r: Option<
    Vec<DocumentEdit>,
>)
    ensures
        ({
            let refs = match state {
                Some(state) => all_references(uri@, *state, documents@, pos),
                None => Seq::empty(),
            };
            match r {
                Some(edits) => refs.len() > 0 && document_edits_v(edits@) == renames(refs, new_name@),
                None => refs.len() == 0,
            }
        }),
{
    let refs = get_references(uri, state, documents, pos);
    assert(locations_v(refs@).len() == refs@.len());
    if refs.len() == 0 {
        return None;
    }
    let ghost goal = renames(locations_v(refs@), new_name@);
    let mut edits: Vec<DocumentEdit> = Vec::new();
    let mut i: usize = 0;
    while i < refs.len()
        invariant
            i <= refs@.len(),
            goal == renames(locations_v(refs@), new_name@),
            document_edits_v(edits@) =~= goal.take(i as int),
        decreases refs@.len() - i,
    {
        let ghost before = document_edits_v(edits@);
        let place = &refs[i];
        edits.push(
            DocumentEdit {
                uri: place.uri.as_str().to_owned(),
                edit: TextEdit { range: place.range, new_text: new_name.to_owned() },
            },
        );
        assert(document_edits_v(edits@) =~= before.push(goal[i as int]));
        i += 1;
    }
    assert(document_edits_v(edits@) =~= goal);
    Some(edits)
}

/// Every place where the name at a place stands, to be lit up together.
pub fn get_document_highlights(state: Option<&DocumentState>, pos: Position) -> (r: Vec<Range>)
    ensures
        r@ == match state {
            Some(state) => references(state.text@, pos),
            None => Seq::empty(),
        },
{
    match state {
        Some(state) => own_references(state, pos),
        None => Vec::new(),
    }
}

// -- outlines -----------------------------------------------------------------------------------------------

/// What kind of thing an outline lists.
#[derive(Clone, Copy, Debug, PartialEq, Eq, Structural)]
pub enum OutlineKind {
    Function,
    Class,
    Method,
    Variable,
}

/// A line of an outline.
#[derive(Debug)]
pub struct SymbolInformation {
    pub name: String,
    pub kind: OutlineKind,
    pub uri: String,
    pub range: Range,
    pub container_name: Option<String>,
}

/// The model of a [`SymbolInformation`].
pub struct SymbolInformationV {
    pub name: Seq<char>,
    pub kind: OutlineKind,
    pub uri: Seq<char>,
    pub range: Range,
    pub container_name: Option<Seq<char>>,
}

impl View for SymbolInformation {
    type V = SymbolInformationV;

    open spec fn view(&self) -> SymbolInformationV {
        SymbolInformationV {
            name: self.name@,
            kind: self.kind,
            uri: self.uri@,
            range: self.range,
            container_name: opt_text(self.container_name),
        }
    }
}

pub open spec fn infos_v(s: Seq<SymbolInformation>) -> Seq<SymbolInformationV> {
    Seq::new(s.len(), |i: int| s[i]@)
}

/// The lines of a class's first `n` methods.
pub open spec fn method_lines(uri: Seq<char>, cs: Seq<char>, class: Seq<char>, ms: Seq<Rc<FnDecl>>, n: int) -> Seq<
    SymbolInformationV,
>
    decreases n,
{
    if 0 < n <= ms.len() {
        method_lines(uri, cs, class, ms, n - 1).push(
            SymbolInformationV {
                name: ms[n - 1].name@,
                kind: OutlineKind::Method,
                uri,
                range: range_of(cs, ms[n - 1].body.span),
                container_name: Some(class),
            },
        )
    } else {
        Seq::empty()
    }
}

/// A line for a statement itself.
pub open spec fn line_of(uri: Seq<char>, cs: Seq<char>, s: Stmt, name: Seq<char>, kind: OutlineKind) -> SymbolInformationV {
    SymbolInformationV { name, kind, uri, range: range_of(cs, s.span), container_name: None }
}

/// The lines of one statement.
pub open spec fn stmt_lines(uri: Seq<char>, cs: Seq<char>, s: Stmt) -> Seq<SymbolInformationV> {
    match s.kind {
        StmtKind::Fn(decl) => seq![line_of(uri, cs, s, decl.name@, OutlineKind::Function)],
        StmtKind::Class(decl) => seq![line_of(uri, cs, s, decl.name@, OutlineKind::Class)] + method_lines(
            uri,
            cs,
            decl.name@,
            decl.methods@,
            decl.methods@.len() as int,
        ),
        StmtKind::Let { name, .. } => seq![line_of(uri, cs, s, name@, OutlineKind::Variable)],
        _ => Seq::empty(),
    }
}

/// The lines of the first `n` statements.
pub open spec fn lines_of(uri: Seq<char>, cs: Seq<char>, ss: Seq<Stmt>, n: int) -> Seq<SymbolInformationV>
    decreases n,
{
    if 0 < n <= ss.len() {
        lines_of(uri, cs, ss, n - 1) + stmt_lines(uri, cs, ss[n - 1])
    } else {
        Seq::empty()
    }
}

/// The outline of a document.
pub open spec fn outline(uri: Seq<char>, state: DocumentState) -> Seq<SymbolInformationV> {
    match state.ast {
        Some(ast) => lines_of(uri, state.text@, ast@, ast@.len() as int),
        None => Seq::empty(),
    }
}

fn push_line(
    out: &mut Vec<SymbolInformation>,
    uri: &str,
    name: &str,
    kind: OutlineKind,
    range: Range,
    container: Option<&str>,
)
    ensures
        infos_v(final(out)@) == infos_v(old(out)@).push(
            SymbolInformationV {
                name: name@,
                kind,
                uri: uri@,
                range,
                container_name: match container {
                    Some(c) => Some(c@),
                    None => None,
                },
            },
        ),
{
    let ghost before = infos_v(out@);
    let container_name = match container {
        Some(c) => Some(c.to_owned()),
        None => None,
    };
    out.push(SymbolInformation { name: name.to_owned(), kind, uri: uri.to_owned(), range, container_name });
    assert(infos_v(out@) =~= before.push(infos_v(out@).last()));
}

fn push_methods(out: &mut Vec<SymbolInformation>, uri: &str, source: &str, class: &str, ms: &Vec<Rc<FnDecl>>)
    ensures
        infos_v(final(out)@) == infos_v(old(out)@) + method_lines(uri@, source@, class@, ms@, ms@.len() as int),
{
    let ghost before = infos_v(out@);
    let mut i: usize = 0;
    assert(before + Seq::<SymbolInformationV>::empty() =~= before);
    while i < ms.len()
        invariant
            i <= ms@.len(),
            before == infos_v(old(out)@),
            infos_v(out@) == before + method_lines(uri@, source@, class@, ms@, i as int),
        decreases ms@.len() - i,
    {
        let m = &ms[i];
        let range = span_to_range(source, m.body.span);
        push_line(out, uri, m.name.as_str(), OutlineKind::Method, range, Some(class));
        i += 1;
        assert(infos_v(out@) =~= before + method_lines(uri@, source@, class@, ms@, i as int));
    }
}

fn push_stmt(out: &mut Vec<SymbolInformation>, uri: &str, source: &str, s: &Stmt)
    ensures
        infos_v(final(out)@) == infos_v(old(out)@) + stmt_lines(uri@, source@, *s),
{
    let ghost before = infos_v(out@);
    let range = span_to_range(source, s.span);
    match &s.kind {
        StmtKind::Fn(decl) => push_line(out, uri, decl.name.as_str(), OutlineKind::Function, range, None),
        StmtKind::Class(decl) => {
            push_line(out, uri, decl.name.as_str(), OutlineKind::Class, range, None);
            push_methods(out, uri, source, decl.name.as_str(), &decl.methods);
        },
        StmtKind::Let { name, .. } => push_line(out, uri, name.as_str(), OutlineKind::Variable, range, None),
        _ => {},
    }
    assert(infos_v(out@) =~= before + stmt_lines(uri@, source@, *s));
}

/// What a document declares at its top level, and the methods of its classes.
pub fn get_document_symbols(uri: &str, state: Option<&DocumentState>) -> (r: Vec<SymbolInformation>)
    ensures
        infos_v(r@) == match state {
            Some(state) => outline(uri@, *state),
            None => Seq::empty(),
        },
{
    let mut out: Vec<SymbolInformation> = Vec::new();
    assert(infos_v(out@) =~= Seq::empty());
    let state = match state {
        Some(state) => state,
        None => return out,
    };
    let ast = match &state.ast {
        Some(ast) => ast,
        None => return out,
    };
    let mut i: usize = 0;
    while i < ast.len()
        invariant
            i <= ast@.len(),
            infos_v(out@) == lines_of(uri@, state.text@, ast@, i as int),
        decreases ast@.len() - i,
    {
        push_stmt(&mut out, uri, state.text.as_str(), &ast[i]);
        i += 1;
    }
    out
}

/// Whether a name answers a query, whatever its case.
pub open spec fn answers(name: Seq<char>, query: Seq<char>) -> bool {
    query.len() == 0 || contains(lowercase(name), lowercase(query))
}

/// Those of some lines whose name answers a query.
pub open spec fn answering(infos: Seq<SymbolInformationV>, query: Seq<char>) -> Seq<SymbolInformationV> {
    infos.filter(|info: SymbolInformationV| answers(info.name, query))
}

/// What the first `n` documents hold that answers a query.
pub open spec fn workspace(docs: Seq<Document>, query: Seq<char>, n: int) -> Seq<SymbolInformationV>
    decreases n,
{
    if 0 < n <= docs.len() {
        workspace(docs, query, n - 1) + answering(outline(docs[n - 1].uri@, docs[n - 1].state), query)
    } else {
        Seq::empty()
    }
}

fn push_answering(out: &mut Vec<SymbolInformation>, infos: Vec<SymbolInformation>, query: &str)
    ensures
        infos_v(final(out)@) == infos_v(old(out)@) + answering(infos_v(infos@), query@),
{
    let lower = to_lowercase(query);
    let query_chars = chars_of(query);
    let ghost all = infos_v(infos@);
    let ghost before = infos_v(out@);
    let ghost pred = |info: SymbolInformationV| answers(info.name, query@);
    let mut i: usize = 0;
    proof {
        assert(all.take(0) =~= Seq::empty());
        reveal(Seq::filter);
        assert(before + all.take(0).filter(pred) =~= before);
    }
    while i < infos.len()
        invariant
            i <= infos@.len(),
            all == infos_v(infos@),
            lower@ == lowercase(query@),
            query_chars@ == query@,
            before == infos_v(old(out)@),
            pred == (|info: SymbolInformationV| answers(info.name, query@)),
            infos_v(out@) == before + all.take(i as int).filter(pred),
        decreases infos@.len() - i,
    {
        let info = &infos[i];
        let name_lower = to_lowercase(info.name.as_str());
        proof {
            assert(all.take(i + 1).drop_last() =~= all.take(i as int));
            assert(all.take(i + 1).last() == info@);
            reveal(Seq::filter);
        }
        if query_chars.len() == 0 || contains_text(name_lower.as_str(), lower.as_str()) {
            push_line(
                out,
                info.uri.as_str(),
                info.name.as_str(),
                info.kind,
                info.range,
                match &info.container_name {
                    Some(c) => Some(c.as_str()),
                    None => None,
                },
            );
            assert(infos_v(out@).last() == info@);
        }
        i += 1;
        assert(infos_v(out@) =~= before + all.take(i as int).filter(pred));
    }
    proof {
        assert(all.take(all.len() as int) =~= all);
    }
}

/// What the documents of a workspace declare under names that answer a query.
pub fn get_workspace_symbols(documents: &Vec<Document>, query: &str) -> (r: Vec<SymbolInformation>)
    ensures
        infos_v(r@) == workspace(documents@, query@, documents@.len() as int),
{
    let mut out: Vec<SymbolInformation> = Vec::new();
    assert(infos_v(out@) =~= Seq::empty());
    let mut i: usize = 0;
    while i < documents.len()
        invariant
            i <= documents@.len(),
            infos_v(out@) == workspace(documents@, query@, i as int),
        decreases documents@.len() - i,
    {
        let doc = &documents[i];
        let infos = get_document_symbols(doc.uri.as_str(), Some(&doc.state));
        push_answering(&mut out, infos, query);
        i += 1;
    }
    out
}

} // verus!
