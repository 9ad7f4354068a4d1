//! What a program says of its declarations: the `##` rows above them.

use crate::lsp::folding::is_doc_row;
use crate::lsp::position::{char_at, char_index, place, position_of};
use crate::lsp::rows::{
    part, rows, rows_of, starts, starts_with, text, trim, trimmed, vecs, word_end,
};
use crate::lsp::scope::{find_seen, seen, Decl, DeclV};
use crate::lsp::selection::{inside, is_inside};
use crate::lsp::symbols::{notes_v, summary, summary_of, Doc, DocV, Note, NoteV};
use crate::syntax::ast::{FnDecl, Stmt, StmtKind};
use crate::syntax::token::Span;
use crate::text::{cat3, chars_of, is_whitespace, same};
use std::rc::Rc;
use vstd::prelude::*;

verus! {

// -- reading the rows ------------------------------------------------------------------------------------

/// What a doc row says.
pub open spec fn doc_line(row: Seq<char>) -> Seq<char> {
    let t = trim(row);
    if t.len() >= 2 {
        trim(t.skip(2))
    } else {
        Seq::empty()
    }
}

/// A name, and what is said of it.
pub open spec fn note_of(s: Seq<char>) -> NoteV {
    let t = trim(s);
    let n = word_end(t, 0);
    NoteV { name: t.take(n), text: trim(t.skip(n)) }
}

/// Documentation with one more line.
pub open spec fn with_line(doc: DocV, line: Seq<char>) -> DocV {
    if starts(line, "@param "@) {
        DocV { params: doc.params.push(note_of(line.skip("@param "@.len() as int))), ..doc }
    } else if starts(line, "@returns "@) {
        DocV { result: Some(trim(line.skip("@returns "@.len() as int))), ..doc }
    } else if starts(line, "@throws "@) {
        DocV { throws: doc.throws.push(note_of(line.skip("@throws "@.len() as int))), ..doc }
    } else if doc.summary.len() == 0 {
        DocV { summary: line, ..doc }
    } else {
        DocV { summary: doc.summary + "\n"@ + line, ..doc }
    }
}

/// What the rows from one up to another say.
pub open spec fn doc_between(rs: Seq<Seq<char>>, from: int, to: int) -> DocV
    decreases to - from,
{
    if 0 <= from < to <= rs.len() {
        with_line(doc_between(rs, from, to - 1), doc_line(rs[to - 1]))
    } else {
        DocV { summary: Seq::empty(), params: Seq::empty(), result: None, throws: Seq::empty() }
    }
}

/// Where the doc rows that end before a row start.
pub open spec fn doc_start(rs: Seq<Seq<char>>, row: int) -> int
    decreases row,
{
    if 0 < row <= rs.len() && is_doc_row(rs[row - 1]) {
        doc_start(rs, row - 1)
    } else {
        row
    }
}

/// What the rows above a row say of it.
pub open spec fn doc_above(rs: Seq<Seq<char>>, row: int) -> Option<DocV> {
    if doc_start(rs, row) < row {
        Some(doc_between(rs, doc_start(rs, row), row))
    } else {
        None
    }
}

pub open spec fn opt_doc(doc: Option<Doc>) -> Option<DocV> {
    match doc {
        Some(doc) => Some(doc@),
        None => None,
    }
}

fn rest_of(line: &Vec<char>, n: usize) -> (r: Vec<char>)
    requires
        n <= line@.len(),
    ensures
        r@ == line@.skip(n as int),
{
    let r = part(line, n, line.len());
    assert(r@ =~= line@.skip(n as int));
    r
}

fn read_note(s: &Vec<char>) -> (r: Note)
    ensures
        r@ == note_of(s@),
{
    let t = trimmed(s);
    let mut n: usize = 0;
    while n < t.len() && !is_whitespace(t[n])
        invariant
            n <= t@.len(),
            word_end(t@, 0) == word_end(t@, n as int),
        decreases t@.len() - n,
    {
        n += 1;
    }
    let name = part(&t, 0, n);
    assert(name@ =~= t@.take(n as int));
    let rest = rest_of(&t, n);
    Note { name: text(&name), text: text(&trimmed(&rest)) }
}

fn add_line(doc: Doc, line: &Vec<char>) -> (r: Doc)
    ensures
        r@ == with_line(doc@, line@),
{
    let mut doc = doc;
    let ghost before = doc@;
    if starts_with(line, "@param ") {
        let word = chars_of("@param ");
        let note = read_note(&rest_of(line, word.len()));
        doc.params.push(note);
        assert(notes_v(doc.params@) =~= before.params.push(note@));
    } else if starts_with(line, "@returns ") {
        let word = chars_of("@returns ");
        let rest = rest_of(line, word.len());
        doc.result = Some(text(&trimmed(&rest)));
    } else if starts_with(line, "@throws ") {
        let word = chars_of("@throws ");
        let note = read_note(&rest_of(line, word.len()));
        doc.throws.push(note);
        assert(notes_v(doc.throws@) =~= before.throws.push(note@));
    } else {
        let said = text(line);
        let so_far = chars_of(doc.summary.as_str());
        if so_far.len() == 0 {
            doc.summary = said;
        } else {
            doc.summary = cat3(doc.summary.as_str(), "\n", said.as_str());
        }
    }
    doc
}

fn find_doc_above(rs: &Vec<Vec<char>>, row: usize) -> (r: Option<Doc>)
    ensures
        opt_doc(r) == doc_above(vecs(rs@), row as int),
{
    let ghost all = vecs(rs@);
    assert(all.len() == rs@.len());
    let mut from: usize = row;
    loop
        invariant
            from <= row,
            all == vecs(rs@),
            all.len() == rs@.len(),
            doc_start(all, row as int) == doc_start(all, from as int),
            from < row ==> row <= rs@.len(),
        ensures
            from <= row,
            doc_start(all, row as int) == from,
            from < row ==> row <= rs@.len(),
        decreases from,
    {
        if from == 0 || from > rs.len() {
            break;
        }
        assert(all[from - 1] == rs@[from - 1]@);
        let t = trimmed(&rs[from - 1]);
        if !starts_with(&t, "##") {
            break;
        }
        from -= 1;
    }
    if from == row {
        return None;
    }
    let mut doc = Doc { summary: String::new(), params: Vec::new(), result: None, throws: Vec::new() };
    let mut i: usize = from;
    proof {
        assert(notes_v(doc.params@) =~= Seq::empty());
        assert(notes_v(doc.throws@) =~= Seq::empty());
        assert(doc.summary@ =~= Seq::empty());
    }
    while i < row
        invariant
            from <= i <= row <= rs@.len(),
            all == vecs(rs@),
            all.len() == rs@.len(),
            doc@ == doc_between(all, from as int, i as int),
        decreases row - i,
    {
        assert(all[i as int] == rs@[i as int]@);
        let t = trimmed(&rs[i]);
        let line: Vec<char> = if t.len() >= 2 {
            trimmed(&rest_of(&t, 2))
        } else {
            Vec::new()
        };
        assert(line@ =~= doc_line(all[i as int]));
        doc = add_line(doc, &line);
        i += 1;
    }
    Some(doc)
}

// -- the function around a place ---------------------------------------------------------------------------

/// The innermost function around a place, among the first `n` statements.
pub open spec fn fn_around(ss: Seq<Stmt>, at: int, n: int) -> Option<Rc<FnDecl>>
    decreases ss, n,
{
    if n <= 0 || n > ss.len() {
        None
    } else if inside(ss[n - 1].span, at) && fn_in(ss[n - 1], at) is Some {
        fn_in(ss[n - 1], at)
    } else {
        fn_around(ss, at, n - 1)
    }
}

/// The innermost function around a place inside a function.
pub open spec fn fn_within(d: Rc<FnDecl>, at: int) -> Option<Rc<FnDecl>>
    decreases d,
{
    match fn_around(d.body.stmts@, at, d.body.stmts@.len() as int) {
        Some(inner) => Some(inner),
        None => Some(d),
    }
}

/// The innermost function around a place, among the first `n` methods.
pub open spec fn method_around(ms: Seq<Rc<FnDecl>>, at: int, n: int) -> Option<Rc<FnDecl>>
    decreases ms, n,
{
    if n <= 0 || n > ms.len() {
        None
    } else if inside(ms[n - 1].body.span, at) {
        fn_within(ms[n - 1], at)
    } else {
        method_around(ms, at, n - 1)
    }
}

/// The innermost function around a place inside a statement.
pub open spec fn fn_in(s: Stmt, at: int) -> Option<Rc<FnDecl>>
    decreases s,
{
    match s.kind {
        StmtKind::Fn(d) => fn_within(d, at),
        StmtKind::Class(d) => method_around(d.methods@, at, d.methods@.len() as int),
        StmtKind::Extend { target, target_span, methods } => method_around(methods@, at, methods@.len() as int),
        StmtKind::If { cond, consequent, otherwise } => {
            let first = fn_around(consequent.stmts@, at, consequent.stmts@.len() as int);
            match otherwise {
                Some(other) => if first is Some {
                    first
                } else {
                    fn_in(*other, at)
                },
                None => first,
            }
        },
        StmtKind::While { cond, body } => fn_around(body.stmts@, at, body.stmts@.len() as int),
        StmtKind::For { var, iter, body } => fn_around(body.stmts@, at, body.stmts@.len() as int),
        StmtKind::Try { body, binding, handler } => {
            let first = fn_around(body.stmts@, at, body.stmts@.len() as int);
            if first is Some {
                first
            } else {
                fn_around(handler.stmts@, at, handler.stmts@.len() as int)
            }
        },
        StmtKind::Block(b) => fn_around(b.stmts@, at, b.stmts@.len() as int),
        _ => None,
    }
}

pub open spec fn opt_fn<'a>(d: Option<&'a Rc<FnDecl>>) -> Option<Rc<FnDecl>> {
    match d {
        Some(d) => Some(*d),
        None => None,
    }
}

fn find_fn_around<'a>(ss: &'a Vec<Stmt>, at: usize) -> (r: Option<&'a Rc<FnDecl>>)
    ensures
        opt_fn(r) == fn_around(ss@, at as int, ss@.len() as int),
    decreases ss@,
{
    let mut n: usize = ss.len();
    while n > 0
        invariant
            n <= ss@.len(),
            fn_around(ss@, at as int, ss@.len() as int) == fn_around(ss@, at as int, n as int),
        decreases n,
    {
        let mut found: Option<&'a Rc<FnDecl>> = None;
        if is_inside(ss[n - 1].span, at) {
            found = find_fn_in(&ss[n - 1], at);
        }
        proof {
            assert(fn_around(ss@, at as int, n as int) == if inside(ss@[n - 1].span, at as int) && fn_in(
                ss@[n - 1],
                at as int,
            ) is Some {
                fn_in(ss@[n - 1], at as int)
            } else {
                fn_around(ss@, at as int, n - 1)
            });
        }
        if found.is_some() {
            return found;
        }
        n -= 1;
    }
    None
}

fn find_fn_within<'a>(d: &'a Rc<FnDecl>, at: usize) -> (r: Option<&'a Rc<FnDecl>>)
    ensures
        opt_fn(r) == fn_within(*d, at as int),
    decreases d,
{
    match find_fn_around(&d.body.stmts, at) {
        Some(inner) => Some(inner),
        None => Some(d),
    }
}

fn find_method_around<'a>(ms: &'a Vec<Rc<FnDecl>>, at: usize) -> (r: Option<&'a Rc<FnDecl>>)
    ensures
        opt_fn(r) == method_around(ms@, at as int, ms@.len() as int),
    decreases ms@,
{
    let mut n: usize = ms.len();
    while n > 0
        invariant
            n <= ms@.len(),
            method_around(ms@, at as int, ms@.len() as int) == method_around(ms@, at as int, n as int),
        decreases n,
    {
        if is_inside(ms[n - 1].body.span, at) {
            let found = find_fn_within(&ms[n - 1], at);
            assert(method_around(ms@, at as int, n as int) == fn_within(ms@[n - 1], at as int));
            return found;
        }
        n -= 1;
    }
    None
}

fn find_fn_in<'a>(s: &'a Stmt, at: usize) -> (r: Option<&'a Rc<FnDecl>>)
    ensures
        opt_fn(r) == fn_in(*s, at as int),
    decreases s,
{
    match &s.kind {
        StmtKind::Fn(d) => find_fn_within(d, at),
        StmtKind::Class(d) => find_method_around(&d.methods, at),
        StmtKind::Extend { target, target_span, methods } => find_method_around(methods, at),
        StmtKind::If { cond, consequent, otherwise } => {
            let first = find_fn_around(&consequent.stmts, at);
            match otherwise {
                Some(other) => if first.is_some() {
                    first
                } else {
                    find_fn_in(other, at)
                },
                None => first,
            }
        },
        StmtKind::While { cond, body } => find_fn_around(&body.stmts, at),
        StmtKind::For { var, iter, body } => find_fn_around(&body.stmts, at),
        StmtKind::Try { body, binding, handler } => {
            let first = find_fn_around(&body.stmts, at);
            if first.is_some() {
                first
            } else {
                find_fn_around(&handler.stmts, at)
            }
        },
        StmtKind::Block(b) => find_fn_around(&b.stmts, at),
        _ => None,
    }
}

// -- what is said of a name ------------------------------------------------------------------------------------

/// What is said of a name, from note `i` on.
pub open spec fn note_on(notes: Seq<NoteV>, name: Seq<char>, i: int) -> Option<Seq<char>>
    decreases notes.len() - i,
{
    if i < 0 || i >= notes.len() {
        None
    } else if notes[i].name == name {
        Some(notes[i].text)
    } else {
        note_on(notes, name, i + 1)
    }
}

/// What stands above the row that a span starts in.
pub open spec fn doc_at(cs: Seq<char>, span: Span) -> Option<DocV> {
    doc_above(rows(cs), position_of(cs, span.start as int).line as int)
}

/// Whether a name stands in a text where a span says that it does.
pub open spec fn stands(cs: Seq<char>, span: Span, name: Seq<char>) -> bool {
    let a = char_at(cs, span.start as int);
    a + name.len() <= cs.len() && cs.subrange(a, a + name.len()) == name
}

/// What stands above a name, where the name stands in the text.
pub open spec fn doc_of_name(cs: Seq<char>, span: Span, name: Seq<char>) -> Option<DocV> {
    if stands(cs, span, name) {
        doc_at(cs, span)
    } else {
        None
    }
}

/// What a text says of what it declares. A declaration of another text is not documented here.
pub open spec fn documented(cs: Seq<char>, d: DeclV) -> Option<DocV> {
    match d {
        DeclV::Fn(d) => doc_of_name(cs, d.name_span, d.name@),
        DeclV::Method(d) => doc_of_name(cs, d.name_span, d.name@),
        DeclV::Class(d) => doc_of_name(cs, d.name_span, d.name@),
        DeclV::Field(f) => doc_of_name(cs, f.name_span, f.name@),
        DeclV::Let(s) => match s.kind {
            StmtKind::Let { name, name_span, .. } => doc_of_name(cs, name_span, name@),
            _ => None,
        },
        _ => None,
    }
}

/// What a program says of a name at a place: what stands above its declaration, and of a
/// parameter what its function says of it.
pub open spec fn said_of(cs: Seq<char>, p: Seq<Stmt>, name: Seq<char>, at: int) -> Option<DocV> {
    match seen(p, name, at) {
        Some(DeclV::Param(_)) => match fn_around(p, at, p.len() as int) {
            Some(d) => match doc_at(cs, d.name_span) {
                Some(doc) => match note_on(doc.params, name, 0) {
                    Some(text) => summary(text),
                    None => None,
                },
                None => None,
            },
            None => None,
        },
        Some(d) => documented(cs, d),
        None => None,
    }
}

pub(crate) fn find_note(notes: &Vec<Note>, name: &str) -> (r: Option<String>)
    ensures
        (match r { Some(r) => Some(r@), None => None }) == note_on(notes_v(notes@), name@, 0),
{
    let mut i: usize = 0;
    while i < notes.len()
        invariant
            i <= notes@.len(),
            note_on(notes_v(notes@), name@, 0) == note_on(notes_v(notes@), name@, i as int),
        decreases notes@.len() - i,
    {
        assert(notes_v(notes@)[i as int] == notes@[i as int]@);
        if same(notes[i].name.as_str(), name) {
            return Some(notes[i].text.as_str().to_owned());
        }
        i += 1;
    }
    None
}

fn find_doc_at(source: &str, span: Span) -> (r: Option<Doc>)
    ensures
        opt_doc(r) == doc_at(source@, span),
{
    let cs = chars_of(source);
    let n = char_index(&cs, span.start);
    let at = place(&cs, n);
    let rs = rows_of(&cs);
    find_doc_above(&rs, at.line)
}

fn find_doc_of_name(source: &str, span: Span, name: &str) -> (r: Option<Doc>)
    ensures
        opt_doc(r) == doc_of_name(source@, span, name@),
{
    let cs = chars_of(source);
    let word = chars_of(name);
    let a = char_index(&cs, span.start);
    let len: usize = cs.len();
    if word.len() > len - a {
        return None;
    }
    let mut i: usize = 0;
    while i < word.len()
        invariant
            i <= word@.len(),
            word@ == name@,
            cs@ == source@,
            a == char_at(source@, span.start as int),
            a + word@.len() <= cs@.len(),
            len == cs@.len(),
            forall|j: int| 0 <= j < i ==> #[trigger] word@[j] == cs@[a + j],
        decreases word@.len() - i,
    {
        if word[i] != cs[a + i] {
            assert(source@.subrange(a as int, a + name@.len())[i as int] == cs@[a + i]);
            return None;
        }
        i += 1;
    }
    assert(source@.subrange(a as int, a + name@.len()) =~= name@);
    find_doc_at(source, span)
}

/// What a text says of what it declares.
pub(crate) fn doc_of<'a>(source: &str, d: &Decl<'a>) -> (r: Option<Doc>)
    ensures
        opt_doc(r) == documented(source@, d@),
{
    match d {
        Decl::Fn(d) => find_doc_of_name(source, d.name_span, d.name.as_str()),
        Decl::Method(d) => find_doc_of_name(source, d.name_span, d.name.as_str()),
        Decl::Class(d) => find_doc_of_name(source, d.name_span, d.name.as_str()),
        Decl::Field(f) => find_doc_of_name(source, f.name_span, f.name.as_str()),
        Decl::Let(s) => match &s.kind {
            StmtKind::Let { name, name_span, .. } => find_doc_of_name(source, *name_span, name.as_str()),
            _ => None,
        },
        _ => None,
    }
}

/// What a program says of a name at a place.
pub fn find_doc(source: &str, p: &Vec<Stmt>, name: &str, at: usize) -> (r: Option<Doc>)
    ensures
        opt_doc(r) == said_of(source@, p@, name@, at as int),
{
    match find_seen(p, name, at) {
        Some(Decl::Param(_)) => match find_fn_around(p, at) {
            Some(d) => match find_doc_at(source, d.name_span) {
                Some(doc) => match find_note(&doc.params, name) {
                    Some(note) => summary_of(note.as_str()),
                    None => None,
                },
                None => None,
            },
            None => None,
        },
        Some(d) => doc_of(source, &d),
        None => None,
    }
}

} // verus!
