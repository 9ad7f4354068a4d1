//! A document as the editor holds it.

use crate::compile_recovering;
use crate::error::errs_v;
use crate::lsp::cursor::{path_ending, path_ending_at, trailing_literal, trailing_literal_type};
use crate::lsp::infer::{class_around, class_path, may_be_offered, symbols_of, type_of_path, Types};
use crate::lsp::navigate::{ends_in, file_of_module, module_file, name_ends_in, Document};
use crate::lsp::position::{char_of, char_of_position, opt_text, Range};
use crate::lsp::scope::{members, scope};
use crate::lsp::symbols::{
    module_members, module_symbols, symbols_v, Kind, Symbol, SymbolV, Type, TypeV,
};
use crate::recovered;
use crate::runtime::value::{is_shipped, ships};
use crate::syntax::ast::{
    class_decl_v, fn_decl_v, import_names_v, stmt_v, stmts_v, ImportName, ImportNameV, Stmt,
    StmtKind, StmtKindV, StmtV,
};
use crate::syntax::token::Span;
use crate::text::{cat3, chars_of, same, string_of};
use std::rc::Rc;
use vstd::prelude::*;

verus! {

/// A document: its text, what can be read of it, and what is known of the program, kept from
/// the last text that had no error.
#[derive(Debug)]
pub struct DocumentState {
    pub text: String,
    pub ast: Option<Rc<Vec<Stmt>>>,
    pub types: Option<Types>,
    /// What the other documents that are open offer an import.
    pub beside: Vec<Beside>,
}

/// What a document offers an import.
#[derive(Debug)]
pub struct Beside {
    pub uri: String,
    pub offers: Vec<Symbol>,
}

/// The model of a [`Beside`].
pub struct BesideV {
    pub uri: Seq<char>,
    pub offers: Seq<SymbolV>,
}

impl View for Beside {
    type V = BesideV;

    open spec fn view(&self) -> BesideV {
        BesideV { uri: self.uri@, offers: symbols_v(self.offers@) }
    }
}

pub open spec fn besides_v(s: Seq<Beside>) -> Seq<BesideV> {
    s.map_values(|b: Beside| b@)
}

/// Those of the first `n` symbols that a file lets others import.
pub open spec fn exported(all: Seq<SymbolV>, n: int) -> Seq<SymbolV>
    decreases n,
{
    if 0 < n <= all.len() {
        if all[n - 1].visibility.is_exported() {
            exported(all, n - 1).push(all[n - 1])
        } else {
            exported(all, n - 1)
        }
    } else {
        Seq::empty()
    }
}

/// What a document offers an import: the names that its end sees and that others may import.
pub open spec fn offers_of(state: DocumentState) -> Seq<SymbolV> {
    match known(state.types) {
        Some(p) => {
            let ds = scope(p, usize::MAX as int, p.len() as int);
            let all = symbols_of(known_text(state.types), p, ds, ds.len() as int);
            exported(all, all.len() as int)
        },
        None => Seq::empty(),
    }
}

/// What those of the first `n` documents offer that are not the one of a name.
pub open spec fn besides(docs: Seq<Document>, uri: Option<Seq<char>>, n: int) -> Seq<BesideV>
    decreases n,
{
    if 0 < n <= docs.len() {
        if Some(docs[n - 1].uri@) == uri {
            besides(docs, uri, n - 1)
        } else {
            besides(docs, uri, n - 1).push(
                BesideV { uri: docs[n - 1].uri@, offers: offers_of(docs[n - 1].state) },
            )
        }
    } else {
        Seq::empty()
    }
}

/// What the first of the documents from `i` on that is the file of a module offers.
pub open spec fn offers_beside(s: Seq<BesideV>, module: Seq<char>, i: int) -> Seq<SymbolV>
    decreases s.len() - i,
{
    if i < 0 || i >= s.len() {
        Seq::empty()
    } else if ends_in(s[i].uri, module_file(module)) {
        s[i].offers
    } else {
        offers_beside(s, module, i + 1)
    }
}

/// What a module offers an import: one that the language ships, or the file of its name.
pub open spec fn importable(state: DocumentState, module: Seq<char>) -> Seq<SymbolV> {
    if is_shipped(module) {
        module_members(module)
    } else {
        offers_beside(besides_v(state.beside@), module, 0)
    }
}

/// The program that what is known is known of.
pub open spec fn known(types: Option<Types>) -> Option<Seq<Stmt>> {
    match types {
        Some(types) => Some(types.program@),
        None => None,
    }
}

/// The text that what is known was read from.
pub open spec fn known_text(types: Option<Types>) -> Seq<char> {
    match types {
        Some(types) => types.text@,
        None => Seq::empty(),
    }
}

/// The program that an open document, other than the one named, gives for a module.
pub open spec fn module_program(docs: Seq<Document>, uri: Option<Seq<char>>, module: Seq<char>, i: int) -> Seq<
    StmtV,
>
    decreases docs.len() - i,
{
    if i < 0 || i >= docs.len() {
        Seq::empty()
    } else if Some(docs[i].uri@) != uri && ends_in(docs[i].uri@, module_file(module)) {
        match docs[i].state.ast {
            Some(program) => stmts_v(program@),
            None => Seq::empty(),
        }
    } else {
        module_program(docs, uri, module, i + 1)
    }
}

/// Whether a statement declares something an importer can know the type of: a class, or a
/// function that says what it returns.
pub open spec fn gives(s: StmtV, name: Seq<char>) -> bool {
    match s.kind {
        StmtKindV::Class(d) => d.name == name,
        StmtKindV::Fn(d) => d.name == name && d.result is Some,
        _ => false,
    }
}

/// The last of the first `n` statements that gives a name, as it stands behind an import.
pub open spec fn given(ss: Seq<StmtV>, name: Seq<char>, at: Span, n: int) -> Seq<StmtV>
    decreases n,
{
    if 0 < n <= ss.len() {
        if gives(ss[n - 1], name) {
            seq![StmtV { kind: ss[n - 1].kind, span: at }]
        } else {
            given(ss, name, at, n - 1)
        }
    } else {
        Seq::empty()
    }
}

/// What the first `n` names of an import stand for.
pub open spec fn all_given(ss: Seq<StmtV>, names: Seq<ImportNameV>, at: Span, n: int) -> Seq<StmtV>
    decreases n,
{
    if 0 < n <= names.len() {
        all_given(ss, names, at, n - 1) + given(ss, names[n - 1].name, at, ss.len() as int)
    } else {
        Seq::empty()
    }
}

/// The place right behind a statement.
pub open spec fn behind(s: StmtV) -> Span {
    Span { start: s.span.end, end: s.span.end }
}

/// The first `n` statements of a program, each import followed by what the open documents
/// show that it brings.
pub open spec fn linked(docs: Seq<Document>, uri: Option<Seq<char>>, ss: Seq<StmtV>, n: int) -> Seq<StmtV>
    decreases n,
{
    if 0 < n <= ss.len() {
        let before = linked(docs, uri, ss, n - 1).push(ss[n - 1]);
        match ss[n - 1].kind {
            StmtKindV::Import { module, module_span, names } => match names {
                Some(names) => before + all_given(
                    module_program(docs, uri, module, 0),
                    names,
                    behind(ss[n - 1]),
                    names.len() as int,
                ),
                None => before,
            },
            _ => before,
        }
    } else {
        Seq::empty()
    }
}

/// Whether a document holds a text and what can be read of it, and knows what that shows
/// beside the other documents that are open; or, where the text has an error or says nothing,
/// what was known before, if anything was, and of which text.
pub open spec fn renewed(
    r: DocumentState,
    text: Seq<char>,
    before: Option<Types>,
    docs: Seq<Document>,
    uri: Option<Seq<char>>,
) -> bool {
    let (program, errors) = recovered(text);
    &&& r.text@ == text
    &&& besides_v(r.beside@) == besides(docs, uri, docs.len() as int)
    &&& r.ast is Some <==> program.len() > 0
    &&& r.ast is Some ==> stmts_v(r.ast->0@) == program
    &&& if program.len() > 0 && (errors.len() == 0 || before is None) {
        &&& known(r.types) is Some
        &&& known_text(r.types) == text
        &&& stmts_v(known(r.types)->0) == linked(docs, uri, program, program.len() as int)
    } else {
        &&& known(r.types) == known(before)
        &&& known_text(r.types) == known_text(before)
    }
}

/// The type of what a text ends in at a place.
pub open spec fn type_before(program: Option<Seq<Stmt>>, before: Seq<char>, at: int) -> TypeV {
    let by_path = match (path_ending(before), program) {
        (Some(path), Some(p)) => type_of_path(p, path, at),
        _ => TypeV::Unknown,
    };
    if by_path.known() {
        by_path
    } else {
        trailing_literal(before)
    }
}

/// Whether a text ends in the name of a class.
pub open spec fn on_class(program: Option<Seq<Stmt>>, before: Seq<char>, at: int) -> bool {
    match (path_ending(before), program) {
        (Some(path), Some(p)) => class_path(p, path, at),
        _ => false,
    }
}

/// Those of the first `n` members of a class that may be offered at a place. A class itself
/// has no fields.
pub open spec fn offered(p: Seq<Stmt>, all: Seq<SymbolV>, class: Seq<char>, fields: bool, at: int, n: int) -> Seq<SymbolV>
    decreases n,
{
    if 0 < n <= all.len() {
        let before = offered(p, all, class, fields, at, n - 1);
        let one = all[n - 1];
        if (fields || one.kind != Kind::Field) && may_be_offered(
            p,
            one.visibility,
            class,
            class_around(p, at, p.len() as int),
        ) {
            before.push(one)
        } else {
            before
        }
    } else {
        Seq::empty()
    }
}

/// What may follow a point behind a text at a place.
pub open spec fn after_text(cs: Seq<char>, program: Option<Seq<Stmt>>, before: Seq<char>, at: int) -> Seq<SymbolV> {
    match type_before(program, before, at) {
        TypeV::Class(class) => match program {
            Some(p) => {
                let ds = members(p, class, p.len());
                let all = symbols_of(cs, p, ds, ds.len() as int);
                offered(p, all, class, !on_class(program, before, at), at, all.len() as int)
            },
            None => Seq::empty(),
        },
        TypeV::Module(m) => module_members(m),
        TypeV::Unknown => Seq::empty(),
    }
}

/// What can be read of a text, where anything can.
pub fn parse_ast_lenient(source: &str) -> (r: Option<Rc<Vec<Stmt>>>)
    ensures
        match r {
            Some(ast) => stmts_v(ast@) == recovered(source@).0 && ast@.len() > 0,
            None => recovered(source@).0.len() == 0,
        },
{
    let (stmts, _errors) = compile_recovering(source);
    assert(stmts_v(stmts@).len() == stmts@.len());
    if stmts.len() > 0 {
        Some(Rc::new(stmts))
    } else {
        None
    }
}

/// The document that gives the program of a module.
fn find_program<'a>(documents: &'a Vec<Document>, uri: Option<&str>, module: &str) -> (r: Option<&'a Rc<Vec<Stmt>>>)
    ensures
        module_program(
            documents@,
            match uri {
                Some(uri) => Some(uri@),
                None => None,
            },
            module@,
            0,
        ) == match r {
            Some(program) => stmts_v(program@),
            None => Seq::empty(),
        },
{
    let ghost own = match uri {
        Some(uri) => Some(uri@),
        None => None,
    };
    let file = file_of_module(module);
    let mut i: usize = 0;
    while i < documents.len()
        invariant
            i <= documents@.len(),
            file@ == module_file(module@),
            own == match uri {
                Some(uri) => Some(uri@),
                None => None,
            },
            module_program(documents@, own, module@, 0) == module_program(
                documents@,
                own,
                module@,
                i as int,
            ),
        decreases documents@.len() - i,
    {
        let is_own = match uri {
            Some(uri) => same(documents[i].uri.as_str(), uri),
            None => false,
        };
        if !is_own && name_ends_in(documents[i].uri.as_str(), file.as_str()) {
            return match &documents[i].state.ast {
                Some(program) => Some(program),
                None => None,
            };
        }
        i += 1;
    }
    None
}

/// Adds the last statement that gives a name.
fn push_given(ss: &Vec<Stmt>, name: &str, at: Span, out: &mut Vec<Stmt>)
    ensures
        stmts_v(final(out)@) == stmts_v(old(out)@) + given(
            stmts_v(ss@),
            name@,
            at,
            stmts_v(ss@).len() as int,
        ),
{
    let ghost before = stmts_v(out@);
    let ghost all = stmts_v(ss@);
    let ghost goal = given(all, name@, at, all.len() as int);
    assert(all.len() == ss@.len());
    let mut i: usize = ss.len();
    while i > 0
        invariant
            i <= ss@.len(),
            all == stmts_v(ss@),
            all.len() == ss@.len(),
            goal == given(all, name@, at, all.len() as int),
            goal == given(all, name@, at, i as int),
            before == stmts_v(old(out)@),
            stmts_v(out@) == before,
        decreases i,
    {
        let s = &ss[i - 1];
        assert(all[i - 1] == stmt_v(*s));
        match &s.kind {
            StmtKind::Class(d) => {
                assert(stmt_v(*s).kind == StmtKindV::Class(Box::new(class_decl_v(**d))));
                if same(d.name.as_str(), name) {
                    let one = Stmt { kind: StmtKind::Class(Rc::clone(d)), span: at };
                    out.push(one);
                    assert(stmts_v(out@) =~= before + goal);
                    return ;
                }
            },
            StmtKind::Fn(d) => {
                assert(stmt_v(*s).kind == StmtKindV::Fn(Box::new(fn_decl_v(**d))));
                if same(d.name.as_str(), name) && d.result.is_some() {
                    let one = Stmt { kind: StmtKind::Fn(Rc::clone(d)), span: at };
                    out.push(one);
                    assert(stmts_v(out@) =~= before + goal);
                    return ;
                }
            },
            _ => {},
        }
        i -= 1;
    }
    assert(stmts_v(out@) =~= before + goal);
}

/// Adds what the names of an import stand for.
fn push_all_given(ss: &Vec<Stmt>, names: &Vec<ImportName>, at: Span, out: &mut Vec<Stmt>)
    ensures
        stmts_v(final(out)@) == stmts_v(old(out)@) + all_given(
            stmts_v(ss@),
            import_names_v(names@),
            at,
            import_names_v(names@).len() as int,
        ),
{
    let ghost before = stmts_v(out@);
    let ghost all = import_names_v(names@);
    assert(all.len() == names@.len());
    let mut i: usize = 0;
    while i < names.len()
        invariant
            i <= names@.len(),
            all == import_names_v(names@),
            all.len() == names@.len(),
            stmts_v(out@) =~= before + all_given(stmts_v(ss@), all, at, i as int),
        decreases names@.len() - i,
    {
        assert(all[i as int].name == names@[i as int].name@);
        push_given(ss, names[i].name.as_str(), at, out);
        i += 1;
    }
}

/// A program with each import followed by what the open documents show that it brings.
fn link(program: Vec<Stmt>, uri: Option<&str>, documents: &Vec<Document>) -> (r: Vec<Stmt>)
    ensures
        stmts_v(r@) == linked(
            documents@,
            match uri {
                Some(uri) => Some(uri@),
                None => None,
            },
            stmts_v(program@),
            stmts_v(program@).len() as int,
        ),
{
    let ghost own = match uri {
        Some(uri) => Some(uri@),
        None => None,
    };
    let ghost all = stmts_v(program@);
    let mut rest = program;
    let ghost mut n: int = 0;
    let mut out: Vec<Stmt> = Vec::new();
    assert(stmts_v(out@) =~= Seq::empty());
    assert(all.skip(0) =~= all);
    while rest.len() > 0
        invariant
            0 <= n <= all.len(),
            own == match uri {
                Some(uri) => Some(uri@),
                None => None,
            },
            stmts_v(rest@) == all.skip(n),
            stmts_v(out@) == linked(documents@, own, all, n),
        decreases rest@.len(),
    {
        let ghost before = stmts_v(out@);
        assert(stmts_v(rest@).len() == rest@.len());
        assert(stmts_v(rest@)[0] == stmt_v(rest@[0]));
        let ghost next = stmts_v(rest@).skip(1);
        let s = rest.remove(0);
        assert(stmts_v(rest@) =~= next);
        assert(next =~= all.skip(n + 1));
        let at = Span { start: s.span.end, end: s.span.end };
        let mut more: Vec<Stmt> = Vec::new();
        assert(stmts_v(more@) =~= Seq::empty());
        if let StmtKind::Import { module, module_span, names } = &s.kind {
            if let Some(names) = names {
                assert(stmt_v(s).kind == StmtKindV::Import {
                    module: module@,
                    module_span: *module_span,
                    names: Some(import_names_v(names@)),
                });
                match find_program(documents, uri, module.as_str()) {
                    Some(theirs) => push_all_given(theirs, names, at, &mut more),
                    None => {
                        let none: Vec<Stmt> = Vec::new();
                        assert(stmts_v(none@) =~= Seq::empty());
                        push_all_given(&none, names, at, &mut more);
                    },
                }
            }
        }
        let ghost added = stmts_v(more@);
        out.push(s);
        assert(stmts_v(out@) =~= before.push(stmt_v(s)));
        let ghost with = stmts_v(out@);
        out.append(&mut more);
        assert(stmts_v(out@) =~= with + added);
        proof {
            n = n + 1;
            assert(all[n - 1] == stmt_v(s));
            assert(stmts_v(out@) =~= linked(documents@, own, all, n));
        }
    }
    assert(stmts_v(rest@).len() == rest@.len());
    out
}

fn keep_offered(types: &Types, all: &Vec<Symbol>, class: &str, fields: bool, at: usize) -> (r: Vec<Symbol>)
    ensures
        symbols_v(r@) == offered(
            types.program@,
            symbols_v(all@),
            class@,
            fields,
            at as int,
            symbols_v(all@).len() as int,
        ),
{
    let around = types.class_at(at);
    let ghost p = types.program@;
    let ghost models = symbols_v(all@);
    let mut out: Vec<Symbol> = Vec::new();
    let mut i: usize = 0;
    assert(symbols_v(out@) =~= Seq::empty());
    while i < all.len()
        invariant
            i <= all@.len(),
            p == types.program@,
            models == symbols_v(all@),
            opt_text(around) == class_around(p, at as int, p.len() as int),
            symbols_v(out@) == offered(p, models, class@, fields, at as int, i as int),
        decreases all@.len() - i,
    {
        let one = &all[i];
        assert(models[i as int] == one@);
        let ghost before = symbols_v(out@);
        let from = match &around {
            Some(a) => Some(a.as_str()),
            None => None,
        };
        if (fields || one.kind != Kind::Field) && types.may_offer(one.visibility, class, from) {
            out.push(one.copy());
            assert(symbols_v(out@) =~= before.push(models[i as int]));
        }
        i += 1;
    }
    out
}

fn copied_symbols(all: &Vec<Symbol>) -> (r: Vec<Symbol>)
    ensures
        symbols_v(r@) == symbols_v(all@),
{
    let ghost models = symbols_v(all@);
    let mut out: Vec<Symbol> = Vec::new();
    let mut i: usize = 0;
    while i < all.len()
        invariant
            i <= all@.len(),
            models == symbols_v(all@),
            symbols_v(out@) =~= models.take(i as int),
        decreases all@.len() - i,
    {
        let ghost before = symbols_v(out@);
        let one = all[i].copy();
        assert(models[i as int] == all@[i as int]@);
        out.push(one);
        assert(symbols_v(out@) =~= before.push(one@));
        i += 1;
    }
    assert(models.take(i as int) =~= models);
    out
}

fn exported_of(all: Vec<Symbol>) -> (r: Vec<Symbol>)
    ensures
        symbols_v(r@) == exported(symbols_v(all@), symbols_v(all@).len() as int),
{
    let ghost models = symbols_v(all@);
    assert(models.len() == all@.len());
    let mut out: Vec<Symbol> = Vec::new();
    let mut i: usize = 0;
    assert(symbols_v(out@) =~= Seq::empty());
    while i < all.len()
        invariant
            i <= all@.len(),
            models == symbols_v(all@),
            symbols_v(out@) == exported(models, i as int),
        decreases all@.len() - i,
    {
        let one = &all[i];
        assert(models[i as int] == one@);
        let ghost before = symbols_v(out@);
        if one.visibility.exported() {
            out.push(one.copy());
            assert(symbols_v(out@) =~= before.push(models[i as int]));
        }
        i += 1;
    }
    out
}

/// What the documents other than one offer.
fn others_offer(documents: &Vec<Document>, uri: Option<&str>) -> (r: Vec<Beside>)
    ensures
        besides_v(r@) == besides(
            documents@,
            match uri {
                Some(uri) => Some(uri@),
                None => None,
            },
            documents@.len() as int,
        ),
{
    let ghost own = match uri {
        Some(uri) => Some(uri@),
        None => None,
    };
    let mut out: Vec<Beside> = Vec::new();
    let mut i: usize = 0;
    assert(besides_v(out@) =~= Seq::empty());
    while i < documents.len()
        invariant
            i <= documents@.len(),
            own == match uri {
                Some(uri) => Some(uri@),
                None => None,
            },
            besides_v(out@) == besides(documents@, own, i as int),
        decreases documents@.len() - i,
    {
        let doc = &documents[i];
        let is_own = match uri {
            Some(uri) => same(doc.uri.as_str(), uri),
            None => false,
        };
        if !is_own {
            let ghost before = besides_v(out@);
            let offers = match &doc.state.types {
                Some(types) => exported_of(types.in_scope(usize::MAX)),
                None => {
                    let none: Vec<Symbol> = Vec::new();
                    assert(symbols_v(none@) =~= Seq::empty());
                    none
                },
            };
            let one = Beside { uri: doc.uri.as_str().to_owned(), offers };
            out.push(one);
            assert(besides_v(out@) =~= before.push(one@));
        }
        i += 1;
    }
    out
}

impl DocumentState {
    /// What a module offers an import.
    pub fn importable(&self, module: &str) -> (r: Vec<Symbol>)
        ensures
            symbols_v(r@) == importable(*self, module@),
    {
        if ships(module) {
            return module_symbols(module);
        }
        let file = file_of_module(module);
        let ghost all = besides_v(self.beside@);
        let mut i: usize = 0;
        while i < self.beside.len()
            invariant
                i <= self.beside@.len(),
                all == besides_v(self.beside@),
                !is_shipped(module@),
                file@ == module_file(module@),
                offers_beside(all, module@, 0) == offers_beside(all, module@, i as int),
            decreases self.beside@.len() - i,
        {
            assert(all[i as int] == self.beside@[i as int]@);
            if name_ends_in(self.beside[i].uri.as_str(), file.as_str()) {
                return copied_symbols(&self.beside[i].offers);
            }
            i += 1;
        }
        assert(all.len() == self.beside@.len());
        let none: Vec<Symbol> = Vec::new();
        assert(symbols_v(none@) =~= Seq::empty());
        none
    }

    /// A document with a new text, on its own. What was known of the text before stays known
    /// where the new one has an error.
    pub fn new(text: String, previous: Option<DocumentState>) -> (r: DocumentState)
        ensures
            renewed(
                r,
                text@,
                match previous {
                    Some(previous) => previous.types,
                    None => None,
                },
                Seq::empty(),
                None,
            ),
    {
        let none: Vec<Document> = Vec::new();
        assert(none@ =~= Seq::empty());
        DocumentState::new_with_documents(text, None, &none, previous)
    }

    /// A document with a new text, among the others that are open. What was known of the
    /// text before stays known where the new one has an error.
    pub fn new_with_documents(
        text: String,
        uri: Option<&str>,
        documents: &Vec<Document>,
        previous: Option<DocumentState>,
    ) -> (r: DocumentState)
        ensures
            renewed(
                r,
                text@,
                match previous {
                    Some(previous) => previous.types,
                    None => None,
                },
                documents@,
                match uri {
                    Some(uri) => Some(uri@),
                    None => None,
                },
            ),
    {
        let kept = match previous {
            Some(previous) => previous.types,
            None => None,
        };
        let beside = others_offer(documents, uri);
        let (program, errors) = compile_recovering(text.as_str());
        assert(stmts_v(program@).len() == program@.len());
        assert(errs_v(errors@).len() == errors@.len());
        if program.len() == 0 {
            return DocumentState { text, ast: None, types: kept, beside };
        }
        let ast = Some(Rc::new(program));
        if errors.len() > 0 && kept.is_some() {
            return DocumentState { text, ast, types: kept, beside };
        }
        let (again, _errors) = compile_recovering(text.as_str());
        let types = Some(Types { program: Rc::new(link(again, uri, documents)), text: Rc::new(text.as_str().to_owned()) });
        DocumentState { text, ast, types, beside }
    }

    pub fn text(&self) -> (r: &str)
        ensures
            r@ == self.text@,
    {
        self.text.as_str()
    }

    /// The program of the text, where it can be read.
    pub fn ast(&self) -> (r: Option<&Vec<Stmt>>)
        ensures
            match r {
                Some(program) => self.ast is Some && self.ast->0@ == program@,
                None => self.ast is None,
            },
    {
        match &self.ast {
            Some(program) => Some(&**program),
            None => None,
        }
    }

    /// The type of what a text ends in at a place.
    pub fn type_of(&self, before: &str, at: usize) -> (r: Type)
        ensures
            r@ == type_before(known(self.types), before@, at as int),
    {
        if let Some(path) = path_ending_at(before) {
            if let Some(types) = &self.types {
                let found = types.of_path(path.as_str(), at);
                if found.is_known() {
                    return found;
                }
            }
        }
        trailing_literal_type(before)
    }

    /// What may follow a point behind a text at a place.
    pub fn members_before(&self, before: &str, at: usize) -> (r: Vec<Symbol>)
        ensures
            symbols_v(r@) == after_text(known_text(self.types), known(self.types), before@, at as int),
    {
        let mut on_class_object = false;
        if let Some(path) = path_ending_at(before) {
            if let Some(types) = &self.types {
                on_class_object = types.names_a_class(path.as_str(), at);
            }
        }
        assert(on_class_object == on_class(known(self.types), before@, at as int));
        match self.type_of(before, at) {
            Type::Class(class) => match &self.types {
                Some(types) => {
                    let all = types.members_of(class.as_str());
                    keep_offered(types, &all, class.as_str(), !on_class_object, at)
                },
                None => {
                    let none: Vec<Symbol> = Vec::new();
                    assert(symbols_v(none@) =~= Seq::empty());
                    none
                },
            },
            Type::Module(m) => module_symbols(m.as_str()),
            Type::Unknown => {
                let none: Vec<Symbol> = Vec::new();
                assert(symbols_v(none@) =~= Seq::empty());
                none
            },
        }
    }
}

// -- changes ---------------------------------------------------------------------------------------------------------

/// A change to a text: to a part of it, or to all of it.
#[derive(Debug)]
pub struct Change {
    pub range: Option<Range>,
    pub text: String,
}

/// The model of a [`Change`].
pub struct ChangeV {
    pub range: Option<Range>,
    pub text: Seq<char>,
}

impl View for Change {
    type V = ChangeV;

    open spec fn view(&self) -> ChangeV {
        ChangeV { range: self.range, text: self.text@ }
    }
}

pub open spec fn changes_v(s: Seq<Change>) -> Seq<ChangeV> {
    Seq::new(s.len(), |i: int| s[i]@)
}

/// A text once a change is made to it. A range that ends before it starts changes nothing.
pub open spec fn changed(cs: Seq<char>, change: ChangeV) -> Seq<char> {
    match change.range {
        Some(range) => {
            let a = char_of(cs, range.start);
            let b = char_of(cs, range.end);
            if a <= b {
                cs.take(a) + change.text + cs.skip(b)
            } else {
                cs
            }
        },
        None => change.text,
    }
}

/// A text once the first `n` of some changes are made to it, one after another.
pub open spec fn all_changed(cs: Seq<char>, changes: Seq<ChangeV>, n: int) -> Seq<char>
    decreases n,
{
    if 0 < n <= changes.len() {
        changed(all_changed(cs, changes, n - 1), changes[n - 1])
    } else {
        cs
    }
}

fn apply(text: String, change: &Change) -> (r: String)
    ensures
        r@ == changed(text@, change@),
{
    match change.range {
        None => change.text.as_str().to_owned(),
        Some(range) => {
            let cs = chars_of(text.as_str());
            let a = char_of_position(&cs, range.start);
            let b = char_of_position(&cs, range.end);
            if a <= b {
                let front = string_of(&cs, 0, a);
                assert(front@ =~= cs@.take(a as int));
                let back = string_of(&cs, b, cs.len());
                assert(back@ =~= cs@.skip(b as int));
                cat3(front.as_str(), change.text.as_str(), back.as_str())
            } else {
                text
            }
        },
    }
}

/// A text once some changes are made to it, one after another.
pub fn apply_changes(text: &str, changes: &Vec<Change>) -> (r: String)
    ensures
        r@ == all_changed(text@, changes_v(changes@), changes@.len() as int),
{
    let mut r = text.to_owned();
    let ghost all = changes_v(changes@);
    let mut i: usize = 0;
    while i < changes.len()
        invariant
            i <= changes@.len(),
            all == changes_v(changes@),
            r@ == all_changed(text@, all, i as int),
        decreases changes@.len() - i,
    {
        assert(all[i as int] == changes@[i as int]@);
        r = apply(r, &changes[i]);
        i += 1;
    }
    r
}

/// A change leaves the text before its range and the text behind it as they were.
pub proof fn law_a_change_keeps_what_is_outside_it(cs: Seq<char>, change: ChangeV)
    requires
        change.range is Some,
        0 <= char_of(cs, change.range->0.start) <= char_of(cs, change.range->0.end) <= cs.len(),
    ensures
        ({
            let a = char_of(cs, change.range->0.start);
            let b = char_of(cs, change.range->0.end);
            let r = changed(cs, change);
            &&& r.len() == cs.len() - (b - a) + change.text.len()
            &&& r.take(a) == cs.take(a)
            &&& r.skip(a + change.text.len()) == cs.skip(b)
            &&& r.subrange(a, a + change.text.len()) == change.text
        }),
{
    let a = char_of(cs, change.range->0.start);
    let b = char_of(cs, change.range->0.end);
    let r = changed(cs, change);
    assert(r.take(a) =~= cs.take(a));
    assert(r.skip(a + change.text.len()) =~= cs.skip(b));
    assert(r.subrange(a, a + change.text.len()) =~= change.text);
}

} // verus!
