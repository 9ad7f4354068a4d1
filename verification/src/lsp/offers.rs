//! What holds of what an editor is offered and told: completions, hovers, and the answers of the
//! server.

use crate::lsp::actions::{annotate, nullable_fix};
use crate::lsp::completion::{anything, classes_among, keyword_item, offered_item};
use crate::lsp::cursor::before_last_dot;
use crate::lsp::describe::{decl_words, declaration};
use crate::lsp::diagnostics::DiagnosticV;
use crate::lsp::document::{
    all_changed, changed, changes_v, exported, known, type_before, Change, DocumentState,
};
use crate::lsp::hover::{byte_at, hover_at, shown, word_doc, HoverV};
use crate::lsp::item::{item, law_what_was_offered_stays_offered, offers, ItemKind, ItemV};
use crate::lsp::members::{method_detail, with_builtins, with_class, with_methods, with_natives};
use crate::lsp::names::{names_variable, one_stmt, stmt_items, with_rows, with_words};
use crate::lsp::navigate::{all_references, name_range, Document, LocationV};
use crate::lsp::position::{position_of, word_at, Position};
use crate::lsp::receiver::{assigned, assigned_class, last_assigned, shown_class};
use crate::lsp::rows::{starts, trim, trim_end};
use crate::lsp::semantic::{
    expr_tokens, CLASS, FUNCTION, KEYWORD, PROPERTY, RawSemanticToken, VARIABLE,
};
use crate::lsp::server::{document, reply, Notice, ReplyV, Request};
use crate::lsp::signature::{ast_signature, param_names};
use crate::lsp::symbols::{global_symbols, Kind, SymbolV};
use crate::lsp::views::{law_a_signature_names_the_parameters, names_itself};
use crate::runtime::value::{all_builtins, native_methods, Builtin};
use crate::syntax::ast::{Expr, ExprKind, FnDecl, Stmt, StmtKind, Visibility};
use crate::syntax::token::{all_keywords, Span};
use crate::text::{contains, stands_at};
use std::rc::Rc;
use vstd::prelude::*;

verus! {

// -- behind a point -----------------------------------------------------------------------------------

proof fn lemma_methods_stay(items: Seq<ItemV>, class: Seq<char>, ms: Seq<Rc<FnDecl>>, n: int, label: Seq<char>)
    requires
        0 <= n <= ms.len(),
        offers(items, label) || exists|k: int| 0 <= k < n && (#[trigger] ms[k]).name@ == label,
    ensures
        offers(with_methods(items, class, ms, n), label),
    decreases n,
{
    if n > 0 {
        let name = ms[n - 1].name@;
        let one = item(name, ItemKind::Method, method_detail(class, name));
        let before = with_methods(items, class, ms, n - 1);
        law_what_was_offered_stays_offered(before, one, label);
        if name != label {
            if !offers(items, label) {
                let k = choose|k: int| 0 <= k < n && (#[trigger] ms[k]).name@ == label;
                assert(k < n - 1 && ms[k].name@ == label);
            }
            lemma_methods_stay(items, class, ms, n - 1, label);
        }
    }
}

proof fn lemma_class_stays(items: Seq<ItemV>, ss: Seq<Stmt>, target: Seq<char>, n: int, depth: nat, label: Seq<char>)
    requires
        0 <= n <= ss.len(),
        offers(items, label),
    ensures
        offers(with_class(items, ss, target, n, depth), label),
    decreases depth, n,
{
    if n > 0 {
        lemma_class_stays(items, ss, target, n - 1, depth, label);
        let before = with_class(items, ss, target, n - 1, depth);
        if let StmtKind::Class(decl) = ss[n - 1].kind {
            let ms = decl.methods@;
            lemma_methods_stay(before, decl.name@, ms, ms.len() as int, label);
            let own = with_methods(before, decl.name@, ms, ms.len() as int);
            if let Some(parent) = decl.parent {
                if depth > 0 {
                    lemma_class_stays(own, ss, parent@, ss.len() as int, (depth - 1) as nat, label);
                }
            }
        }
    }
}

/// Behind a value of a class every method that the class declares is offered, and every method
/// that the class above declares.
pub proof fn law_the_methods_of_a_class_are_offered(
    items: Seq<ItemV>,
    ss: Seq<Stmt>,
    target: Seq<char>,
    n: int,
    depth: nat,
    i: int,
    label: Seq<char>,
)
    requires
        0 <= i < n <= ss.len(),
        ss[i].kind is Class,
        ss[i].kind->Class_0.name@ == target,
        ({
            let own = ss[i].kind->Class_0;
            ||| exists|k: int| 0 <= k < own.methods@.len() && (#[trigger] own.methods@[k]).name@ == label
            ||| depth > 0 && own.parent is Some && exists|a: int|
                {
                    &&& 0 <= a < ss.len()
                    &&& (#[trigger] ss[a]).kind is Class
                    &&& ss[a].kind->Class_0.name@ == own.parent->0@
                    &&& exists|k: int|
                        0 <= k < ss[a].kind->Class_0.methods@.len() && (#[trigger] ss[a].kind->Class_0.methods@[k]).name@
                            == label
                }
        }),
    ensures
        offers(with_class(items, ss, target, n, depth), label),
    decreases depth, n,
{
    let before = with_class(items, ss, target, n - 1, depth);
    if i < n - 1 {
        law_the_methods_of_a_class_are_offered(items, ss, target, n - 1, depth, i, label);
        if let StmtKind::Class(decl) = ss[n - 1].kind {
            let ms = decl.methods@;
            lemma_methods_stay(before, decl.name@, ms, ms.len() as int, label);
            let own = with_methods(before, decl.name@, ms, ms.len() as int);
            if let Some(parent) = decl.parent {
                if depth > 0 {
                    lemma_class_stays(own, ss, parent@, ss.len() as int, (depth - 1) as nat, label);
                }
            }
        }
    } else {
        let decl = ss[i].kind->Class_0;
        let ms = decl.methods@;
        let own = with_methods(before, decl.name@, ms, ms.len() as int);
        if exists|k: int| 0 <= k < ms.len() && (#[trigger] ms[k]).name@ == label {
            lemma_methods_stay(before, decl.name@, ms, ms.len() as int, label);
            if let Some(parent) = decl.parent {
                if depth > 0 {
                    lemma_class_stays(own, ss, parent@, ss.len() as int, (depth - 1) as nat, label);
                }
            }
        } else if let Some(parent) = decl.parent {
            let a = choose|a: int|
                {
                    &&& 0 <= a < ss.len()
                    &&& (#[trigger] ss[a]).kind is Class
                    &&& ss[a].kind->Class_0.name@ == parent@
                    &&& exists|k: int|
                        0 <= k < ss[a].kind->Class_0.methods@.len() && (#[trigger] ss[a].kind->Class_0.methods@[k]).name@
                            == label
                };
            law_the_methods_of_a_class_are_offered(
                own,
                ss,
                parent@,
                ss.len() as int,
                (depth - 1) as nat,
                a,
                label,
            );
        }
    }
}

proof fn lemma_natives_stay(items: Seq<ItemV>, b: Builtin, n: int, label: Seq<char>)
    requires
        0 <= n <= native_methods(b).len(),
        offers(items, label) || exists|k: int| 0 <= k < n && (#[trigger] native_methods(b)[k]).spelled() == label,
    ensures
        offers(with_natives(items, b, n), label),
    decreases n,
{
    if n > 0 {
        let name = native_methods(b)[n - 1].spelled();
        let one = item(name, ItemKind::Method, "builtin method "@ + b.spelled() + "."@ + name + "()"@);
        let before = with_natives(items, b, n - 1);
        law_what_was_offered_stays_offered(before, one, label);
        if name != label {
            if !offers(items, label) {
                let k = choose|k: int| 0 <= k < n && (#[trigger] native_methods(b)[k]).spelled() == label;
                assert(k < n - 1 && native_methods(b)[k].spelled() == label);
            }
            lemma_natives_stay(items, b, n - 1, label);
        }
    }
}

/// Behind a value of a builtin type every method that the type is born with is offered.
pub proof fn law_the_methods_of_a_builtin_type_are_offered(items: Seq<ItemV>, i: int, n: int, k: int)
    requires
        0 <= i < n <= all_builtins().len(),
        0 <= k < native_methods(all_builtins()[i]).len(),
    ensures
        offers(
            with_builtins(items, all_builtins()[i].spelled(), n),
            native_methods(all_builtins()[i])[k].spelled(),
        ),
    decreases n,
{
    let name = all_builtins()[i].spelled();
    let label = native_methods(all_builtins()[i])[k].spelled();
    let b = all_builtins()[n - 1];
    let before = with_builtins(items, name, n - 1);
    if i < n - 1 {
        law_the_methods_of_a_builtin_type_are_offered(items, i, n - 1, k);
    }
    if i == n - 1 || crate::lsp::members::answers_to(b, name) {
        lemma_natives_stay(before, b, native_methods(b).len() as int, label);
    }
}

/// The text before a point that was just written is the text that was there.
pub proof fn law_the_text_before_a_point(s: Seq<char>)
    ensures
        before_last_dot(s.push('.')) == Some(s),
{
    let t = s.push('.');
    assert(!crate::text::whitespace('.'));
    assert(trim_end(t) =~= t);
    assert(t.drop_last() =~= s);
}

/// Among assignments the last one that shows a class counts; a row that assigns something else
/// changes nothing.
pub proof fn law_the_last_assignment_counts(rs: Seq<Seq<char>>, receiver: Seq<char>, n: int)
    requires
        0 < n <= rs.len(),
    ensures
        assigned(rs[n - 1], receiver) is None ==> last_assigned(rs, receiver, n) == last_assigned(rs, receiver, n - 1),
        assigned(rs[n - 1], receiver) is Some && shown_class(assigned(rs[n - 1], receiver)->0) is Some
            ==> last_assigned(rs, receiver, n) == shown_class(assigned(rs[n - 1], receiver)->0),
{
    if let Some(value) = assigned(rs[n - 1], receiver) {
        if shown_class(value) is Some {
            assert(assigned_class(rs, value, n - 1) == shown_class(value));
        }
    }
}

// -- anywhere else ------------------------------------------------------------------------------------

/// The names of what a program declares above a line are offered below it: functions, classes
/// and variables, each as what it is.
pub proof fn law_what_is_declared_above_is_offered(cs: Seq<char>, ss: Seq<Stmt>, line: int, n: int, i: int)
    requires
        0 <= i < n <= ss.len(),
        position_of(cs, ss[i].span.start as int).line <= line,
        ss[i].kind is Fn || ss[i].kind is Class || ss[i].kind is Let || ss[i].kind is For,
    ensures
        exists|k: int|
            {
                let one = #[trigger] stmt_items(cs, ss, line, n)[k];
                &&& 0 <= k < stmt_items(cs, ss, line, n).len()
                &&& match ss[i].kind {
                    StmtKind::Fn(decl) => one.label == decl.name@ && one.kind == ItemKind::Function,
                    StmtKind::Class(decl) => one.label == decl.name@ && one.kind == ItemKind::Class,
                    StmtKind::Let { name, .. } => one.label == name@ && one.kind == ItemKind::Variable,
                    StmtKind::For { var, .. } => one.label == var@ && one.kind == ItemKind::Variable,
                    _ => true,
                }
            },
    decreases n,
{
    let all = stmt_items(cs, ss, line, n);
    let before = stmt_items(cs, ss, line, n - 1);
    if i == n - 1 {
        let own = one_stmt(cs, ss[i], line);
        assert(own.len() > 0);
        assert(all[before.len() as int] == own[0]);
    } else {
        law_what_is_declared_above_is_offered(cs, ss, line, n - 1, i);
        let k = choose|k: int|
            {
                let one = #[trigger] before[k];
                &&& 0 <= k < before.len()
                &&& match ss[i].kind {
                    StmtKind::Fn(decl) => one.label == decl.name@ && one.kind == ItemKind::Function,
                    StmtKind::Class(decl) => one.label == decl.name@ && one.kind == ItemKind::Class,
                    StmtKind::Let { name, .. } => one.label == name@ && one.kind == ItemKind::Variable,
                    StmtKind::For { var, .. } => one.label == var@ && one.kind == ItemKind::Variable,
                    _ => true,
                }
            };
        assert(all[k] == before[k]);
    }
}

/// A symbol is offered under its own name and as what it is.
pub proof fn law_a_symbol_is_offered_as_what_it_is(s: SymbolV)
    ensures
        offered_item(s).label == s.name,
        s.kind == Kind::Class <==> offered_item(s).kind == ItemKind::Class,
        s.kind == Kind::Function <==> offered_item(s).kind == ItemKind::Function,
        s.kind == Kind::Method <==> offered_item(s).kind == ItemKind::Method,
        s.kind == Kind::Field <==> offered_item(s).kind == ItemKind::Field,
        s.kind == Kind::Module <==> offered_item(s).kind == ItemKind::Module,
        s.doc is Some <==> offered_item(s).documentation is Some,
{
}

/// Where anything may be written, every keyword and every name that the language is born with
/// is offered.
pub proof fn law_keywords_and_born_names_are_offered(state: DocumentState, at: int, k: int, g: int)
    requires
        0 <= k < all_keywords().len(),
        0 <= g < global_symbols().len(),
    ensures
        offers(anything(state, at), all_keywords()[k]),
        offers(anything(state, at), global_symbols()[g].name),
{
    let all = anything(state, at);
    assert(all[k] == keyword_item(all_keywords()[k]));
    assert(all[all_keywords().len() + g] == offered_item(global_symbols()[g]));
}

proof fn lemma_classes(s: Seq<SymbolV>, n: int)
    requires
        0 <= n <= s.len(),
    ensures
        forall|k: int| 0 <= k < classes_among(s, n).len() ==> (#[trigger] classes_among(s, n)[k]).kind == Kind::Class,
        forall|i: int| 0 <= i < n && (#[trigger] s[i]).kind == Kind::Class ==> classes_among(s, n).contains(s[i]),
    decreases n,
{
    if n > 0 {
        lemma_classes(s, n - 1);
        let all = classes_among(s, n);
        let before = classes_among(s, n - 1);
        assert forall|i: int| 0 <= i < n && (#[trigger] s[i]).kind == Kind::Class implies all.contains(s[i]) by {
            if i == n - 1 {
                assert(all[before.len() as int] == s[i]);
            } else {
                let k = choose|k: int| 0 <= k < before.len() && before[k] == s[i];
                assert(all[k] == s[i]);
            }
        }
    }
}

/// Where a type is written, classes are offered and nothing else, and every class is.
pub proof fn law_only_classes_are_offered_as_types(s: Seq<SymbolV>, i: int)
    ensures
        0 <= i < classes_among(s, s.len() as int).len() ==> classes_among(s, s.len() as int)[i].kind == Kind::Class,
        0 <= i < s.len() && s[i].kind == Kind::Class ==> classes_among(s, s.len() as int).contains(s[i]),
{
    lemma_classes(s, s.len() as int);
}

/// Other files are offered what a file exports, all of it and nothing that is private.
pub proof fn law_only_what_is_exported_is_offered_to_others(all: Seq<SymbolV>, n: int, i: int)
    requires
        0 <= n <= all.len(),
    ensures
        0 <= i < exported(all, n).len() ==> exported(all, n)[i].visibility != Visibility::Private,
        0 <= i < n && all[i].visibility != Visibility::Private ==> exported(all, n).contains(all[i]),
    decreases n,
{
    if n > 0 {
        law_only_what_is_exported_is_offered_to_others(all, n - 1, i);
        let r = exported(all, n);
        let before = exported(all, n - 1);
        if 0 <= i < n && all[i].visibility != Visibility::Private {
            if i == n - 1 {
                assert(r[before.len() as int] == all[i]);
            } else {
                let k = choose|k: int| 0 <= k < before.len() && before[k] == all[i];
                assert(r[k] == all[i]);
            }
        }
    }
}

// -- hovers -------------------------------------------------------------------------------------------

/// A keyword under the cursor is told what it is for; a symbol is shown by its signature, and
/// not at all where nothing more than its name is known.
pub proof fn law_what_a_hover_shows(state: DocumentState, pos: Position, word: Seq<char>)
    requires
        word_at(state.text@, pos) == Some(word),
        word_doc(word) is Some,
    ensures
        hover_at(state, pos) == Some(HoverV { value: word, doc: word_doc(word) }),
{
}

/// What a symbol shows is its signature.
pub proof fn law_a_symbol_shows_its_signature(symbol: SymbolV, word: Seq<char>)
    ensures
        shown(symbol, word) is None <==> symbol.doc is None && symbol.signature() == word,
        shown(symbol, word) is Some ==> shown(symbol, word)->0.value == symbol.signature(),
        shown(symbol, word) is Some ==> (shown(symbol, word)->0.doc is Some <==> symbol.doc is Some),
{
}

proof fn lemma_declaration(s: Stmt, name: Seq<char>)
    ensures
        declaration(s, name) is Some <==> names_itself(s, name),
        declaration(s, name) is Some ==> contains(declaration(s, name)->0, name),
{
    reveal_strlit("fn ");
    reveal_strlit("(");
    reveal_strlit(")");
    reveal_strlit("class ");
    reveal_strlit(" extends ");
    reveal_strlit(" ");
    if let Some(r) = declaration(s, name) {
        match s.kind {
            StmtKind::Fn(decl) => {
                assert(r.subrange(3, 3 + name.len() as int) =~= name);
                assert(stands_at(r, name, 3));
            },
            StmtKind::Class(decl) => {
                assert(r.subrange(6, 6 + name.len() as int) =~= name);
                assert(stands_at(r, name, 6));
            },
            StmtKind::Let { bind, .. } => {
                let k = bind.spelled().len() + 1;
                assert(r.subrange(k as int, k + name.len() as int) =~= name);
                assert(stands_at(r, name, k as int));
            },
            _ => {},
        }
    }
}

/// What is told of a declared name is how the first statement that declares it does so, and it
/// says the name; nothing is told of a name that no statement declares.
pub proof fn law_a_description_is_of_the_first_declaration(ss: Seq<Stmt>, name: Seq<char>, i: int)
    requires
        0 <= i <= ss.len(),
    ensures
        decl_words(ss, name, i) is Some <==> exists|k: int| i <= k < ss.len() && names_itself(#[trigger] ss[k], name),
        decl_words(ss, name, i) is Some ==> contains(decl_words(ss, name, i)->0, name),
        i < ss.len() && names_itself(ss[i], name) ==> decl_words(ss, name, i) == declaration(ss[i], name),
    decreases ss.len() - i,
{
    if i < ss.len() {
        lemma_declaration(ss[i], name);
        law_a_description_is_of_the_first_declaration(ss, name, i + 1);
        if names_itself(ss[i], name) {
            assert(decl_words(ss, name, i) is Some);
        }
    }
}

// -- answers ------------------------------------------------------------------------------------------

/// What is highlighted in a document is where the name under the cursor stands in it: the part
/// of all its references that are in that document.
pub proof fn law_highlights_are_references_at_home(docs: Seq<Document>, uri: String, pos: Position)
    requires
        document(docs, uri@) is Some,
    ensures
        ({
            let lit = reply(docs, Request::DocumentHighlight { uri, pos });
            let used = reply(docs, Request::References { uri, pos });
            &&& lit is Highlights
            &&& used is References
            &&& lit->Highlights_0.len() <= used->References_0.len()
            &&& forall|i: int|
                0 <= i < lit->Highlights_0.len() ==> #[trigger] used->References_0[i] == (LocationV {
                    uri: uri@,
                    range: lit->Highlights_0[i],
                })
        }),
{
}

/// A rename is refused just where the name under the cursor stands nowhere.
pub proof fn law_what_stands_nowhere_is_not_renamed(docs: Seq<Document>, uri: String, pos: Position, new_name: String)
    requires
        document(docs, uri@) is Some,
    ensures
        reply(docs, Request::Rename { uri, pos, new_name }) == ReplyV::Edits(None) <==> reply(
            docs,
            Request::References { uri, pos },
        ) == ReplyV::References(Seq::empty()),
{
    let refs = all_references(uri@, document(docs, uri@)->0, docs, pos);
    if refs.len() == 0 {
        assert(refs =~= Seq::empty());
    }
}

/// Of a document that is not open nothing is known: no place, no edit, no symbol.
pub proof fn law_nothing_is_known_of_a_closed_document(docs: Seq<Document>, uri: String, pos: Position)
    requires
        document(docs, uri@) is None,
    ensures
        reply(docs, Request::Definition { uri, pos }) == ReplyV::Location(None),
        reply(docs, Request::Hover { uri, pos }) == ReplyV::Hover(None),
        reply(docs, Request::References { uri, pos }) == ReplyV::References(Seq::empty()),
        reply(docs, Request::DocumentHighlight { uri, pos }) == ReplyV::Highlights(Seq::empty()),
        reply(docs, Request::Completion { uri, pos }) == ReplyV::Items(Seq::empty()),
        reply(docs, Request::DocumentSymbol { uri }) == ReplyV::Outline(Seq::empty()),
        reply(docs, Request::Formatting { uri }) == ReplyV::Format(Seq::empty()),
        reply(docs, Request::FoldingRange { uri }) == ReplyV::Folds(Seq::empty()),
{
}

// -- fixes that are asked for -------------------------------------------------------------------------

/// An error that says a value may be absent is mended by a `?` right behind the type it is
/// about, and only such an error is.
pub proof fn law_a_question_mark_mends_what_may_be_absent(i: int, d: DiagnosticV)
    ensures
        ({
            let asks = contains(d.message, "write"@) && contains(d.message, "if it may be absent"@);
            let r = nullable_fix(i, d);
            &&& !asks ==> r.len() == 0
            &&& asks ==> r.len() == 1 && r[0].edit.range.start == d.range.end && r[0].edit.range.end == d.range.end
                && r[0].edit.new_text == "?"@
        }),
{
}

/// Where the type of the name under the cursor is known, it is offered to be written there,
/// behind a colon; nothing else is written, and nothing is offered of a type that is not known.
pub proof fn law_a_known_type_is_offered_to_be_written(state: DocumentState, at: Position, word: Seq<char>)
    requires
        word_at(state.text@, at) == Some(word),
    ensures
        ({
            let ty = type_before(known(state.types), word, byte_at(state.text@, at));
            let r = annotate(state, at);
            &&& !ty.known() ==> r.len() == 0
            &&& ty.known() ==> r.len() == 1 && r[0].edit.range.start == r[0].edit.range.end
                && r[0].edit.range.start.line == at.line && r[0].edit.new_text == ": "@ + ty.spelled()
        }),
{
}

// -- words --------------------------------------------------------------------------------------------

/// Each word of a text that may name a variable is offered, and what was offered stays offered.
pub proof fn law_words_that_may_name_a_variable_are_offered(items: Seq<ItemV>, ws: Seq<Seq<char>>, n: int, label: Seq<char>)
    requires
        0 <= n <= ws.len(),
        offers(items, label) || exists|k: int| 0 <= k < n && #[trigger] ws[k] == label && names_variable(label),
    ensures
        offers(with_words(items, ws, n), label),
    decreases n,
{
    if n > 0 {
        let before = with_words(items, ws, n - 1);
        law_what_was_offered_stays_offered(before, item(ws[n - 1], ItemKind::Variable, "identifier"@), label);
        if ws[n - 1] == label && names_variable(label) {
        } else {
            if !offers(items, label) {
                let k = choose|k: int| 0 <= k < n && #[trigger] ws[k] == label && names_variable(label);
                assert(k < n - 1 && ws[k] == label);
            }
            law_words_that_may_name_a_variable_are_offered(items, ws, n - 1, label);
        }
    }
}

/// A comment names no variable.
pub proof fn law_a_comment_names_nothing(items: Seq<ItemV>, rs: Seq<Seq<char>>, n: int)
    requires
        0 < n <= rs.len(),
        starts(trim(rs[n - 1]), "#"@),
    ensures
        with_rows(items, rs, n) == with_rows(items, rs, n - 1),
{
}

// -- signatures of a program --------------------------------------------------------------------------

/// A call of a function that the program declares first is shown the parameters of that
/// function, in order.
pub proof fn law_a_call_is_shown_the_parameters(ss: Seq<Stmt>, i: int, depth: nat)
    requires
        0 <= i < ss.len(),
        ss[i].kind is Fn,
    ensures
        ({
            let decl = ss[i].kind->Fn_0;
            let sig = ast_signature(ss, decl.name@, None, i, depth);
            &&& sig is Some
            &&& sig->0.parameters.len() == decl.params@.len()
            &&& forall|k: int|
                0 <= k < decl.params@.len() ==> #[trigger] sig->0.parameters[k] == decl.params@[k].name@
        }),
{
    let decl = ss[i].kind->Fn_0;
    let ps = decl.params@;
    assert(param_names(ps, false, 0).len() == 0);
    assert forall|k: int| 0 <= k < ps.len() implies param_names(ps, false, ps.len() as int).len() == ps.len()
        && #[trigger] param_names(ps, false, ps.len() as int)[k] == ps[k].name@ by {
        law_a_signature_names_the_parameters(ps, ps.len() as int, k);
    }
    if ps.len() > 0 {
        law_a_signature_names_the_parameters(ps, ps.len() as int, 0);
    }
}

// -- tokens of a program ------------------------------------------------------------------------------

/// Whether a token of a kind is shown where a name stands in a span.
pub open spec fn marks(tokens: Seq<RawSemanticToken>, cs: Seq<char>, span: Span, name: Seq<char>, kind: u32) -> bool {
    name_range(cs, span, name) matches Some(range) ==> exists|k: int|
        0 <= k < tokens.len() && (#[trigger] tokens[k]).token_type == kind && tokens[k].line == range.start.line
            && tokens[k].col == range.start.character
}

/// The name of a function is marked as a function, that of a class as a class, and that of a
/// binding as a variable, each where it stands.
pub proof fn law_a_declared_name_is_marked_as_what_it_is(cs: Seq<char>, s: Stmt)
    ensures
        match s.kind {
            StmtKind::Fn(decl) => marks(tokens_of_stmt(cs, s), cs, s.span, decl.name@, FUNCTION),
            StmtKind::Class(decl) => marks(tokens_of_stmt(cs, s), cs, s.span, decl.name@, CLASS),
            StmtKind::Let { name, .. } => marks(tokens_of_stmt(cs, s), cs, s.span, name@, VARIABLE),
            StmtKind::For { var, .. } => marks(tokens_of_stmt(cs, s), cs, s.span, var@, VARIABLE),
            StmtKind::Try { binding, .. } => marks(tokens_of_stmt(cs, s), cs, s.span, binding@, VARIABLE),
            _ => true,
        },
{
    let all = tokens_of_stmt(cs, s);
    match s.kind {
        StmtKind::Fn(decl) => {
            if let Some(range) = name_range(cs, s.span, decl.name@) {
                assert(all[0].token_type == FUNCTION);
            }
        },
        StmtKind::Class(decl) => {
            if let Some(range) = name_range(cs, s.span, decl.name@) {
                assert(all[0].token_type == CLASS);
            }
        },
        StmtKind::Let { name, .. } => {
            if let Some(range) = name_range(cs, s.span, name@) {
                assert(all[0].token_type == VARIABLE);
            }
        },
        StmtKind::For { var, .. } => {
            if let Some(range) = name_range(cs, s.span, var@) {
                assert(all[0].token_type == VARIABLE);
            }
        },
        StmtKind::Try { binding, .. } => {
            if let Some(range) = name_range(cs, s.span, binding@) {
                assert(all[0].token_type == VARIABLE);
            }
        },
        _ => {},
    }
}

/// The tokens of a statement.
pub open spec fn tokens_of_stmt(cs: Seq<char>, s: Stmt) -> Seq<RawSemanticToken> {
    crate::lsp::semantic::one_stmt(cs, s)
}

/// A name in an expression is marked as a variable, `self` and `super` as keywords, what is
/// called as a function, and a member as a property.
pub proof fn law_a_used_name_is_marked_as_what_it_is(cs: Seq<char>, e: Expr)
    ensures
        match e.kind {
            ExprKind::Var(name) => marks(
                expr_tokens(cs, e),
                cs,
                e.span,
                name@,
                if name@ == "self"@ || name@ == "super"@ {
                    KEYWORD
                } else {
                    VARIABLE
                },
            ),
            ExprKind::Call { callee, args } => match callee.kind {
                ExprKind::Var(name) => marks(expr_tokens(cs, e), cs, callee.span, name@, FUNCTION),
                _ => true,
            },
            ExprKind::Field { target, name } => marks(expr_tokens(cs, e), cs, e.span, name@, PROPERTY),
            _ => true,
        },
{
    let all = expr_tokens(cs, e);
    match e.kind {
        ExprKind::Var(name) => {
            if let Some(range) = name_range(cs, e.span, name@) {
                assert(all[0].line == range.start.line);
            }
        },
        ExprKind::Call { callee, args } => {
            if let ExprKind::Var(name) = callee.kind {
                if let Some(range) = name_range(cs, callee.span, name@) {
                    assert(all[0].line == range.start.line);
                }
            }
        },
        ExprKind::Field { target, name } => {
            if let Some(range) = name_range(cs, e.span, name@) {
                let before = expr_tokens(cs, *target);
                assert(all[before.len() as int].line == range.start.line);
            }
        },
        _ => {},
    }
}

// -- notices ------------------------------------------------------------------------------------------

/// What a document holds after a notice: what it was opened with, what the changes leave of what
/// it held, one after another, or nothing where it was closed.
pub proof fn law_what_a_notice_leaves(before: Seq<char>, uri: String, text: String, changes: Vec<Change>)
    ensures
        (Notice::Opened { uri, text }).leaves(before) == Some(text@),
        (Notice::Closed { uri }).leaves(before) is None,
        changes@.len() == 0 ==> (Notice::Changed { uri, changes }).leaves(before) == Some(before),
        changes@.len() == 1 ==> (Notice::Changed { uri, changes }).leaves(before) == Some(
            changed(before, changes@[0]@),
        ),
{
    if changes@.len() == 1 {
        let all = changes_v(changes@);
        assert(all[0] == changes@[0]@);
        assert(all_changed(before, all, 0) == before);
        assert(all_changed(before, all, 1) == changed(before, all[0]));
    }
}

} // verus!
