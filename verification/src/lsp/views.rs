//! What holds of what an editor is shown: definitions, outlines, lenses, hints, fixes, folds,
//! selections and signatures.

use crate::error::ErrV;
use crate::lsp::actions::{fixes, import_fix, import_fixes, nullable_fix, CodeActionV};
use crate::lsp::codelens::{counted_name, lens, lenses, others, title};
use crate::lsp::diagnostics::{all_drawn, drawn, DiagnosticV, Severity};
use crate::lsp::document::DocumentState;
use crate::lsp::folding::{
    doc_end, doc_folds, fold_text, folds, is_doc_row, region_of, stmt_folds, FoldKind,
    FoldingRangeV,
};
use crate::lsp::hints::{hint_for, shown_hints, HintV, InlayHintV};
use crate::lsp::infer::expr_type;
use crate::lsp::navigate::{
    answering, answers, decl_span, declared, defined_elsewhere, defined_in, definition, lines_of,
    method_lines, method_span, outline, stmt_lines, workspace, Document, LocationV, OutlineKind,
    SymbolInformationV,
};
use crate::lsp::outline::{node, nodes, NodeKind};
use crate::lsp::position::{position_of, range_of, word_at, Position, Range};
use crate::lsp::rows::{in_name, name_start, trim_end};
use crate::lsp::selection::{inside, own_spans, placed, reach, stmt_spans, unrepeated, widest_first};
use crate::lsp::semantic::{counted, is_ordered, RawSemanticToken};
use crate::lsp::signature::{open_bracket, open_call, param_names};
use crate::lsp::symbols::TypeV;
use crate::runtime::value::shipped_modules;
use crate::syntax::ast::{Expr, FnDecl, Param, Stmt, StmtKind};
use crate::syntax::token::Span;
use crate::text::{contains, digits, lowercase};
use std::rc::Rc;
use vstd::prelude::*;

verus! {

// -- definitions ------------------------------------------------------------------------------------

/// Whether a statement declares a name itself.
pub open spec fn names_itself(s: Stmt, name: Seq<char>) -> bool {
    match s.kind {
        StmtKind::Fn(decl) => decl.name@ == name,
        StmtKind::Class(decl) => decl.name@ == name,
        StmtKind::Let { name: own, .. } => own@ == name,
        _ => false,
    }
}

/// Whether a statement declares a class with a method of a name.
pub open spec fn names_a_method(s: Stmt, name: Seq<char>) -> bool {
    match s.kind {
        StmtKind::Class(decl) => exists|k: int| 0 <= k < decl.methods@.len() && (#[trigger] decl.methods@[k]).name@
            == name,
        _ => false,
    }
}

proof fn lemma_method_span(ms: Seq<Rc<FnDecl>>, name: Seq<char>, i: int)
    requires
        0 <= i <= ms.len(),
    ensures
        method_span(ms, name, i) is Some <==> exists|k: int| i <= k < ms.len() && (#[trigger] ms[k]).name@ == name,
        method_span(ms, name, i) is Some ==> exists|k: int|
            i <= k < ms.len() && (#[trigger] ms[k]).name@ == name && method_span(ms, name, i)->0 == ms[k].body.span,
    decreases ms.len() - i,
{
    if i < ms.len() {
        lemma_method_span(ms, name, i + 1);
        if ms[i].name@ == name {
            assert(method_span(ms, name, i) == Some(ms[i].body.span));
        }
    }
}

proof fn lemma_decl_span(ss: Seq<Stmt>, name: Seq<char>, i: int)
    requires
        0 <= i <= ss.len(),
    ensures
        match decl_span(ss, name, i) {
            None => forall|k: int| i <= k < ss.len() ==> !names_itself(#[trigger] ss[k], name) && !names_a_method(
                ss[k],
                name,
            ),
            Some(span) => exists|k: int|
                {
                    &&& i <= k < ss.len()
                    &&& names_itself(#[trigger] ss[k], name) || names_a_method(ss[k], name)
                    &&& names_itself(ss[k], name) ==> span == ss[k].span
                    &&& forall|j: int| i <= j < k ==> !names_itself(#[trigger] ss[j], name) && !names_a_method(
                        ss[j],
                        name,
                    )
                },
        },
    decreases ss.len() - i,
{
    if i < ss.len() {
        if let StmtKind::Class(decl) = ss[i].kind {
            lemma_method_span(decl.methods@, name, 0);
        }
        assert(declared(ss[i], name) is Some <==> names_itself(ss[i], name) || names_a_method(ss[i], name));
        lemma_decl_span(ss, name, i + 1);
        if declared(ss[i], name) is None {
            if let Some(span) = decl_span(ss, name, i + 1) {
                let k = choose|k: int|
                    {
                        &&& i + 1 <= k < ss.len()
                        &&& names_itself(#[trigger] ss[k], name) || names_a_method(ss[k], name)
                        &&& names_itself(ss[k], name) ==> span == ss[k].span
                        &&& forall|j: int| i + 1 <= j < k ==> !names_itself(#[trigger] ss[j], name)
                            && !names_a_method(ss[j], name)
                    };
                assert(names_itself(ss[k], name) || names_a_method(ss[k], name));
            }
        }
    }
}

/// Where a document declares a name is the first statement that declares it, itself or as a
/// method of the class it declares, and is nowhere just where no statement does.
pub proof fn law_a_definition_is_the_first_declaration(ss: Seq<Stmt>, name: Seq<char>)
    ensures
        match decl_span(ss, name, 0) {
            None => forall|k: int| 0 <= k < ss.len() ==> !names_itself(#[trigger] ss[k], name) && !names_a_method(
                ss[k],
                name,
            ),
            Some(span) => exists|k: int|
                {
                    &&& 0 <= k < ss.len()
                    &&& names_itself(#[trigger] ss[k], name) || names_a_method(ss[k], name)
                    &&& names_itself(ss[k], name) ==> span == ss[k].span
                    &&& forall|j: int| 0 <= j < k ==> !names_itself(#[trigger] ss[j], name) && !names_a_method(
                        ss[j],
                        name,
                    )
                },
        },
{
    lemma_decl_span(ss, name, 0);
}

proof fn lemma_elsewhere(docs: Seq<Document>, uri: Seq<char>, word: Seq<char>, i: int)
    requires
        0 <= i <= docs.len(),
    ensures
        match defined_elsewhere(docs, uri, word, i) {
            None => forall|k: int|
                i <= k < docs.len() && (#[trigger] docs[k]).uri@ != uri ==> defined_in(docs[k].state, word) is None,
            Some(at) => exists|k: int|
                i <= k < docs.len() && (#[trigger] docs[k]).uri@ != uri && at.uri == docs[k].uri@ && defined_in(
                    docs[k].state,
                    word,
                ) == Some(at.range),
        },
    decreases docs.len() - i,
{
    if i < docs.len() {
        lemma_elsewhere(docs, uri, word, i + 1);
    }
}

/// A name is looked up in its own document first, and in the others only where that declares
/// nothing of the name; what is found there is where that document declares it.
pub proof fn law_a_definition_is_looked_up_at_home_first(
    uri: Seq<char>,
    state: DocumentState,
    docs: Seq<Document>,
    pos: Position,
    word: Seq<char>,
)
    requires
        word_at(state.text@, pos) == Some(word),
    ensures
        defined_in(state, word) is Some ==> definition(uri, state, docs, pos) == Some(
            LocationV { uri, range: defined_in(state, word)->0 },
        ),
        defined_in(state, word) is None && (exists|k: int|
            0 <= k < docs.len() && (#[trigger] docs[k]).uri@ != uri && defined_in(docs[k].state, word) is Some)
            ==> exists|k: int|
            0 <= k < docs.len() && (#[trigger] docs[k]).uri@ != uri && definition(uri, state, docs, pos) == Some(
                LocationV { uri: docs[k].uri@, range: defined_in(docs[k].state, word)->0 },
            ),
{
    lemma_elsewhere(docs, uri, word, 0);
}

// -- outlines -----------------------------------------------------------------------------------------

proof fn lemma_lines_hold(uri: Seq<char>, cs: Seq<char>, ss: Seq<Stmt>, n: int, i: int, j: int)
    requires
        0 <= i < n <= ss.len(),
        0 <= j < stmt_lines(uri, cs, ss[i]).len(),
    ensures
        lines_of(uri, cs, ss, n).contains(stmt_lines(uri, cs, ss[i])[j]),
    decreases n,
{
    let all = lines_of(uri, cs, ss, n);
    let before = lines_of(uri, cs, ss, n - 1);
    let own = stmt_lines(uri, cs, ss[n - 1]);
    let x = stmt_lines(uri, cs, ss[i])[j];
    if i == n - 1 {
        assert(all[before.len() + j] == x);
    } else {
        lemma_lines_hold(uri, cs, ss, n - 1, i, j);
        let k = choose|k: int| 0 <= k < before.len() && before[k] == x;
        assert(all[k] == x);
    }
}

proof fn lemma_method_lines(uri: Seq<char>, cs: Seq<char>, class: Seq<char>, ms: Seq<Rc<FnDecl>>, n: int)
    requires
        0 <= n <= ms.len(),
    ensures
        method_lines(uri, cs, class, ms, n).len() == n,
        forall|k: int|
            0 <= k < n ==> (#[trigger] method_lines(uri, cs, class, ms, n)[k]).name == ms[k].name@ && method_lines(
                uri,
                cs,
                class,
                ms,
                n,
            )[k].kind == OutlineKind::Method && method_lines(uri, cs, class, ms, n)[k].container_name == Some(class),
    decreases n,
{
    if n > 0 {
        lemma_method_lines(uri, cs, class, ms, n - 1);
    }
}

/// Whether lines show a name of a kind below another, or below nothing.
pub open spec fn shows(lines: Seq<SymbolInformationV>, uri: Seq<char>, name: Seq<char>, kind: OutlineKind, below: Option<Seq<char>>) -> bool {
    exists|k: int|
        0 <= k < lines.len() && (#[trigger] lines[k]).name == name && lines[k].kind == kind && lines[k].uri == uri
            && lines[k].container_name == below
}

/// An outline shows each declaration of a document as what it is, and each method of a class
/// below the class.
pub proof fn law_an_outline_shows_each_declaration(uri: Seq<char>, cs: Seq<char>, ss: Seq<Stmt>, i: int)
    requires
        0 <= i < ss.len(),
    ensures
        ({
            let lines = lines_of(uri, cs, ss, ss.len() as int);
            match ss[i].kind {
                StmtKind::Fn(decl) => shows(lines, uri, decl.name@, OutlineKind::Function, None),
                StmtKind::Let { name, .. } => shows(lines, uri, name@, OutlineKind::Variable, None),
                StmtKind::Class(decl) => shows(lines, uri, decl.name@, OutlineKind::Class, None) && forall|k: int|
                    0 <= k < decl.methods@.len() ==> shows(
                        lines,
                        uri,
                        (#[trigger] decl.methods@[k]).name@,
                        OutlineKind::Method,
                        Some(decl.name@),
                    ),
                _ => true,
            }
        }),
{
    let lines = lines_of(uri, cs, ss, ss.len() as int);
    let own = stmt_lines(uri, cs, ss[i]);
    if own.len() > 0 {
        lemma_lines_hold(uri, cs, ss, ss.len() as int, i, 0);
        let at = choose|k: int| 0 <= k < lines.len() && lines[k] == own[0];
        assert(lines[at] == own[0]);
    }
    if let StmtKind::Class(decl) = ss[i].kind {
        let ms = decl.methods@;
        lemma_method_lines(uri, cs, decl.name@, ms, ms.len() as int);
        let below = method_lines(uri, cs, decl.name@, ms, ms.len() as int);
        assert forall|k: int| 0 <= k < ms.len() implies shows(
            lines,
            uri,
            (#[trigger] ms[k]).name@,
            OutlineKind::Method,
            Some(decl.name@),
        ) by {
            assert(own[k + 1] == below[k]);
            lemma_method_uri(uri, cs, decl.name@, ms, ms.len() as int, k);
            lemma_lines_hold(uri, cs, ss, ss.len() as int, i, k + 1);
            let at = choose|a: int| 0 <= a < lines.len() && lines[a] == own[k + 1];
            assert(lines[at] == below[k]);
        }
    }
}

proof fn lemma_method_uri(uri: Seq<char>, cs: Seq<char>, class: Seq<char>, ms: Seq<Rc<FnDecl>>, n: int, k: int)
    requires
        0 <= k < n <= ms.len(),
    ensures
        k < method_lines(uri, cs, class, ms, n).len(),
        method_lines(uri, cs, class, ms, n)[k].uri == uri,
    decreases n,
{
    lemma_method_lines(uri, cs, class, ms, n);
    lemma_method_lines(uri, cs, class, ms, n - 1);
    if k < n - 1 {
        lemma_method_uri(uri, cs, class, ms, n - 1, k);
    }
}

proof fn lemma_nodes(cs: Seq<char>, ss: Seq<Stmt>, n: int, i: int)
    requires
        0 <= i < n <= ss.len(),
        node(cs, ss[i]) is Some,
    ensures
        exists|k: int| 0 <= k < nodes(cs, ss, n).len() && #[trigger] nodes(cs, ss, n)[k] == node(cs, ss[i])->0,
    decreases n,
{
    let all = nodes(cs, ss, n);
    let before = nodes(cs, ss, n - 1);
    if i == n - 1 {
        assert(all[before.len() as int] == node(cs, ss[i])->0);
    } else {
        lemma_nodes(cs, ss, n - 1, i);
        let k = choose|k: int| 0 <= k < before.len() && #[trigger] before[k] == node(cs, ss[i])->0;
        assert(all[k] == before[k]);
    }
}

/// The tree of a document has a node for each declaration, with its name, its kind and its
/// range; below a class stand its fields and then its methods, each under its own name.
pub proof fn law_a_tree_has_a_node_for_each_declaration(cs: Seq<char>, ss: Seq<Stmt>, i: int)
    requires
        0 <= i < ss.len(),
        ss[i].kind is Fn || ss[i].kind is Class || ss[i].kind is Let,
    ensures
        exists|k: int|
            {
                let one = #[trigger] nodes(cs, ss, ss.len() as int)[k];
                &&& 0 <= k < nodes(cs, ss, ss.len() as int).len()
                &&& names_itself(ss[i], one.name)
                &&& one.range == range_of(cs, ss[i].span)
                &&& ss[i].kind is Fn ==> one.kind == NodeKind::Function && one.children.len() == 0
                &&& ss[i].kind is Let ==> one.kind == NodeKind::Variable && one.children.len() == 0
                &&& ss[i].kind is Class ==> {
                    let d = ss[i].kind->Class_0;
                    &&& one.kind == NodeKind::Class
                    &&& one.children.len() == d.fields@.len() + d.methods@.len()
                    &&& forall|f: int|
                        0 <= f < d.fields@.len() ==> (#[trigger] one.children[f]).name == d.fields@[f].name@
                            && one.children[f].kind == NodeKind::Field
                    &&& forall|m: int|
                        0 <= m < d.methods@.len() ==> (#[trigger] d.methods@[m]).name@ == one.children[d.fields@.len()
                            + m].name && one.children[d.fields@.len() + m].kind == NodeKind::Method
                }
            },
{
    lemma_nodes(cs, ss, ss.len() as int, i);
    let all = nodes(cs, ss, ss.len() as int);
    let k = choose|k: int| 0 <= k < all.len() && #[trigger] all[k] == node(cs, ss[i])->0;
    assert(all[k] == node(cs, ss[i])->0);
}

/// Everything that a search of the open documents finds has a name that holds what was searched
/// for, whatever its case.
pub proof fn law_a_search_finds_what_answers(docs: Seq<Document>, query: Seq<char>, n: int, i: int)
    requires
        0 <= n <= docs.len(),
        0 <= i < workspace(docs, query, n).len(),
        query.len() > 0,
    ensures
        contains(lowercase(workspace(docs, query, n)[i].name), lowercase(query)),
    decreases n,
{
    if n > 0 {
        let before = workspace(docs, query, n - 1);
        let infos = outline(docs[n - 1].uri@, docs[n - 1].state);
        let pred = |info: SymbolInformationV| answers(info.name, query);
        if i < before.len() {
            law_a_search_finds_what_answers(docs, query, n - 1, i);
        } else {
            infos.lemma_filter_pred(pred, i - before.len());
        }
    }
}

/// Everything in the outline of an open document whose name holds what was searched for is
/// found, and everything is found where nothing was searched for.
pub proof fn law_a_search_misses_nothing(docs: Seq<Document>, query: Seq<char>, n: int, d: int, i: int)
    requires
        0 <= d < n <= docs.len(),
        0 <= i < outline(docs[d].uri@, docs[d].state).len(),
        query.len() == 0 || contains(lowercase(outline(docs[d].uri@, docs[d].state)[i].name), lowercase(query)),
    ensures
        workspace(docs, query, n).contains(outline(docs[d].uri@, docs[d].state)[i]),
    decreases n,
{
    let infos = outline(docs[d].uri@, docs[d].state);
    let pred = |info: SymbolInformationV| answers(info.name, query);
    let all = workspace(docs, query, n);
    let before = workspace(docs, query, n - 1);
    if d == n - 1 {
        infos.lemma_filter_contains(pred, i);
        let found = infos.filter(pred);
        let k = choose|k: int| 0 <= k < found.len() && found[k] == infos[i];
        assert(answering(infos, query) == found);
        assert(all[before.len() + k] == infos[i]);
    } else {
        law_a_search_misses_nothing(docs, query, n - 1, d, i);
        let k = choose|k: int| 0 <= k < before.len() && before[k] == infos[i];
        assert(all[k] == infos[i]);
    }
}

// -- lenses -------------------------------------------------------------------------------------------

/// A lens counts every use but the declaration itself: of uses that are all different and hold
/// the declaration, one less than there are; of those that do not hold it, all.
pub proof fn law_a_lens_counts_all_but_the_declaration(refs: Seq<LocationV>, uri: Seq<char>, own: Range, n: int)
    requires
        0 <= n <= refs.len(),
        refs.no_duplicates(),
    ensures
        refs.take(n).contains(LocationV { uri, range: own }) ==> others(refs, uri, own, n) == n - 1,
        !refs.take(n).contains(LocationV { uri, range: own }) ==> others(refs, uri, own, n) == n,
    decreases n,
{
    let me = LocationV { uri, range: own };
    if n > 0 {
        law_a_lens_counts_all_but_the_declaration(refs, uri, own, n - 1);
        let fewer = refs.take(n - 1);
        let more = refs.take(n);
        assert(more =~= fewer.push(refs[n - 1]));
        if fewer.contains(me) {
            let k = choose|k: int| 0 <= k < fewer.len() && fewer[k] == me;
            assert(refs[k] == me && refs[k] != refs[n - 1]);
            assert(more[k] == me);
        } else if refs[n - 1] == me {
            assert(more[n - 1] == me);
        } else if more.contains(me) {
            let k = choose|k: int| 0 <= k < more.len() && more[k] == me;
            assert(fewer[k] == me);
        }
    }
}

/// A lens says how many uses there are, and `reference` of one alone.
pub proof fn law_a_lens_says_its_count(n: nat)
    ensures
        n == 1 ==> title(n) == "1 reference"@,
        n != 1 ==> title(n) == digits(n) + " references"@,
{
}

/// Each function and each class of a document has its own lens, in order, and nothing else has.
pub proof fn law_each_function_and_class_has_a_lens(
    uri: Seq<char>,
    state: DocumentState,
    docs: Seq<Document>,
    ss: Seq<Stmt>,
    n: int,
    i: int,
)
    requires
        0 <= i < n <= ss.len(),
        ss[i].kind is Fn || ss[i].kind is Class,
    ensures
        exists|k: int|
            0 <= k < lenses(uri, state, docs, ss, n).len() && #[trigger] lenses(uri, state, docs, ss, n)[k] == lens(
                uri,
                state,
                docs,
                ss[i],
                if ss[i].kind is Fn { ss[i].kind->Fn_0.name@ } else { ss[i].kind->Class_0.name@ },
            ),
        lenses(uri, state, docs, ss, n).len() <= n,
    decreases n,
{
    lemma_lenses_len(uri, state, docs, ss, n);
    let all = lenses(uri, state, docs, ss, n);
    let before = lenses(uri, state, docs, ss, n - 1);
    let name = counted_name(ss[i])->0;
    if i == n - 1 {
        assert(all[before.len() as int] == lens(uri, state, docs, ss[i], name));
    } else {
        law_each_function_and_class_has_a_lens(uri, state, docs, ss, n - 1, i);
        let k = choose|k: int| 0 <= k < before.len() && #[trigger] before[k] == lens(uri, state, docs, ss[i], name);
        assert(all[k] == before[k]);
    }
}

proof fn lemma_lenses_len(uri: Seq<char>, state: DocumentState, docs: Seq<Document>, ss: Seq<Stmt>, n: int)
    requires
        0 <= n <= ss.len(),
    ensures
        lenses(uri, state, docs, ss, n).len() <= n,
    decreases n,
{
    if n > 0 {
        lemma_lenses_len(uri, state, docs, ss, n - 1);
    }
}

// -- hints --------------------------------------------------------------------------------------------

/// A binding whose type was not said, and whose value has a known class, is given the name of
/// the class behind a colon, at the end of its own name.
pub proof fn law_an_unsaid_type_is_hinted(p: Seq<Stmt>, at: usize, value: Expr, class: Seq<char>)
    requires
        expr_type(p, value, crate::lsp::infer::REACH as nat) == TypeV::Class(class),
    ensures
        hint_for(p, at, None, Some(value)) == seq![HintV { at, label: ": "@ + class }],
{
}

/// A hint is shown just where it stands on a line of the range that was asked about.
pub proof fn law_hints_are_shown_on_the_lines_asked_about(cs: Seq<char>, hints: Seq<HintV>, range: Range, n: int, i: int)
    requires
        0 <= n <= hints.len(),
    ensures
        0 <= i < shown_hints(cs, hints, range, n).len() ==> range.start.line <= shown_hints(
            cs,
            hints,
            range,
            n,
        )[i].position.line <= range.end.line,
        0 <= i < n && range.start.line <= position_of(cs, hints[i].at as int).line <= range.end.line
            ==> shown_hints(cs, hints, range, n).contains(
            InlayHintV { position: position_of(cs, hints[i].at as int), label: hints[i].label },
        ),
    decreases n,
{
    if n > 0 {
        law_hints_are_shown_on_the_lines_asked_about(cs, hints, range, n - 1, i);
        let all = shown_hints(cs, hints, range, n);
        let before = shown_hints(cs, hints, range, n - 1);
        let one = InlayHintV { position: position_of(cs, hints[i].at as int), label: hints[i].label };
        if 0 <= i < n && range.start.line <= one.position.line <= range.end.line {
            if i == n - 1 {
                assert(all[before.len() as int] == one);
            } else {
                let k = choose|k: int| 0 <= k < before.len() && before[k] == one;
                assert(all[k] == one);
            }
        }
    }
}

// -- fixes --------------------------------------------------------------------------------------------

/// Whether an action only puts something in, and mends one of the first `n` errors.
pub open spec fn mends(a: CodeActionV, n: int) -> bool {
    &&& a.edit.range.start == a.edit.range.end
    &&& a.edit.new_text.len() > 0
    &&& a.diagnostic is Some
    &&& a.diagnostic->0 < n
}

proof fn lemma_imports(text: Seq<char>, i: int, d: DiagnosticV, n: int)
    requires
        0 <= n <= shipped_modules().len(),
        0 <= i <= usize::MAX,
    ensures
        forall|k: int|
            0 <= k < import_fixes(text, i, d, n).len() ==> mends(#[trigger] import_fixes(text, i, d, n)[k], i + 1),
        forall|m: int|
            0 <= m < n ==> (import_fixes(text, i, d, n).contains(import_fix(i, #[trigger] shipped_modules()[m]))
                <== contains(d.message, shipped_modules()[m]) && !contains(text, "import "@ + shipped_modules()[m])),
        (forall|m: int|
            0 <= m < n ==> !contains(d.message, #[trigger] shipped_modules()[m]) || contains(
                text,
                "import "@ + shipped_modules()[m],
            )) ==> import_fixes(text, i, d, n).len() == 0,
    decreases n,
{
    reveal_strlit("import ");
    if n > 0 {
        lemma_imports(text, i, d, n - 1);
        let all = import_fixes(text, i, d, n);
        let before = import_fixes(text, i, d, n - 1);
        assert forall|m: int|
            0 <= m < n && contains(d.message, #[trigger] shipped_modules()[m]) && !contains(
                text,
                "import "@ + shipped_modules()[m],
            ) implies all.contains(import_fix(i, shipped_modules()[m])) by {
            if m == n - 1 {
                assert(all[before.len() as int] == import_fix(i, shipped_modules()[m]));
            } else {
                let k = choose|k: int| 0 <= k < before.len() && before[k] == import_fix(i, shipped_modules()[m]);
                assert(all[k] == before[k]);
            }
        }
    }
}

/// A fix takes nothing away: it puts something in, and is for one of the errors.
pub proof fn law_a_fix_only_adds(text: Seq<char>, ds: Seq<DiagnosticV>, n: int, k: int)
    requires
        0 <= n <= ds.len(),
        ds.len() <= usize::MAX,
        0 <= k < fixes(text, ds, n).len(),
    ensures
        mends(fixes(text, ds, n)[k], n),
    decreases n,
{
    reveal_strlit("?");
    if n > 0 {
        let before = fixes(text, ds, n - 1);
        let a = nullable_fix(n - 1, ds[n - 1]);
        let b = import_fixes(text, n - 1, ds[n - 1], shipped_modules().len() as int);
        lemma_imports(text, n - 1, ds[n - 1], shipped_modules().len() as int);
        if k < before.len() {
            law_a_fix_only_adds(text, ds, n - 1, k);
        } else if k < before.len() + a.len() {
            assert(fixes(text, ds, n)[k] == a[k - before.len()]);
        } else {
            assert(fixes(text, ds, n)[k] == b[k - before.len() - a.len()]);
        }
    }
}

/// A module that the language ships is offered for an error that names it, unless the text
/// imports it already; an error that names none is offered none.
pub proof fn law_a_named_module_is_offered(text: Seq<char>, i: int, d: DiagnosticV, m: int)
    requires
        0 <= m < shipped_modules().len(),
        0 <= i <= usize::MAX,
    ensures
        contains(d.message, shipped_modules()[m]) && !contains(text, "import "@ + shipped_modules()[m])
            ==> import_fixes(text, i, d, shipped_modules().len() as int).contains(import_fix(i, shipped_modules()[m])),
        (forall|k: int| 0 <= k < shipped_modules().len() ==> !contains(d.message, #[trigger] shipped_modules()[k]))
            ==> import_fixes(text, i, d, shipped_modules().len() as int).len() == 0,
{
    lemma_imports(text, i, d, shipped_modules().len() as int);
    assert(contains(d.message, shipped_modules()[m]) || true);
}

// -- errors -------------------------------------------------------------------------------------------

/// Each error is drawn once and in order, as an error, at the place that it is about, with its
/// message in front.
pub proof fn law_each_error_is_drawn_where_it_is(source: Seq<char>, errors: Seq<ErrV>, n: int, i: int)
    requires
        0 <= i < n <= errors.len(),
    ensures
        all_drawn(source, errors, n).len() == n,
        all_drawn(source, errors, n)[i].range == range_of(source, errors[i].span),
        all_drawn(source, errors, n)[i].severity == Severity::Error,
        all_drawn(source, errors, n)[i].message.len() >= errors[i].message.len(),
        all_drawn(source, errors, n)[i].message.take(errors[i].message.len() as int) == errors[i].message,
    decreases n,
{
    if i < n - 1 {
        law_each_error_is_drawn_where_it_is(source, errors, n - 1, i);
    } else {
        if n > 1 {
            law_each_error_is_drawn_where_it_is(source, errors, n - 1, 0);
        }
        let d = drawn(source, errors[i]);
        assert(all_drawn(source, errors, n)[i] == d);
        assert(d.message.take(errors[i].message.len() as int) =~= errors[i].message);
    }
}

// -- folds --------------------------------------------------------------------------------------------

/// A function, a class, an `if`, a loop, a `try` and a block that goes over a line break is
/// folded, from its first line to its last.
pub proof fn law_what_goes_over_lines_is_folded(cs: Seq<char>, ss: Seq<Stmt>, n: int, i: int)
    requires
        0 <= i < n <= ss.len(),
        ({
            let k = ss[i].kind;
            k is Fn || k is Class || k is If || k is While || k is For || k is Try || k is Block
        }),
        position_of(cs, ss[i].span.start as int).line < position_of(cs, ss[i].span.end as int).line,
    ensures
        exists|k: int|
            {
                let one = #[trigger] stmt_folds(cs, ss, n)[k];
                &&& 0 <= k < stmt_folds(cs, ss, n).len()
                &&& one.start_line == position_of(cs, ss[i].span.start as int).line
                &&& one.end_line == position_of(cs, ss[i].span.end as int).line
                &&& one.kind == FoldKind::Region
            },
    decreases n,
{
    let all = stmt_folds(cs, ss, n);
    let before = stmt_folds(cs, ss, n - 1);
    if i == n - 1 {
        let own = folds(cs, ss[i]);
        assert(own[0] == region_of(cs, ss[i].span, fold_text(ss[i])->0));
        assert(all[before.len() as int] == own[0]);
    } else {
        law_what_goes_over_lines_is_folded(cs, ss, n - 1, i);
        let k = choose|k: int|
            {
                let one = #[trigger] before[k];
                &&& 0 <= k < before.len()
                &&& one.start_line == position_of(cs, ss[i].span.start as int).line
                &&& one.end_line == position_of(cs, ss[i].span.end as int).line
                &&& one.kind == FoldKind::Region
            };
        assert(all[k] == before[k]);
    }
}

proof fn lemma_docs(rs: Seq<Seq<char>>, i: int)
    requires
        0 <= i <= rs.len(),
    ensures
        i <= doc_end(rs, i) <= rs.len(),
        forall|k: int| i <= k < doc_end(rs, i) ==> is_doc_row(#[trigger] rs[k]),
        doc_end(rs, i) < rs.len() ==> !is_doc_row(rs[doc_end(rs, i)]),
    decreases rs.len() - i,
{
    if i < rs.len() && is_doc_row(rs[i]) {
        lemma_docs(rs, i + 1);
    }
}

/// Every folded comment is made of rows of doc comment alone, and ends where they do.
pub proof fn law_a_folded_comment_is_a_whole_doc_comment(rs: Seq<Seq<char>>, i: int, k: int)
    requires
        0 <= i <= rs.len() <= usize::MAX,
        0 <= k < doc_folds(rs, i).len(),
    ensures
        ({
            let one = doc_folds(rs, i)[k];
            &&& i <= one.start_line < one.end_line < rs.len()
            &&& one.kind == FoldKind::Comment
            &&& forall|r: int| one.start_line <= r <= one.end_line ==> is_doc_row(#[trigger] rs[r])
            &&& one.end_line + 1 < rs.len() ==> !is_doc_row(rs[one.end_line + 1])
        }),
    decreases rs.len() - i,
{
    if i < rs.len() {
        lemma_docs(rs, i);
        let end = doc_end(rs, i);
        if is_doc_row(rs[i]) && end > i {
            let first: Seq<FoldingRangeV> = doc_folds(rs, i);
            let own = if i < end - 1 { 1int } else { 0 };
            if k < own {
            } else {
                assert(end < rs.len());
                assert(doc_folds(rs, i)[k] == doc_folds(rs, end)[k - own]);
                law_a_folded_comment_is_a_whole_doc_comment(rs, end, k - own);
            }
        } else {
            law_a_folded_comment_is_a_whole_doc_comment(rs, i + 1, k);
        }
    }
}

// -- selections ---------------------------------------------------------------------------------------

/// Whether no span reaches further than one before it.
pub open spec fn narrowing(s: Seq<Span>) -> bool {
    forall|i: int, j: int| 0 <= i < j < s.len() ==> reach(#[trigger] s[i]) >= reach(#[trigger] s[j])
}

proof fn lemma_placed(s: Seq<Span>, x: Span)
    requires
        narrowing(s),
    ensures
        narrowing(placed(s, x)),
        placed(s, x).len() == s.len() + 1,
        placed(s, x).contains(x),
        forall|i: int| 0 <= i < s.len() ==> placed(s, x).contains(#[trigger] s[i]),
        forall|i: int| 0 <= i < placed(s, x).len() ==> #[trigger] placed(s, x)[i] == x || s.contains(placed(s, x)[i]),
    decreases s.len(),
{
    let r = placed(s, x);
    if s.len() > 0 && reach(s.last()) < reach(x) {
        let front = s.drop_last();
        assert forall|i: int, j: int| 0 <= i < j < front.len() implies reach(#[trigger] front[i]) >= reach(
            #[trigger] front[j],
        ) by {
            assert(front[i] == s[i] && front[j] == s[j]);
        }
        lemma_placed(front, x);
        let inner = placed(front, x);
        assert(r == inner.push(s.last()));
        assert forall|i: int| 0 <= i < r.len() implies #[trigger] r[i] == x || s.contains(r[i]) by {
            if i < inner.len() {
                assert(r[i] == inner[i]);
                if inner[i] != x {
                    let k = choose|k: int| 0 <= k < front.len() && front[k] == inner[i];
                    assert(s[k] == inner[i]);
                }
            } else {
                assert(s[s.len() - 1] == r[i]);
            }
        }
        assert forall|i: int, j: int| 0 <= i < j < r.len() implies reach(#[trigger] r[i]) >= reach(#[trigger] r[j]) by {
            if j < inner.len() {
                assert(inner[i] == r[i] && inner[j] == r[j]);
            } else {
                assert(inner[i] == r[i]);
                if inner[i] != x {
                    let k = choose|k: int| 0 <= k < front.len() && front[k] == inner[i];
                    assert(s[k] == inner[i] && s[s.len() - 1] == r[j]);
                }
            }
        }
        assert forall|i: int| 0 <= i < s.len() implies r.contains(#[trigger] s[i]) by {
            if i < front.len() {
                assert(front[i] == s[i]);
                let k = choose|k: int| 0 <= k < inner.len() && inner[k] == s[i];
                assert(r[k] == s[i]);
            } else {
                assert(r[inner.len() as int] == s[i]);
            }
        }
        let k = choose|k: int| 0 <= k < inner.len() && inner[k] == x;
        assert(r[k] == x);
    } else {
        assert(r == s.push(x));
        assert(r[s.len() as int] == x);
        assert forall|i: int| 0 <= i < s.len() implies r.contains(#[trigger] s[i]) by {
            assert(r[i] == s[i]);
        }
        assert forall|i: int, j: int| 0 <= i < j < r.len() implies reach(#[trigger] r[i]) >= reach(#[trigger] r[j]) by {
            if j < s.len() {
                assert(s[i] == r[i] && s[j] == r[j]);
            } else {
                assert(s[i] == r[i]);
                assert(reach(s[i]) >= reach(s[s.len() - 1]));
            }
        }
    }
}

/// Selections go from the outside in, and leave out no span and add none.
pub proof fn law_a_selection_narrows(s: Seq<Span>)
    ensures
        narrowing(widest_first(s)),
        widest_first(s).len() == s.len(),
        forall|i: int| 0 <= i < s.len() ==> widest_first(s).contains(#[trigger] s[i]),
        forall|i: int| 0 <= i < s.len() ==> s.contains(#[trigger] widest_first(s)[i]),
    decreases s.len(),
{
    if s.len() > 0 {
        let front = s.drop_last();
        law_a_selection_narrows(front);
        let inner = widest_first(front);
        lemma_placed(inner, s.last());
        let r = widest_first(s);
        assert forall|i: int| 0 <= i < s.len() implies r.contains(#[trigger] s[i]) by {
            if i < front.len() {
                assert(front[i] == s[i]);
                let k = choose|k: int| 0 <= k < inner.len() && inner[k] == s[i];
                assert(r.contains(inner[k]));
            }
        }
        assert forall|i: int| 0 <= i < r.len() implies s.contains(#[trigger] r[i]) by {
            if r[i] == s.last() {
                assert(s[s.len() - 1] == r[i]);
            } else {
                let k = choose|k: int| 0 <= k < inner.len() && inner[k] == r[i];
                assert(front.contains(inner[k]));
                let m = choose|m: int| 0 <= m < front.len() && front[m] == inner[k];
                assert(s[m] == r[i]);
            }
        }
    }
}

/// Leaving out what repeats leaves every span that there was, and none twice in a row.
pub proof fn law_no_selection_repeats(s: Seq<Span>)
    ensures
        forall|i: int| 0 <= i < s.len() ==> unrepeated(s).contains(#[trigger] s[i]),
        forall|i: int| 0 <= i < unrepeated(s).len() ==> s.contains(#[trigger] unrepeated(s)[i]),
        forall|i: int| 0 <= i < unrepeated(s).len() - 1 ==> #[trigger] unrepeated(s)[i] != unrepeated(s)[i + 1],
        s.len() > 0 ==> unrepeated(s).len() > 0 && unrepeated(s).last() == s.last(),
    decreases s.len(),
{
    let r = unrepeated(s);
    if s.len() > 1 {
        let front = s.drop_last();
        law_no_selection_repeats(front);
        let inner = unrepeated(front);
        assert(front.last() == s[s.len() - 2]);
        if s.last() == s[s.len() - 2] {
            assert forall|i: int| 0 <= i < s.len() implies r.contains(#[trigger] s[i]) by {
                if i < front.len() {
                    assert(front[i] == s[i]);
                } else {
                    assert(r.contains(front[front.len() - 1]));
                }
            }
        } else {
            assert forall|i: int| 0 <= i < s.len() implies r.contains(#[trigger] s[i]) by {
                if i < front.len() {
                    assert(front[i] == s[i]);
                    let k = choose|k: int| 0 <= k < inner.len() && inner[k] == s[i];
                    assert(r[k] == s[i]);
                } else {
                    assert(r[inner.len() as int] == s[i]);
                }
            }
        }
        assert forall|i: int| 0 <= i < r.len() implies s.contains(#[trigger] r[i]) by {
            if i < inner.len() {
                assert(r[i] == inner[i]);
                assert(front.contains(inner[i]));
                let m = choose|m: int| 0 <= m < front.len() && front[m] == inner[i];
                assert(s[m] == r[i]);
            } else {
                assert(s[s.len() - 1] == r[i]);
            }
        }
    } else if s.len() == 1 {
        assert(r[0] == s[0]);
    }
}

/// A statement that a place stands in is among what may be selected there, and one that it does
/// not stand in is not entered.
pub proof fn law_a_selection_holds_the_statement(ss: Seq<Stmt>, at: int, n: int, i: int)
    requires
        0 <= i < n <= ss.len(),
    ensures
        ss[i].span.start <= at <= ss[i].span.end ==> stmt_spans(ss, at, n).contains(ss[i].span),
        !(ss[i].span.start <= at <= ss[i].span.end) ==> own_spans(ss[i], at).len() == 0,
    decreases n,
{
    if inside(ss[i].span, at) {
        let all = stmt_spans(ss, at, n);
        let before = stmt_spans(ss, at, n - 1);
        if i == n - 1 {
            assert(own_spans(ss[i], at)[0] == ss[i].span);
            assert(all[before.len() as int] == ss[i].span);
        } else {
            law_a_selection_holds_the_statement(ss, at, n - 1, i);
            let k = choose|k: int| 0 <= k < before.len() && before[k] == ss[i].span;
            assert(all[k] == ss[i].span);
        }
    }
}

// -- signatures ---------------------------------------------------------------------------------------

proof fn lemma_bracket_moves(s: Seq<char>, t: Seq<char>, n: int, depth: nat, commas: nat, more: nat)
    requires
        0 <= n <= s.len(),
        n <= t.len(),
        s.take(n) == t.take(n),
    ensures
        match open_bracket(s, n, depth, commas) {
            Some((k, c)) => open_bracket(t, n, depth, commas + more) == Some((k, c + more)) && 0 <= k < n,
            None => open_bracket(t, n, depth, commas + more) is None,
        },
    decreases n,
{
    if n > 0 {
        assert(s[n - 1] == s.take(n)[n - 1]);
        assert(t[n - 1] == t.take(n)[n - 1]);
        assert(s.take(n - 1) =~= s.take(n).take(n - 1));
        assert(t.take(n - 1) =~= t.take(n).take(n - 1));
        if s[n - 1] == ')' {
            lemma_bracket_moves(s, t, n - 1, depth + 1, commas, more);
        } else if s[n - 1] == '(' {
            if depth > 0 {
                lemma_bracket_moves(s, t, n - 1, (depth - 1) as nat, commas, more);
            }
        } else if s[n - 1] == ',' && depth == 0 {
            lemma_bracket_moves(s, t, n - 1, depth, commas + 1, more);
        } else {
            lemma_bracket_moves(s, t, n - 1, depth, commas, more);
        }
    }
}

/// A comma goes on to the next argument of the call that is being written; anything else that
/// is neither a comma nor a bracket stays at the same one. Both stay in the same call.
pub proof fn law_a_comma_goes_on_to_the_next_argument(s: Seq<char>, c: char)
    requires
        c != '(' && c != ')',
    ensures
        ({
            let before = open_call(s);
            let after = open_call(s.push(c));
            &&& before is None ==> after is None
            &&& before is Some ==> after is Some && after->0.callee == before->0.callee && after->0.before
                == before->0.before
            &&& before is Some && c == ',' ==> after->0.active == before->0.active + 1
            &&& before is Some && c != ',' ==> after->0.active == before->0.active
        }),
{
    let t = s.push(c);
    let more: nat = if c == ',' {
        1
    } else {
        0
    };
    assert(t.take(s.len() as int) =~= s.take(s.len() as int));
    lemma_bracket_moves(s, t, s.len() as int, 0, 0, more);
    assert(open_bracket(t, t.len() as int, 0, 0) == open_bracket(t, s.len() as int, 0, more));
    if let Some((k, commas)) = open_bracket(s, s.len() as int, 0, 0) {
        assert(s.take(k) =~= t.take(k));
    }
}

/// An opening bracket behind a name starts a call of that name, at its first argument.
pub proof fn law_a_bracket_behind_a_name_starts_a_call(s: Seq<char>)
    requires
        s.len() > 0,
        in_name(s.last()),
        trim_end(s) == s,
    ensures
        ({
            let call = open_call(s.push('('));
            &&& call is Some
            &&& call->0.active == 0
            &&& call->0.before + call->0.callee == s
            &&& call->0.callee.len() > 0
            &&& forall|i: int| 0 <= i < call->0.callee.len() ==> in_name(#[trigger] call->0.callee[i])
        }),
{
    let t = s.push('(');
    assert(t.take(s.len() as int) =~= s);
    lemma_name(s, s.len() as int);
    let start = name_start(s, s.len() as int);
    assert(start < s.len());
    assert(s.take(start) + s.skip(start) =~= s);
}

proof fn lemma_name(s: Seq<char>, n: int)
    requires
        0 <= n <= s.len(),
    ensures
        0 <= name_start(s, n) <= n,
        forall|i: int| name_start(s, n) <= i < n ==> in_name(#[trigger] s[i]),
        n > 0 && in_name(s[n - 1]) ==> name_start(s, n) < n,
    decreases n,
{
    if n > 0 && in_name(s[n - 1]) {
        lemma_name(s, n - 1);
    }
}

/// A signature names the parameters of what is called, in order; the receiver is left out only
/// where that was asked for.
pub proof fn law_a_signature_names_the_parameters(ps: Seq<Param>, n: int, i: int)
    requires
        0 <= i < n <= ps.len(),
    ensures
        param_names(ps, false, n).len() == n,
        param_names(ps, false, n)[i] == ps[i].name@,
        !ps[i].receiver && ps[i].name@ != "self"@ ==> param_names(ps, true, n).contains(ps[i].name@),
        forall|k: int| 0 <= k < param_names(ps, true, n).len() ==> #[trigger] param_names(ps, true, n)[k] != "self"@,
    decreases n,
{
    if n > 1 {
        law_a_signature_names_the_parameters(ps, n - 1, if i < n - 1 { i } else { 0 });
    } else {
        assert(param_names(ps, false, 0) == Seq::<Seq<char>>::empty());
        assert(param_names(ps, true, 0) == Seq::<Seq<char>>::empty());
    }
    assert(param_names(ps, false, n) == param_names(ps, false, n - 1).push(ps[n - 1].name@));
    let all = param_names(ps, true, n);
    let before = param_names(ps, true, n - 1);
    if i == n - 1 {
        if !ps[i].receiver && ps[i].name@ != "self"@ {
            assert(all[before.len() as int] == ps[i].name@);
        }
    } else if !ps[i].receiver && ps[i].name@ != "self"@ {
        let k = choose|k: int| 0 <= k < before.len() && before[k] == ps[i].name@;
        assert(all[k] == ps[i].name@);
    }
}

// -- tokens -------------------------------------------------------------------------------------------

/// What an editor is sent of a token's place is how far it is from the token before: adding
/// that to the place of that one gives its own place back.
pub proof fn law_a_token_is_found_from_the_one_before(s: Seq<RawSemanticToken>, i: int)
    requires
        is_ordered(s),
        0 <= i < s.len(),
    ensures
        ({
            let line = if i == 0 { 0int } else { s[i - 1].line as int };
            let col = if i == 0 { 0int } else { s[i - 1].col as int };
            let t = counted(s)[i];
            &&& line + t.delta_line == s[i].line
            &&& t.delta_line == 0 ==> col + t.delta_start == s[i].col
            &&& t.delta_line != 0 ==> t.delta_start == s[i].col
            &&& t.length == s[i].len
            &&& t.token_type == s[i].token_type
            &&& t.token_modifiers_bitset == s[i].modifiers
        }),
{
    if i > 0 {
        assert(!crate::lsp::semantic::stands_before(s[i], s[i - 1]));
    }
}

} // verus!
