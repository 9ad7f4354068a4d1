//! What may be written at a place: keywords, what is born with the language, what the
//! program declares, and what its text names.

use crate::error::{catchable, class_name_of, error_kinds, ErrorKind};
use crate::lsp::document::DocumentState;
use crate::lsp::item::{item, items_v, offer, offering, push, CompletionItem, ItemKind, ItemV};
use crate::lsp::members::{collect_dot_completions_for_class, dot_items, is_keyword, runs, runs_of};
use crate::lsp::position::{char_index, place, position_of, Position};
use crate::lsp::receiver::{
    after_dot, get_receiver_before_dot, infer_receiver_class, is_preceded_by_dot, receiver_before,
    receiver_class, rows_counted,
};
use crate::lsp::rows::{rows, rows_of, starts, starts_with, text, trim, trimmed, vecs};
use crate::syntax::ast::{FnDecl, Param, Stmt, StmtKind};
use crate::syntax::token::{all_keywords, keyword_of, keywords};
use crate::text::{alphabetic, byte_len, cat2, cat3, cat5, chars_of, is_alphabetic, offset};
use std::rc::Rc;
use vstd::prelude::*;

verus! {

// -- what a program declares -----------------------------------------------------------------------------

/// The parameters among the first `n`.
pub open spec fn param_items(ps: Seq<Param>, n: int) -> Seq<ItemV>
    decreases n,
{
    if 0 < n <= ps.len() {
        param_items(ps, n - 1).push(item(ps[n - 1].name@, ItemKind::Variable, "parameter"@))
    } else {
        Seq::empty()
    }
}

/// What the first `n` methods of a class declare.
pub open spec fn method_items(cs: Seq<char>, class: Seq<char>, ms: Seq<Rc<FnDecl>>, line: int, n: int) -> Seq<ItemV>
    decreases ms, n,
{
    if 0 < n <= ms.len() {
        method_items(cs, class, ms, line, n - 1) + one_method(cs, class, ms[n - 1], line)
    } else {
        Seq::empty()
    }
}

/// What one method declares.
pub open spec fn one_method(cs: Seq<char>, class: Seq<char>, m: Rc<FnDecl>, line: int) -> Seq<ItemV>
    decreases m, 1int,
{
    seq![item(m.name@, ItemKind::Method, "method "@ + class + "."@ + m.name@ + "()"@)] + param_items(
        m.params@,
        m.params@.len() as int,
    ) + body_items(cs, m, line)
}

/// What the body of a function declares.
pub open spec fn body_items(cs: Seq<char>, m: Rc<FnDecl>, line: int) -> Seq<ItemV>
    decreases m, 0int,
{
    stmt_items(cs, m.body.stmts@, line, m.body.stmts@.len() as int)
}

/// What a statement declares, unless it starts below a line.
pub open spec fn one_stmt(cs: Seq<char>, s: Stmt, line: int) -> Seq<ItemV>
    decreases s, 1int,
{
    if position_of(cs, s.span.start as int).line > line {
        Seq::empty()
    } else {
        declared(cs, s, line)
    }
}

/// What a statement declares.
pub open spec fn declared(cs: Seq<char>, s: Stmt, line: int) -> Seq<ItemV>
    decreases s, 0int,
{
    match s.kind {
        StmtKind::Fn(decl) => seq![item(decl.name@, ItemKind::Function, "fn "@ + decl.name@ + "(...)"@)] + param_items(
            decl.params@,
            decl.params@.len() as int,
        ) + body_items(cs, decl, line),
        StmtKind::Class(decl) => seq![item(decl.name@, ItemKind::Class, "class "@ + decl.name@)] + method_items(
            cs,
            decl.name@,
            decl.methods@,
            line,
            decl.methods@.len() as int,
        ),
        StmtKind::Let { name, name_span, ty, value, bind, visibility } => seq![
            item(name@, ItemKind::Variable, bind.spelled() + " variable"@),
        ],
        StmtKind::If { cond, consequent, otherwise } => stmt_items(
            cs,
            consequent.stmts@,
            line,
            consequent.stmts@.len() as int,
        ) + match otherwise {
            Some(other) => one_stmt(cs, *other, line),
            None => Seq::empty(),
        },
        StmtKind::While { cond, body } => stmt_items(cs, body.stmts@, line, body.stmts@.len() as int),
        StmtKind::For { var, iter, body } => seq![item(var@, ItemKind::Variable, "loop variable"@)] + stmt_items(
            cs,
            body.stmts@,
            line,
            body.stmts@.len() as int,
        ),
        StmtKind::Try { body, binding, handler } => seq![
            item(binding@, ItemKind::Variable, "caught error variable"@),
        ] + stmt_items(cs, body.stmts@, line, body.stmts@.len() as int) + stmt_items(
            cs,
            handler.stmts@,
            line,
            handler.stmts@.len() as int,
        ),
        StmtKind::Block(b) => stmt_items(cs, b.stmts@, line, b.stmts@.len() as int),
        _ => Seq::empty(),
    }
}

/// What those of the first `n` statements declare that start no lower than a line.
pub open spec fn stmt_items(cs: Seq<char>, ss: Seq<Stmt>, line: int, n: int) -> Seq<ItemV>
    decreases ss, n,
{
    if 0 < n <= ss.len() {
        stmt_items(cs, ss, line, n - 1) + one_stmt(cs, ss[n - 1], line)
    } else {
        Seq::empty()
    }
}

fn push_params(params: &Vec<Param>, items: &mut Vec<CompletionItem>)
    ensures
        items_v(final(items)@) == items_v(old(items)@) + param_items(params@, params@.len() as int),
{
    let ghost before = items_v(items@);
    let mut i: usize = 0;
    assert(before + Seq::<ItemV>::empty() =~= before);
    while i < params.len()
        invariant
            i <= params@.len(),
            before == items_v(old(items)@),
            items_v(items@) == before + param_items(params@, i as int),
        decreases params@.len() - i,
    {
        push(items, params[i].name.as_str(), ItemKind::Variable, "parameter".to_owned());
        i += 1;
        assert(items_v(items@) =~= before + param_items(params@, i as int));
    }
}

fn push_methods(cs: &Vec<char>, class: &str, ms: &Vec<Rc<FnDecl>>, line: usize, items: &mut Vec<CompletionItem>)
    ensures
        items_v(final(items)@) == items_v(old(items)@) + method_items(cs@, class@, ms@, line as int, ms@.len() as int),
    decreases ms@,
{
    let ghost before = items_v(items@);
    let mut i: usize = 0;
    assert(before + Seq::<ItemV>::empty() =~= before);
    while i < ms.len()
        invariant
            i <= ms@.len(),
            before == items_v(old(items)@),
            items_v(items@) == before + method_items(cs@, class@, ms@, line as int, i as int),
        decreases ms@.len() - i,
    {
        let ghost so_far = items_v(items@);
        let m: &Rc<FnDecl> = &ms[i];
        let name = m.name.as_str();
        push(items, name, ItemKind::Method, cat5("method ", class, ".", name, "()"));
        push_params(&m.params, items);
        collect_ast_completions(cs, &m.body.stmts, line, items);
        i += 1;
        proof {
            assert(body_items(cs@, ms@[i - 1], line as int) == stmt_items(
                cs@,
                m.body.stmts@,
                line as int,
                m.body.stmts@.len() as int,
            ));
            assert(items_v(items@) =~= so_far + one_method(cs@, class@, ms@[i - 1], line as int));
            assert(method_items(cs@, class@, ms@, line as int, i as int) == method_items(
                cs@,
                class@,
                ms@,
                line as int,
                i - 1,
            ) + one_method(cs@, class@, ms@[i - 1], line as int));
            assert(items_v(items@) =~= before + method_items(cs@, class@, ms@, line as int, i as int));
        }
    }
}

fn push_declared(cs: &Vec<char>, s: &Stmt, line: usize, items: &mut Vec<CompletionItem>)
    ensures
        items_v(final(items)@) == items_v(old(items)@) + declared(cs@, *s, line as int),
    decreases s, 0int,
{
    let ghost before = items_v(items@);
    let ghost l = line as int;
    match &s.kind {
        StmtKind::Fn(decl) => {
            let name = decl.name.as_str();
            push(items, name, ItemKind::Function, cat3("fn ", name, "(...)"));
            push_params(&decl.params, items);
            collect_ast_completions(cs, &decl.body.stmts, line, items);
            assert(body_items(cs@, *decl, l) == stmt_items(cs@, decl.body.stmts@, l, decl.body.stmts@.len() as int));
            assert(items_v(items@) =~= before + declared(cs@, *s, l));
        },
        StmtKind::Class(decl) => {
            let name = decl.name.as_str();
            push(items, name, ItemKind::Class, cat2("class ", name));
            push_methods(cs, name, &decl.methods, line, items);
            assert(items_v(items@) =~= before + declared(cs@, *s, l));
        },
        StmtKind::Let { name, name_span, ty, value, bind, visibility } => {
            push(items, name.as_str(), ItemKind::Variable, cat2(bind.word(), " variable"));
            assert(items_v(items@) =~= before + declared(cs@, *s, l));
        },
        StmtKind::If { cond, consequent, otherwise } => {
            collect_ast_completions(cs, &consequent.stmts, line, items);
            if let Some(other) = otherwise {
                push_one(cs, other, line, items);
            }
            assert(items_v(items@) =~= before + declared(cs@, *s, l));
        },
        StmtKind::While { cond, body } => {
            collect_ast_completions(cs, &body.stmts, line, items);
        },
        StmtKind::For { var, iter, body } => {
            push(items, var.as_str(), ItemKind::Variable, "loop variable".to_owned());
            collect_ast_completions(cs, &body.stmts, line, items);
            assert(items_v(items@) =~= before + declared(cs@, *s, l));
        },
        StmtKind::Try { body, binding, handler } => {
            push(items, binding.as_str(), ItemKind::Variable, "caught error variable".to_owned());
            collect_ast_completions(cs, &body.stmts, line, items);
            collect_ast_completions(cs, &handler.stmts, line, items);
            assert(items_v(items@) =~= before + declared(cs@, *s, l));
        },
        StmtKind::Block(b) => {
            collect_ast_completions(cs, &b.stmts, line, items);
        },
        _ => {},
    }
    assert(items_v(items@) =~= before + declared(cs@, *s, l));
}

fn push_one(cs: &Vec<char>, s: &Stmt, line: usize, items: &mut Vec<CompletionItem>)
    ensures
        items_v(final(items)@) == items_v(old(items)@) + one_stmt(cs@, *s, line as int),
    decreases s, 1int,
{
    let n = char_index(cs, s.span.start);
    let at = place(cs, n);
    if at.line <= line {
        push_declared(cs, s, line, items);
    } else {
        assert(items_v(items@) + Seq::<ItemV>::empty() =~= items_v(items@));
    }
}

/// Adds what some statements declare, down to a line.
pub fn collect_ast_completions(cs: &Vec<char>, stmts: &Vec<Stmt>, line: usize, items: &mut Vec<CompletionItem>)
    ensures
        items_v(final(items)@) == items_v(old(items)@) + stmt_items(cs@, stmts@, line as int, stmts@.len() as int),
    decreases stmts@,
{
    let ghost before = items_v(items@);
    let mut i: usize = 0;
    assert(before + Seq::<ItemV>::empty() =~= before);
    while i < stmts.len()
        invariant
            i <= stmts@.len(),
            before == items_v(old(items)@),
            items_v(items@) == before + stmt_items(cs@, stmts@, line as int, i as int),
        decreases stmts@.len() - i,
    {
        push_one(cs, &stmts[i], line, items);
        i += 1;
        assert(stmt_items(cs@, stmts@, line as int, i as int) == stmt_items(cs@, stmts@, line as int, i - 1) + one_stmt(
            cs@,
            stmts@[i - 1],
            line as int,
        ));
        assert(items_v(items@) =~= before + stmt_items(cs@, stmts@, line as int, i as int));
    }
}

// -- what a text names ---------------------------------------------------------------------------------------

/// Whether a word may name a variable: longer than one byte, and no keyword.
pub open spec fn names_variable(word: Seq<char>) -> bool {
    offset(word, word.len() as int) > 1 && (word[0] == '_' || alphabetic(word[0])) && keyword_of(word) is None
}

/// Items with the variables that the first `n` of some words name.
pub open spec fn with_words(items: Seq<ItemV>, ws: Seq<Seq<char>>, n: int) -> Seq<ItemV>
    decreases n,
{
    if 0 < n <= ws.len() {
        let before = with_words(items, ws, n - 1);
        if names_variable(ws[n - 1]) {
            offering(before, item(ws[n - 1], ItemKind::Variable, "identifier"@))
        } else {
            before
        }
    } else {
        items
    }
}

/// Items with the variables that the first `n` rows name; a comment names none.
pub open spec fn with_rows(items: Seq<ItemV>, rs: Seq<Seq<char>>, n: int) -> Seq<ItemV>
    decreases n,
{
    if 0 < n <= rs.len() {
        let before = with_rows(items, rs, n - 1);
        let ws = runs(rs[n - 1], false, 0);
        if starts(trim(rs[n - 1]), "#"@) {
            before
        } else {
            with_words(before, ws, ws.len() as int)
        }
    } else {
        items
    }
}

fn offer_words(items: &mut Vec<CompletionItem>, ws: &Vec<Vec<char>>)
    ensures
        items_v(final(items)@) == with_words(items_v(old(items)@), vecs(ws@), ws@.len() as int),
{
    let ghost before = items_v(items@);
    let mut i: usize = 0;
    while i < ws.len()
        invariant
            i <= ws@.len(),
            before == items_v(old(items)@),
            items_v(items@) == with_words(before, vecs(ws@), i as int),
        decreases ws@.len() - i,
    {
        assert(vecs(ws@)[i as int] == ws@[i as int]@);
        let word = &ws[i];
        let name = text(word);
        if byte_len(name.as_str()) > 1 && (word[0] == '_' || is_alphabetic(word[0])) && !is_keyword(name.as_str()) {
            offer(items, name.as_str(), ItemKind::Variable, "identifier".to_owned());
        }
        i += 1;
    }
}

/// Adds what the text down to a line names and no item offers yet.
pub fn collect_text_variable_completions(source: &str, pos: Position, items: &mut Vec<CompletionItem>)
    ensures
        items_v(final(items)@) == with_rows(
            items_v(old(items)@),
            rows(source@),
            rows_counted(rows(source@), pos.line as int),
        ),
{
    let cs = chars_of(source);
    let rs = rows_of(&cs);
    let ghost all = rows(source@);
    assert(vecs(rs@).len() == rs@.len());
    let ghost before = items_v(items@);
    let mut i: usize = 0;
    while i < rs.len() && i <= pos.line
        invariant
            i <= rs@.len(),
            i <= pos.line + 1,
            vecs(rs@) == all,
            all == rows(source@),
            before == items_v(old(items)@),
            items_v(items@) == with_rows(before, all, i as int),
        decreases rs@.len() - i,
    {
        let row = &rs[i];
        assert(all[i as int] == row@);
        let t = trimmed(row);
        if !starts_with(&t, "#") {
            let ws = runs_of(row, false);
            assert(vecs(ws@).len() == ws@.len());
            offer_words(items, &ws);
        }
        i += 1;
    }
}

// -- all of it -------------------------------------------------------------------------------------------------

/// Items with the first `n` keywords.
pub open spec fn keyword_items(n: int) -> Seq<ItemV>
    decreases n,
{
    if 0 < n <= all_keywords().len() {
        keyword_items(n - 1).push(item(all_keywords()[n - 1], ItemKind::Keyword, "Quince keyword"@))
    } else {
        Seq::empty()
    }
}

/// What the language is born with.
pub open spec fn born_items() -> Seq<ItemV> {
    seq![
        item("print"@, ItemKind::Function, "fn print(...) - Prints values to stdout"@),
        item("type"@, ItemKind::Function, "fn type(value) - Returns the type name of a value"@),
        item("len"@, ItemKind::Function, "fn len(collection) - Returns the length of a collection"@),
        item("int"@, ItemKind::TypeParameter, "Built-in integer type constructor"@),
        item("float"@, ItemKind::TypeParameter, "Built-in float type constructor"@),
        item("string"@, ItemKind::TypeParameter, "Built-in string type constructor"@),
        item("list"@, ItemKind::TypeParameter, "Built-in list type constructor"@),
        item("dict"@, ItemKind::TypeParameter, "Built-in dict type constructor"@),
    ]
}

/// The name of the class of a kind of error.
pub open spec fn error_name(kind: ErrorKind) -> Seq<char> {
    match class_name_of(kind) {
        Some(name) => name,
        None => Seq::empty(),
    }
}

/// The classes of the first `n` kinds of error.
pub open spec fn error_items(n: int) -> Seq<ItemV>
    decreases n,
{
    if 0 < n <= catchable().len() {
        let name = error_name(catchable()[n - 1]);
        error_items(n - 1).push(item(name, ItemKind::Class, "Built-in error class "@ + name))
    } else {
        Seq::empty()
    }
}

/// What may be written at a place of a document.
pub open spec fn completions(state: DocumentState, pos: Position) -> Seq<ItemV> {
    let cs = state.text@;
    if after_dot(cs, pos) {
        match receiver_before(cs, pos) {
            Some(receiver) => dot_items(
                cs,
                match state.ast {
                    Some(ast) => Some(ast@),
                    None => None,
                },
                receiver,
                receiver_class(rows(cs), receiver, pos.line as int, rows_counted(rows(cs), pos.line as int)),
            ),
            None => Seq::empty(),
        }
    } else {
        let born = keyword_items(all_keywords().len() as int) + born_items() + error_items(catchable().len() as int);
        let declared = match state.ast {
            Some(ast) => born + stmt_items(cs, ast@, pos.line as int, ast@.len() as int),
            None => born,
        };
        with_rows(declared, rows(cs), rows_counted(rows(cs), pos.line as int))
    }
}

fn push_keywords(items: &mut Vec<CompletionItem>)
    ensures
        items_v(final(items)@) == items_v(old(items)@) + keyword_items(all_keywords().len() as int),
{
    let words = keywords();
    let ghost before = items_v(items@);
    let ghost names = Seq::new(words@.len(), |i: int| words@[i]@);
    let mut i: usize = 0;
    assert(before + Seq::<ItemV>::empty() =~= before);
    while i < words.len()
        invariant
            i <= words@.len(),
            names == Seq::new(words@.len(), |i: int| words@[i]@),
            names == all_keywords(),
            before == items_v(old(items)@),
            items_v(items@) == before + keyword_items(i as int),
        decreases words@.len() - i,
    {
        assert(names[i as int] == words@[i as int]@);
        push(items, words[i], ItemKind::Keyword, "Quince keyword".to_owned());
        i += 1;
        assert(items_v(items@) =~= before + keyword_items(i as int));
    }
}

fn push_born(items: &mut Vec<CompletionItem>)
    ensures
        items_v(final(items)@) == items_v(old(items)@) + born_items(),
{
    let ghost before = items_v(items@);
    push(items, "print", ItemKind::Function, "fn print(...) - Prints values to stdout".to_owned());
    push(items, "type", ItemKind::Function, "fn type(value) - Returns the type name of a value".to_owned());
    push(items, "len", ItemKind::Function, "fn len(collection) - Returns the length of a collection".to_owned());
    push(items, "int", ItemKind::TypeParameter, "Built-in integer type constructor".to_owned());
    push(items, "float", ItemKind::TypeParameter, "Built-in float type constructor".to_owned());
    push(items, "string", ItemKind::TypeParameter, "Built-in string type constructor".to_owned());
    push(items, "list", ItemKind::TypeParameter, "Built-in list type constructor".to_owned());
    push(items, "dict", ItemKind::TypeParameter, "Built-in dict type constructor".to_owned());
    assert(items_v(items@) =~= before + born_items());
}

fn push_errors(items: &mut Vec<CompletionItem>)
    ensures
        items_v(final(items)@) == items_v(old(items)@) + error_items(catchable().len() as int),
{
    let kinds = error_kinds();
    let ghost before = items_v(items@);
    let mut i: usize = 0;
    assert(before + Seq::<ItemV>::empty() =~= before);
    while i < kinds.len()
        invariant
            i <= kinds@.len(),
            kinds@ == catchable(),
            before == items_v(old(items)@),
            items_v(items@) == before + error_items(i as int),
        decreases kinds@.len() - i,
    {
        let name = match kinds[i].class_name() {
            Some(name) => name,
            None => {
                assert(false);
                ""
            },
        };
        push(items, name, ItemKind::Class, cat2("Built-in error class ", name));
        i += 1;
        assert(items_v(items@) =~= before + error_items(i as int));
    }
}

/// What may be written at a place of a document, as its text and its program show it.
pub fn get_completions(state: Option<&DocumentState>, pos: Position) -> (r: Vec<CompletionItem>)
    ensures
        items_v(r@) == match state {
            Some(state) => completions(*state, pos),
            None => Seq::empty(),
        },
{
    let mut items: Vec<CompletionItem> = Vec::new();
    assert(items_v(items@) =~= Seq::empty());
    let state = match state {
        Some(state) => state,
        None => return items,
    };
    let source = state.text.as_str();
    if is_preceded_by_dot(source, pos) {
        return match get_receiver_before_dot(source, pos) {
            Some(receiver) => {
                let class = infer_receiver_class(source, receiver.as_str(), pos);
                collect_dot_completions_for_class(
                    source,
                    match &state.ast {
            Some(ast) => Some(&**ast),
            None => None,
        },
                    receiver.as_str(),
                    match &class {
                        Some(class) => Some(class.as_str()),
                        None => None,
                    },
                )
            },
            None => items,
        };
    }
    push_keywords(&mut items);
    push_born(&mut items);
    push_errors(&mut items);
    let ghost born = keyword_items(all_keywords().len() as int) + born_items() + error_items(catchable().len() as int);
    assert(items_v(items@) =~= born);
    if let Some(ast) = &state.ast {
        let cs = chars_of(source);
        collect_ast_completions(&cs, ast, pos.line, &mut items);
    }
    collect_text_variable_completions(source, pos, &mut items);
    items
}

/// A statement that starts below a line offers nothing there.
pub proof fn law_what_is_declared_below_is_not_offered(cs: Seq<char>, s: Stmt, line: int)
    requires
        position_of(cs, s.span.start as int).line > line,
    ensures
        stmt_items(cs, seq![s], line, 1) == Seq::<ItemV>::empty(),
{
    assert(stmt_items(cs, seq![s], line, 0) == Seq::<ItemV>::empty());
    assert(one_stmt(cs, seq![s][0], line) == Seq::<ItemV>::empty());
    assert(stmt_items(cs, seq![s], line, 1) =~= Seq::<ItemV>::empty());
}

} // verus!
