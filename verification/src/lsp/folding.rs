//! What an editor may fold away.

use crate::lsp::document::DocumentState;
use crate::lsp::position::{char_index, place, position_of, Position};
use crate::lsp::rows::{rows, rows_of, starts, starts_with, trim, trimmed, vecs};
use crate::syntax::ast::{Block, FnDecl, Stmt, StmtKind};
use crate::syntax::token::Span;
use crate::text::{cat2, cat3, chars_of};
use std::rc::Rc;
use vstd::prelude::*;

verus! {

/// What is folded.
#[derive(Clone, Copy, Debug, PartialEq, Eq, Structural)]
pub enum FoldKind {
    Region,
    Comment,
}

/// A part of a document that can be folded. A comment has no columns.
#[derive(Debug)]
pub struct FoldingRange {
    pub start_line: usize,
    pub start_character: Option<usize>,
    pub end_line: usize,
    pub end_character: Option<usize>,
    pub kind: FoldKind,
    pub collapsed_text: Option<String>,
}

/// The model of a [`FoldingRange`].
pub struct FoldingRangeV {
    pub start_line: usize,
    pub start_character: Option<usize>,
    pub end_line: usize,
    pub end_character: Option<usize>,
    pub kind: FoldKind,
    pub collapsed_text: Option<Seq<char>>,
}

impl View for FoldingRange {
    type V = FoldingRangeV;

    open spec fn view(&self) -> FoldingRangeV {
        FoldingRangeV {
            start_line: self.start_line,
            start_character: self.start_character,
            end_line: self.end_line,
            end_character: self.end_character,
            kind: self.kind,
            collapsed_text: match self.collapsed_text {
                Some(t) => Some(t@),
                None => None,
            },
        }
    }
}

pub open spec fn folds_v(s: Seq<FoldingRange>) -> Seq<FoldingRangeV> {
    Seq::new(s.len(), |i: int| s[i]@)
}

// -- the regions of a program ----------------------------------------------------------------------

/// A region from one place to another.
pub open spec fn region(start: Position, end: Position, text: Option<Seq<char>>) -> FoldingRangeV {
    FoldingRangeV {
        start_line: start.line,
        start_character: Some(start.character),
        end_line: end.line,
        end_character: Some(end.character),
        kind: FoldKind::Region,
        collapsed_text: text,
    }
}

/// Whether a span goes over a line break.
pub open spec fn tall(cs: Seq<char>, span: Span) -> bool {
    position_of(cs, span.start as int).line < position_of(cs, span.end as int).line
}

/// The region a span covers.
pub open spec fn region_of(cs: Seq<char>, span: Span, text: Option<Seq<char>>) -> FoldingRangeV {
    region(position_of(cs, span.start as int), position_of(cs, span.end as int), text)
}

/// What stands for a folded function.
pub open spec fn fn_text(name: Seq<char>) -> Seq<char> {
    "fn "@ + name + "()"@
}

/// The regions of the first `n` statements.
pub open spec fn stmt_folds(cs: Seq<char>, ss: Seq<Stmt>, n: int) -> Seq<FoldingRangeV>
    decreases ss, n,
{
    if 0 < n <= ss.len() {
        stmt_folds(cs, ss, n - 1) + folds(cs, ss[n - 1])
    } else {
        Seq::empty()
    }
}

/// The regions of the first `n` methods of a class.
pub open spec fn method_folds(cs: Seq<char>, ms: Seq<Rc<FnDecl>>, n: int) -> Seq<FoldingRangeV>
    decreases ms, n,
{
    if 0 < n <= ms.len() {
        method_folds(cs, ms, n - 1) + method_fold(cs, ms[n - 1]) + body_folds(cs, ms[n - 1])
    } else {
        Seq::empty()
    }
}

/// The region of a method's body.
pub open spec fn method_fold(cs: Seq<char>, m: Rc<FnDecl>) -> Seq<FoldingRangeV> {
    if tall(cs, m.body.span) {
        seq![region_of(cs, m.body.span, Some(fn_text(m.name@)))]
    } else {
        Seq::empty()
    }
}

/// The regions inside a method's body.
pub open spec fn body_folds(cs: Seq<char>, m: Rc<FnDecl>) -> Seq<FoldingRangeV>
    decreases m,
{
    block_folds(cs, m.body)
}

/// The regions inside a block.
pub open spec fn block_folds(cs: Seq<char>, b: Block) -> Seq<FoldingRangeV>
    decreases b,
{
    stmt_folds(cs, b.stmts@, b.stmts@.len() as int)
}

/// What stands for a folded statement: `None` for one that is not folded.
pub open spec fn fold_text(s: Stmt) -> Option<Option<Seq<char>>> {
    match s.kind {
        StmtKind::Fn(decl) => Some(Some(fn_text(decl.name@))),
        StmtKind::Class(decl) => Some(Some("class "@ + decl.name@)),
        StmtKind::If { .. } => Some(Some("if ..."@)),
        StmtKind::While { .. } => Some(Some("while ..."@)),
        StmtKind::For { .. } => Some(Some("for ..."@)),
        StmtKind::Try { .. } => Some(Some("try ..."@)),
        StmtKind::Block(_) => Some(None),
        _ => None,
    }
}

/// The regions inside a statement that is folded itself.
pub open spec fn inner_folds(cs: Seq<char>, s: Stmt) -> Seq<FoldingRangeV>
    decreases s, 0int,
{
    match s.kind {
        StmtKind::Fn(decl) => block_folds(cs, decl.body),
        StmtKind::Class(decl) => method_folds(cs, decl.methods@, decl.methods@.len() as int),
        StmtKind::If { cond, consequent, otherwise } => block_folds(cs, consequent) + match otherwise {
            Some(other) => folds(cs, *other),
            None => Seq::empty(),
        },
        StmtKind::While { cond, body } => block_folds(cs, body),
        StmtKind::For { var, iter, body } => block_folds(cs, body),
        StmtKind::Try { body, binding, handler } => block_folds(cs, body) + block_folds(cs, handler),
        StmtKind::Block(b) => block_folds(cs, b),
        _ => Seq::empty(),
    }
}

/// The regions of a statement: none for one that stands on one line.
pub open spec fn folds(cs: Seq<char>, s: Stmt) -> Seq<FoldingRangeV>
    decreases s, 1int,
{
    if !tall(cs, s.span) {
        Seq::empty()
    } else {
        match fold_text(s) {
            Some(text) => seq![region_of(cs, s.span, text)] + inner_folds(cs, s),
            None => Seq::empty(),
        }
    }
}

fn push(out: &mut Vec<FoldingRange>, start: Position, end: Position, text: Option<String>)
    ensures
        folds_v(final(out)@) == folds_v(old(out)@) + seq![
            region(start, end, match text { Some(t) => Some(t@), None => None }),
        ],
{
    let ghost before = folds_v(out@);
    out.push(
        FoldingRange {
            start_line: start.line,
            start_character: Some(start.character),
            end_line: end.line,
            end_character: Some(end.character),
            kind: FoldKind::Region,
            collapsed_text: text,
        },
    );
    assert(folds_v(out@) =~= before + seq![
        region(start, end, match text { Some(t) => Some(t@), None => None }),
    ]);
}

fn at(cs: &Vec<char>, byte: usize) -> (r: Position)
    ensures
        r == position_of(cs@, byte as int),
{
    let n = char_index(cs, byte);
    place(cs, n)
}

fn named_fn(name: &str) -> (r: String)
    ensures
        r@ == fn_text(name@),
{
    cat3("fn ", name, "()")
}

fn collect_ast_folding_ranges(cs: &Vec<char>, stmts: &Vec<Stmt>, out: &mut Vec<FoldingRange>)
    ensures
        folds_v(final(out)@) == folds_v(old(out)@) + stmt_folds(cs@, stmts@, stmts@.len() as int),
    decreases stmts@,
{
    let mut i: usize = 0;
    let ghost before = folds_v(out@);
    assert(before + Seq::<FoldingRangeV>::empty() =~= before);
    while i < stmts.len()
        invariant
            i <= stmts@.len(),
            before == folds_v(old(out)@),
            folds_v(out@) == before + stmt_folds(cs@, stmts@, i as int),
        decreases stmts@.len() - i,
    {
        visit_stmt_folding(cs, &stmts[i], out);
        i += 1;
        proof {
            assert(stmt_folds(cs@, stmts@, i as int) == stmt_folds(cs@, stmts@, i - 1) + folds(cs@, stmts@[i - 1]));
            assert(before + stmt_folds(cs@, stmts@, i - 1) + folds(cs@, stmts@[i - 1]) =~= before + stmt_folds(
                cs@,
                stmts@,
                i as int,
            ));
        }
    }
}

fn visit_stmt_folding(cs: &Vec<char>, stmt: &Stmt, out: &mut Vec<FoldingRange>)
    ensures
        folds_v(final(out)@) == folds_v(old(out)@) + folds(cs@, *stmt),
    decreases stmt,
{
    let start = at(cs, stmt.span.start);
    let end = at(cs, stmt.span.end);
    let ghost before = folds_v(out@);
    if start.line >= end.line {
        assert(before + Seq::<FoldingRangeV>::empty() =~= before);
        return;
    }
    let ghost own = folds(cs@, *stmt);
    match &stmt.kind {
        StmtKind::Fn(decl) => {
            push(out, start, end, Some(named_fn(decl.name.as_str())));
            collect_ast_folding_ranges(cs, &decl.body.stmts, out);
        },
        StmtKind::Class(decl) => {
            push(out, start, end, Some(cat2("class ", decl.name.as_str())));
            visit_methods(cs, &decl.methods, out);
        },
        StmtKind::If { cond, consequent, otherwise } => {
            push(out, start, end, Some("if ...".to_owned()));
            collect_ast_folding_ranges(cs, &consequent.stmts, out);
            if let Some(other) = otherwise {
                visit_stmt_folding(cs, other, out);
            }
        },
        StmtKind::While { cond, body } => {
            push(out, start, end, Some("while ...".to_owned()));
            collect_ast_folding_ranges(cs, &body.stmts, out);
        },
        StmtKind::For { var, iter, body } => {
            push(out, start, end, Some("for ...".to_owned()));
            collect_ast_folding_ranges(cs, &body.stmts, out);
        },
        StmtKind::Try { body, binding, handler } => {
            push(out, start, end, Some("try ...".to_owned()));
            collect_ast_folding_ranges(cs, &body.stmts, out);
            collect_ast_folding_ranges(cs, &handler.stmts, out);
        },
        StmtKind::Block(block) => {
            push(out, start, end, None);
            collect_ast_folding_ranges(cs, &block.stmts, out);
        },
        _ => {},
    }
    proof {
        let inner = inner_folds(cs@, *stmt);
        match fold_text(*stmt) {
            Some(text) => {
                assert(own == seq![region_of(cs@, stmt.span, text)] + inner);
                assert(folds_v(out@) =~= before + (seq![region_of(cs@, stmt.span, text)] + inner));
            },
            None => {
                assert(folds_v(out@) =~= before + own);
            },
        }
    }
}

fn visit_methods(cs: &Vec<char>, methods: &Vec<Rc<FnDecl>>, out: &mut Vec<FoldingRange>)
    ensures
        folds_v(final(out)@) == folds_v(old(out)@) + method_folds(cs@, methods@, methods@.len() as int),
    decreases methods@,
{
    let mut i: usize = 0;
    let ghost before = folds_v(out@);
    assert(before + Seq::<FoldingRangeV>::empty() =~= before);
    while i < methods.len()
        invariant
            i <= methods@.len(),
            before == folds_v(old(out)@),
            folds_v(out@) == before + method_folds(cs@, methods@, i as int),
        decreases methods@.len() - i,
    {
        let ghost so_far = folds_v(out@);
        let m: &Rc<FnDecl> = &methods[i];
        let start = at(cs, m.body.span.start);
        let end = at(cs, m.body.span.end);
        if start.line < end.line {
            push(out, start, end, Some(named_fn(m.name.as_str())));
        }
        collect_ast_folding_ranges(cs, &m.body.stmts, out);
        i += 1;
        proof {
            let own = method_fold(cs@, methods@[i - 1]);
            let inner = body_folds(cs@, methods@[i - 1]);
            assert(folds_v(out@) =~= so_far + own + inner);
            assert(method_folds(cs@, methods@, i as int) == method_folds(cs@, methods@, i - 1) + own + inner);
            assert(folds_v(out@) =~= before + method_folds(cs@, methods@, i as int));
        }
    }
}

// -- the comments of a text --------------------------------------------------------------------------

/// Whether a row holds a doc comment alone.
pub open spec fn is_doc_row(row: Seq<char>) -> bool {
    starts(trim(row), "##"@)
}

/// Where the doc comment that goes on at row `i` ends.
pub open spec fn doc_end(rs: Seq<Seq<char>>, i: int) -> int
    decreases rs.len() - i,
{
    if 0 <= i < rs.len() && is_doc_row(rs[i]) {
        doc_end(rs, i + 1)
    } else {
        i
    }
}

/// The doc comments from row `i` on; one of a single row is not folded.
pub open spec fn doc_folds(rs: Seq<Seq<char>>, i: int) -> Seq<FoldingRangeV>
    decreases rs.len() - i,
{
    if i < 0 || i >= rs.len() {
        Seq::empty()
    } else if is_doc_row(rs[i]) && doc_end(rs, i) > i {
        let end = doc_end(rs, i);
        (if i < end - 1 {
            seq![
                FoldingRangeV {
                    start_line: i as usize,
                    start_character: None,
                    end_line: (end - 1) as usize,
                    end_character: None,
                    kind: FoldKind::Comment,
                    collapsed_text: Some("## doc comment"@),
                },
            ]
        } else {
            Seq::empty()
        }) + if end < rs.len() { doc_folds(rs, end) } else { Seq::empty() }
    } else {
        doc_folds(rs, i + 1)
    }
}

fn collect_doc_comment_folding_ranges(cs: &Vec<char>, out: &mut Vec<FoldingRange>)
    ensures
        folds_v(final(out)@) == folds_v(old(out)@) + doc_folds(rows(cs@), 0),
{
    let rs = rows_of(cs);
    let ghost all = rows(cs@);
    let ghost goal = folds_v(out@) + doc_folds(all, 0);
    let mut i: usize = 0;
    while i < rs.len()
        invariant
            i <= rs@.len(),
            vecs(rs@) == all,
            folds_v(out@) + doc_folds(all, i as int) == goal,
        decreases rs@.len() - i,
    {
        assert(all[i as int] == rs@[i as int]@);
        let row = trimmed(&rs[i]);
        if !starts_with(&row, "##") {
            i += 1;
        } else {
            let start: usize = i;
            i += 1;
            let ghost held = folds_v(out@);
            loop
                invariant
                    start < i <= rs@.len(),
                    vecs(rs@) == all,
                    doc_end(all, start as int) == doc_end(all, i as int),
                ensures
                    start < i <= rs@.len(),
                    doc_end(all, start as int) == i,
                decreases rs@.len() - i,
            {
                if i >= rs.len() {
                    break;
                }
                assert(all[i as int] == rs@[i as int]@);
                let next = trimmed(&rs[i]);
                if !starts_with(&next, "##") {
                    break;
                }
                i += 1;
            }
            if start < i - 1 {
                out.push(
                    FoldingRange {
                        start_line: start,
                        start_character: None,
                        end_line: i - 1,
                        end_character: None,
                        kind: FoldKind::Comment,
                        collapsed_text: Some("## doc comment".to_owned()),
                    },
                );
                assert(folds_v(out@) =~= held.push(folds_v(out@).last()));
            }
            assert(folds_v(out@) + doc_folds(all, i as int) =~= held + doc_folds(all, start as int));
        }
    }
    assert(folds_v(out@) =~= goal);
}

/// Everything in a document that can be folded: its regions, then its comments.
pub open spec fn all_folds(state: DocumentState) -> Seq<FoldingRangeV> {
    (match state.ast {
        Some(ast) => stmt_folds(state.text@, ast@, ast@.len() as int),
        None => Seq::empty(),
    }) + doc_folds(rows(state.text@), 0)
}

/// What an editor may fold in a document.
pub fn get_folding_ranges(state: Option<&DocumentState>) -> (r: Vec<FoldingRange>)
    ensures
        folds_v(r@) == match state {
            Some(state) => all_folds(*state),
            None => Seq::empty(),
        },
{
    let mut out: Vec<FoldingRange> = Vec::new();
    match state {
        None => {
            assert(folds_v(out@) =~= Seq::empty());
        },
        Some(state) => {
            let cs = chars_of(state.text.as_str());
            assert(folds_v(out@) =~= Seq::empty());
            match &state.ast {
                Some(ast) => {
                    collect_ast_folding_ranges(&cs, ast, &mut out);
                    assert(folds_v(out@) =~= stmt_folds(state.text@, ast@, ast@.len() as int));
                },
                None => {},
            }
            collect_doc_comment_folding_ranges(&cs, &mut out);
        },
    }
    out
}

// -- laws ---------------------------------------------------------------------------------------------------

/// Whether every fold goes over a line break.
pub open spec fn all_tall(s: Seq<FoldingRangeV>) -> bool {
    forall|i: int| 0 <= i < s.len() ==> (#[trigger] s[i]).start_line < s[i].end_line
}

proof fn lemma_both_tall(a: Seq<FoldingRangeV>, b: Seq<FoldingRangeV>)
    requires
        all_tall(a),
        all_tall(b),
    ensures
        all_tall(a + b),
{
    let s = a + b;
    assert forall|i: int| 0 <= i < s.len() implies (#[trigger] s[i]).start_line < s[i].end_line by {
        if i < a.len() {
            assert(s[i] == a[i]);
        } else {
            assert(s[i] == b[i - a.len()]);
        }
    }
}

proof fn lemma_stmts_tall(cs: Seq<char>, ss: Seq<Stmt>, n: int)
    ensures
        all_tall(stmt_folds(cs, ss, n)),
    decreases ss, n,
{
    if 0 < n <= ss.len() {
        lemma_stmts_tall(cs, ss, n - 1);
        lemma_tall(cs, ss[n - 1]);
        lemma_both_tall(stmt_folds(cs, ss, n - 1), folds(cs, ss[n - 1]));
    }
}

proof fn lemma_methods_tall(cs: Seq<char>, ms: Seq<Rc<FnDecl>>, n: int)
    ensures
        all_tall(method_folds(cs, ms, n)),
    decreases ms, n,
{
    if 0 < n <= ms.len() {
        lemma_methods_tall(cs, ms, n - 1);
        lemma_body_tall(cs, ms[n - 1]);
        lemma_both_tall(method_folds(cs, ms, n - 1), method_fold(cs, ms[n - 1]));
        lemma_both_tall(method_folds(cs, ms, n - 1) + method_fold(cs, ms[n - 1]), body_folds(cs, ms[n - 1]));
    }
}

proof fn lemma_body_tall(cs: Seq<char>, m: Rc<FnDecl>)
    ensures
        all_tall(body_folds(cs, m)),
    decreases m,
{
    lemma_stmts_tall(cs, m.body.stmts@, m.body.stmts@.len() as int);
    assert(body_folds(cs, m) == stmt_folds(cs, m.body.stmts@, m.body.stmts@.len() as int)) by {
        reveal_with_fuel(body_folds, 2);
        reveal_with_fuel(block_folds, 2);
    }
}

proof fn lemma_block_tall(cs: Seq<char>, b: Block)
    ensures
        all_tall(block_folds(cs, b)),
    decreases b,
{
    lemma_stmts_tall(cs, b.stmts@, b.stmts@.len() as int);
}

proof fn lemma_inner_tall(cs: Seq<char>, s: Stmt)
    ensures
        all_tall(inner_folds(cs, s)),
    decreases s, 0int,
{
    match s.kind {
        StmtKind::Fn(decl) => {
            lemma_body_tall(cs, decl);
            assert(inner_folds(cs, s) == body_folds(cs, decl)) by {
                reveal_with_fuel(body_folds, 2);
                reveal_with_fuel(inner_folds, 2);
            }
        },
        StmtKind::Class(decl) => lemma_methods_tall(cs, decl.methods@, decl.methods@.len() as int),
        StmtKind::If { cond, consequent, otherwise } => {
            lemma_block_tall(cs, consequent);
            match otherwise {
                Some(other) => {
                    lemma_tall(cs, *other);
                    lemma_both_tall(block_folds(cs, consequent), folds(cs, *other));
                },
                None => {
                    lemma_both_tall(block_folds(cs, consequent), Seq::empty());
                },
            }
        },
        StmtKind::While { cond, body } => lemma_block_tall(cs, body),
        StmtKind::For { var, iter, body } => lemma_block_tall(cs, body),
        StmtKind::Try { body, binding, handler } => {
            lemma_block_tall(cs, body);
            lemma_block_tall(cs, handler);
            lemma_both_tall(block_folds(cs, body), block_folds(cs, handler));
        },
        StmtKind::Block(b) => lemma_block_tall(cs, b),
        _ => {},
    }
}

proof fn lemma_tall(cs: Seq<char>, s: Stmt)
    ensures
        all_tall(folds(cs, s)),
    decreases s, 1int,
{
    lemma_inner_tall(cs, s);
    match fold_text(s) {
        Some(text) => {
            if tall(cs, s.span) {
                lemma_both_tall(seq![region_of(cs, s.span, text)], inner_folds(cs, s));
            }
        },
        None => {},
    }
}

proof fn lemma_docs_tall(rs: Seq<Seq<char>>, i: int)
    requires
        rs.len() <= usize::MAX,
    ensures
        all_tall(doc_folds(rs, i)),
    decreases rs.len() - i,
{
    if 0 <= i < rs.len() {
        lemma_doc_end(rs, i);
        let end = doc_end(rs, i);
        if is_doc_row(rs[i]) && end > i {
            if end < rs.len() {
                lemma_docs_tall(rs, end);
            }
            let rest = if end < rs.len() {
                doc_folds(rs, end)
            } else {
                Seq::empty()
            };
            let own = doc_folds(rs, i).take(doc_folds(rs, i).len() - rest.len());
            assert(doc_folds(rs, i) =~= own + rest);
            lemma_both_tall(own, rest);
        } else {
            lemma_docs_tall(rs, i + 1);
        }
    }
}

proof fn lemma_doc_end(rs: Seq<Seq<char>>, i: int)
    requires
        0 <= i <= rs.len(),
    ensures
        i <= doc_end(rs, i) <= rs.len(),
    decreases rs.len() - i,
{
    if i < rs.len() && is_doc_row(rs[i]) {
        lemma_doc_end(rs, i + 1);
    }
}

/// Nothing that stands on one line is folded.
pub proof fn law_every_fold_goes_over_a_line_break(state: DocumentState)
    requires
        rows(state.text@).len() <= usize::MAX,
    ensures
        all_tall(all_folds(state)),
{
    let regions = match state.ast {
        Some(ast) => stmt_folds(state.text@, ast@, ast@.len() as int),
        None => Seq::empty(),
    };
    match state.ast {
        Some(ast) => lemma_stmts_tall(state.text@, ast@, ast@.len() as int),
        None => {},
    }
    lemma_docs_tall(rows(state.text@), 0);
    lemma_both_tall(regions, doc_folds(rows(state.text@), 0));
}

} // verus!
