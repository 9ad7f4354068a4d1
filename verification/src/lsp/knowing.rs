//! What holds of what is known of a program without running it: types, scopes and
//! documentation.

use crate::interp::arith::{s_float_op, s_int_op};
use crate::interp::ops::plain_unary;
use crate::lsp::docs::{doc_above, doc_start, note_of, note_on, with_line};
use crate::lsp::folding::is_doc_row;
use crate::lsp::infer::{binary_type, class_around, expr_type, may_be_offered, unary_type};
use crate::lsp::receiver::{around_chars, in_path, literal_class, path_start, receiver_of, Around};
use crate::lsp::rows::{char_from, starts};
use crate::lsp::scope::{block_scope, fn_scope, inner_scope, last_named, param_decls, DeclV};
use crate::lsp::selection::inside;
use crate::lsp::symbols::{DocV, NoteV, TypeV};
use crate::runtime::class::builtin_of;
use crate::runtime::heap::HeapV;
use crate::runtime::value::Value;
use crate::syntax::ast::{
    BinaryOp, Block, Expr, ExprKind, FnDecl, Param, Stmt, StmtKind, UnaryOp, Visibility,
};
use crate::syntax::token::Span;
use std::rc::Rc;
use vstd::prelude::*;

verus! {

// -- types --------------------------------------------------------------------------------------------

/// The type of a value of a builtin type.
pub open spec fn type_of(v: Value) -> TypeV {
    TypeV::Class(builtin_of(v).spelled())
}

proof fn lemma_type_words()
    ensures
        "int"@ != "float"@,
        "int"@ != "string"@,
        "float"@ != "string"@,
        "int"@ != "bool"@,
        "float"@ != "bool"@,
{
    reveal_strlit("int");
    reveal_strlit("float");
    reveal_strlit("string");
    reveal_strlit("bool");
    assert("int"@.len() == 3 && "float"@.len() == 5 && "string"@.len() == 6 && "bool"@.len() == 4);
}

/// What is inferred of an operation on numbers is what it gives when it runs: where a type is
/// inferred, and the operation does not fail, its value is of that type.
pub proof fn law_an_inferred_operation_gives_its_type(op: BinaryOp, a: i64, b: i64, x: u64, y: u64, span: Span)
    ensures
        s_int_op(op, a, b, span) is Ok && binary_type(op, type_of(Value::Int(a)), type_of(Value::Int(b)))
            is Class ==> type_of(s_int_op(op, a, b, span)->Ok_0) == binary_type(
            op,
            type_of(Value::Int(a)),
            type_of(Value::Int(b)),
        ),
        s_float_op(op, x, y, span) is Ok && binary_type(op, type_of(Value::Float(x)), type_of(Value::Float(y)))
            is Class ==> type_of(s_float_op(op, x, y, span)->Ok_0) == binary_type(
            op,
            type_of(Value::Float(x)),
            type_of(Value::Float(y)),
        ),
        s_float_op(op, x, y, span) is Ok && binary_type(op, type_of(Value::Int(a)), type_of(Value::Float(y)))
            is Class ==> type_of(s_float_op(op, x, y, span)->Ok_0) == binary_type(
            op,
            type_of(Value::Int(a)),
            type_of(Value::Float(y)),
        ),
        binary_type(BinaryOp::Add, type_of(Value::Int(a)), type_of(Value::Int(b))) is Class,
        binary_type(BinaryOp::Add, TypeV::Class("string"@), TypeV::Class("string"@)) == TypeV::Class("string"@),
        binary_type(BinaryOp::Sub, TypeV::Class("string"@), TypeV::Class("string"@)) is Unknown,
{
    lemma_type_words();
}

/// What is inferred of a prefix on a number is what it gives when it runs.
pub proof fn law_an_inferred_prefix_gives_its_type(h: HeapV, op: UnaryOp, v: Value, span: Span)
    requires
        v is Int || v is Float,
        op == UnaryOp::Neg || op == UnaryOp::BitNot,
    ensures
        plain_unary(h, op, v, span) is Ok && unary_type(op, type_of(v)) is Class ==> type_of(
            plain_unary(h, op, v, span)->Ok_0,
        ) == unary_type(op, type_of(v)),
        op == UnaryOp::Neg ==> unary_type(op, type_of(v)) == type_of(v),
        v is Float && op == UnaryOp::BitNot ==> unary_type(op, type_of(v)) is Unknown,
        unary_type(UnaryOp::Not, type_of(v)) == TypeV::Class("bool"@),
{
    lemma_type_words();
}

/// A literal has the type of the value that it writes.
pub proof fn law_a_literal_has_its_type(p: Seq<Stmt>, e: Expr, fuel: nat)
    ensures
        match e.kind {
            ExprKind::Int(n) => expr_type(p, e, fuel) == type_of(Value::Int(n)),
            ExprKind::Float(bits) => expr_type(p, e, fuel) == type_of(Value::Float(bits)),
            ExprKind::Bool(b) => expr_type(p, e, fuel) == type_of(Value::Bool(b)),
            ExprKind::Str(_) => expr_type(p, e, fuel) == type_of(Value::Str(0)),
            ExprKind::Nil => expr_type(p, e, fuel) == type_of(Value::Nil),
            ExprKind::List(_) => expr_type(p, e, fuel) == type_of(Value::List(0)),
            ExprKind::Dict(_) => expr_type(p, e, fuel) == type_of(Value::Dict(0)),
            _ => true,
        },
{
}

// -- scopes -------------------------------------------------------------------------------------------

/// Of the declarations of a name that a place sees, the last one counts; a name that none
/// declares means nothing.
pub proof fn law_the_last_declaration_counts(ds: Seq<DeclV>, name: Seq<char>, n: int)
    requires
        0 <= n <= ds.len(),
    ensures
        match last_named(ds, name, n) {
            Some(d) => exists|k: int|
                0 <= k < n && #[trigger] ds[k] == d && d.name() == name && forall|j: int|
                    k < j < n ==> (#[trigger] ds[j]).name() != name,
            None => forall|j: int| 0 <= j < n ==> (#[trigger] ds[j]).name() != name,
        },
    decreases n,
{
    if n > 0 {
        if ds[n - 1].name() == name {
            assert(ds[n - 1] == last_named(ds, name, n)->0);
        } else {
            law_the_last_declaration_counts(ds, name, n - 1);
            if let Some(d) = last_named(ds, name, n - 1) {
                let k = choose|k: int|
                    0 <= k < n - 1 && #[trigger] ds[k] == d && d.name() == name && forall|j: int|
                        k < j < n - 1 ==> (#[trigger] ds[j]).name() != name;
                assert(ds[k] == d);
            }
        }
    }
}

/// What a block declares is seen from inside it alone.
pub proof fn law_a_block_is_seen_from_the_inside(b: Block, at: int)
    requires
        !(b.span.start <= at <= b.span.end),
    ensures
        block_scope(b, at).len() == 0,
{
}

proof fn lemma_params(ps: Seq<Param>, n: int, i: int)
    requires
        0 <= i < n <= ps.len(),
    ensures
        !ps[i].receiver ==> param_decls(ps, n).contains(DeclV::Param(ps[i])),
    decreases n,
{
    if !ps[i].receiver {
        let all = param_decls(ps, n);
        let before = param_decls(ps, n - 1);
        if i == n - 1 {
            assert(all[before.len() as int] == DeclV::Param(ps[i]));
        } else {
            lemma_params(ps, n - 1, i);
            let k = choose|k: int| 0 <= k < before.len() && before[k] == DeclV::Param(ps[i]);
            assert(all[k] == before[k]);
        }
    }
}

/// A place in a function sees its parameters; one in a `for` its name, and one in a handler the
/// name of what is caught, which no place before the handler sees.
pub proof fn law_what_a_place_sees_of_what_it_stands_in(d: Rc<FnDecl>, at: int, i: int, k: StmtKind)
    ensures
        0 <= i < d.params@.len() && !d.params@[i].receiver ==> fn_scope(d, at).contains(DeclV::Param(d.params@[i])),
        match k {
            StmtKind::For { var, iter, body } => inner_scope(k, at).contains(DeclV::Loop(var@)),
            StmtKind::Try { body, binding, handler } => (handler.span.start <= at <= handler.span.end
                ==> inner_scope(k, at).contains(DeclV::Caught(binding@))) && (!(handler.span.start <= at
                <= handler.span.end) ==> inner_scope(k, at) == block_scope(body, at)),
            _ => true,
        },
{
    let ps = d.params@;
    if 0 <= i < ps.len() && !ps[i].receiver {
        lemma_params(ps, ps.len() as int, i);
        let own = param_decls(ps, ps.len() as int);
        let j = choose|j: int| 0 <= j < own.len() && own[j] == DeclV::Param(ps[i]);
        assert(fn_scope(d, at)[j] == own[j]);
    }
    match k {
        StmtKind::For { var, iter, body } => {
            assert(inner_scope(k, at)[0] == DeclV::Loop(var@));
        },
        StmtKind::Try { body, binding, handler } => {
            let first = block_scope(body, at);
            if inside(handler.span, at) {
                assert(inner_scope(k, at)[first.len() as int] == DeclV::Caught(binding@));
            } else {
                assert(inner_scope(k, at) =~= first);
            }
        },
        _ => {},
    }
}

/// A private member is offered inside its own class alone, a protected one inside the classes
/// that extend it too, and any other everywhere.
pub proof fn law_where_a_member_is_offered(p: Seq<Stmt>, class: Seq<char>, around: Option<Seq<char>>)
    ensures
        may_be_offered(p, Visibility::Public, class, around),
        may_be_offered(p, Visibility::Unsaid, class, around),
        may_be_offered(p, Visibility::Private, class, around) <==> around == Some(class),
        around is None ==> !may_be_offered(p, Visibility::Protected, class, around),
        around == Some(class) ==> may_be_offered(p, Visibility::Protected, class, around),
        may_be_offered(p, Visibility::Private, class, around) ==> may_be_offered(
            p,
            Visibility::Protected,
            class,
            around,
        ),
{
}

/// The class around a place is that of the last statement it stands in that declares or extends
/// one.
pub proof fn law_the_class_around_a_place(p: Seq<Stmt>, at: int, n: int)
    requires
        0 < n <= p.len(),
    ensures
        !(p[n - 1].span.start <= at <= p[n - 1].span.end) ==> class_around(p, at, n) == class_around(p, at, n - 1),
        p[n - 1].span.start <= at <= p[n - 1].span.end && p[n - 1].kind is Class ==> class_around(p, at, n) == Some(
            p[n - 1].kind->Class_0.name@,
        ),
{
}

// -- documentation ------------------------------------------------------------------------------------

/// The documentation of a row is made of the rows of doc comment right above it, and of all of
/// them; a row with none above it has none.
pub proof fn law_documentation_stands_right_above(rs: Seq<Seq<char>>, row: int)
    requires
        0 <= row <= rs.len(),
    ensures
        0 <= doc_start(rs, row) <= row,
        forall|k: int| doc_start(rs, row) <= k < row ==> is_doc_row(#[trigger] rs[k]),
        doc_start(rs, row) > 0 ==> !is_doc_row(rs[doc_start(rs, row) - 1]),
        doc_above(rs, row) is Some <==> row > 0 && is_doc_row(rs[row - 1]),
    decreases row,
{
    if row > 0 && is_doc_row(rs[row - 1]) {
        law_documentation_stands_right_above(rs, row - 1);
    }
}

/// A line of documentation says something of a parameter, of the result, of an error, or in
/// general, by the word it starts with, and leaves what the others say.
pub proof fn law_a_line_of_documentation_says_one_thing(doc: DocV, line: Seq<char>)
    ensures
        ({
            let r = with_line(doc, line);
            let param = starts(line, "@param "@);
            let result = starts(line, "@returns "@);
            let throws = starts(line, "@throws "@);
            &&& param ==> r.params.len() == doc.params.len() + 1 && r.params.last() == note_of(
                line.skip("@param "@.len() as int),
            )
            &&& !param ==> r.params == doc.params
            &&& result && !param ==> r.result is Some
            &&& !result ==> r.result == doc.result
            &&& throws && !param && !result ==> r.throws.len() == doc.throws.len() + 1 && r.throws.last() == note_of(
                line.skip("@throws "@.len() as int),
            )
            &&& !throws ==> r.throws == doc.throws
            &&& param || result || throws ==> r.summary == doc.summary
            &&& !param && !result && !throws && doc.summary.len() == 0 ==> r.summary == line
            &&& !param && !result && !throws && doc.summary.len() > 0 ==> r.summary == doc.summary + "\n"@ + line
        }),
{
}

/// What is said of a name is what the first note on it says.
pub proof fn law_the_first_note_counts(notes: Seq<NoteV>, name: Seq<char>, i: int)
    requires
        0 <= i <= notes.len(),
    ensures
        match note_on(notes, name, i) {
            Some(text) => exists|k: int|
                i <= k < notes.len() && (#[trigger] notes[k]).name == name && notes[k].text == text && forall|j: int|
                    i <= j < k ==> (#[trigger] notes[j]).name != name,
            None => forall|j: int| i <= j < notes.len() ==> (#[trigger] notes[j]).name != name,
        },
    decreases notes.len() - i,
{
    if i < notes.len() {
        if notes[i].name == name {
            assert(notes[i].text == note_on(notes, name, i)->0);
        } else {
            law_the_first_note_counts(notes, name, i + 1);
            if let Some(text) = note_on(notes, name, i + 1) {
                let k = choose|k: int|
                    i + 1 <= k < notes.len() && (#[trigger] notes[k]).name == name && notes[k].text == text
                        && forall|j: int| i + 1 <= j < k ==> (#[trigger] notes[j]).name != name;
                assert(notes[k].name == name);
            }
        }
    }
}

// -- receivers ----------------------------------------------------------------------------------------

proof fn lemma_path_start(s: Seq<char>, n: int)
    requires
        0 <= n <= s.len(),
    ensures
        0 <= path_start(s, n) <= n,
        forall|i: int| path_start(s, n) <= i < n ==> in_path(#[trigger] s[i]),
        path_start(s, n) > 0 ==> !in_path(s[path_start(s, n) - 1]),
    decreases n,
{
    if n > 0 && in_path(s[n - 1]) {
        lemma_path_start(s, n - 1);
    }
}

/// The receiver before a point is the whole path of names that the text there ends in: nothing
/// but names and points, and nothing of either left out before it.
pub proof fn law_a_receiver_is_a_whole_path(s: Seq<char>)
    requires
        s.len() > 0,
        in_path(s.last()),
        s.last() != ')' && s.last() != '"' && s.last() != ']' && s.last() != '}',
    ensures
        ({
            let r = receiver_of(s);
            &&& 0 < r.len() <= s.len()
            &&& s.skip(s.len() - r.len()) == r
            &&& forall|i: int| 0 <= i < r.len() ==> in_path(#[trigger] r[i])
            &&& r.len() < s.len() ==> !in_path(s[s.len() - r.len() - 1])
        }),
{
    lemma_path_start(s, s.len() as int);
    let start = path_start(s, s.len() as int);
    assert(receiver_of(s) == s.skip(start));
    assert(start < s.len());
}

/// A receiver that is a literal shows its type by how it is written; digits are an int, and
/// with a point among them a float.
pub proof fn law_a_literal_receiver_shows_its_type(s: Seq<char>)
    requires
        s.len() > 0,
    ensures
        s[0] == '"' ==> literal_class(s) == Some("string"@),
        s[0] == '[' && s.last() != '"' ==> literal_class(s) == Some("list"@),
        s[0] == '{' && s.last() != '"' && s.last() != ']' ==> literal_class(s) == Some("dict"@),
        (forall|i: int| 0 <= i < s.len() ==> '0' <= #[trigger] s[i] && s[i] <= '9') ==> literal_class(s) == Some(
            "int"@,
        ),
{
    reveal_strlit("\"");
    reveal_strlit("[");
    reveal_strlit("{");
    lemma_starts(s, '"', "\""@);
    lemma_starts(s, '[', "["@);
    lemma_starts(s, '{', "{"@);
    if forall|i: int| 0 <= i < s.len() ==> '0' <= #[trigger] s[i] && s[i] <= '9' {
        assert('0' <= s[0] && s[0] <= '9');
        assert('0' <= s[s.len() - 1] && s[s.len() - 1] <= '9');
        lemma_no_point(s, 0);
    }
}

proof fn lemma_starts(s: Seq<char>, c: char, text: Seq<char>)
    requires
        s.len() > 0,
        text =~= seq![c],
    ensures
        starts(s, text) <==> s[0] == c,
{
    if s[0] == c {
        assert(s.take(1) =~= text);
        assert(s.subrange(0, 1) =~= text);
    } else if starts(s, text) {
        assert(s.take(1)[0] == text[0]);
        assert(s.subrange(0, 1)[0] == text[0]);
    }
}

proof fn lemma_no_point(s: Seq<char>, i: int)
    requires
        0 <= i <= s.len(),
        forall|k: int| 0 <= k < s.len() ==> '0' <= #[trigger] s[k] && s[k] <= '9',
    ensures
        char_from(s, '.', i) is None,
    decreases s.len() - i,
{
    if i < s.len() {
        assert('0' <= s[i]);
        lemma_no_point(s, i + 1);
    }
}

/// The brace that closes a class leaves it, and one inside it does not.
pub proof fn law_a_closing_brace_leaves_its_class(name: Seq<char>, depth: usize, from: usize)
    requires
        0 < depth,
    ensures
        around_chars(Around { name: Some(name), depth, from }, seq!['}'], 1) == (Around {
            name: if depth - 1 <= from {
                None
            } else {
                Some(name)
            },
            depth: (depth - 1) as usize,
            from,
        }),
        depth < usize::MAX ==> around_chars(Around { name: Some(name), depth, from }, seq!['{'], 1) == (Around {
            name: Some(name),
            depth: (depth + 1) as usize,
            from,
        }),
{
    let at = Around { name: Some(name), depth, from };
    assert(around_chars(at, seq!['}'], 0) == at);
    assert(around_chars(at, seq!['{'], 0) == at);
    assert(seq!['}'][0] == '}' && seq!['{'][0] == '{');
}

} // verus!
