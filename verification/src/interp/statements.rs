//! What the statements of the language do, each told by what its parts do.

use crate::error::{ErrV, ErrorKind};
use crate::interp::declare::s_read;
use crate::interp::dict::{dict_get, keys_stand_once};
use crate::interp::error::s_reify;
use crate::interp::eval::s_eval;
use crate::interp::exec::{
    s_block, s_block_with, s_exec, s_for, s_if, s_items, s_iterate, s_return, s_scoped,
    s_statement, s_stmts, s_throw_stmt, s_try, s_while, Flow,
};
use crate::interp::equality::lemma_found;
use crate::interp::module::s_program;
use crate::interp::ops::{s_call_op, s_is_truthy};
use crate::interp::sound::sound;
use crate::interp::state::{held, released, roots, s_collect, St};
use crate::runtime::class::{base, slot_of};
use crate::runtime::heap::{
    law_a_new_object_moves_nothing, law_collection_keeps_the_reachable, lemma_root_is_reachable,
    Follow,
};
use crate::runtime::scope::{declared, law_a_declared_name_is_found, var_of, var_place};
use crate::runtime::value::{ObjId, Value};
use crate::syntax::ast::{BlockV, ExprKindV, ExprV, Op, StmtKindV, StmtV};
use crate::syntax::token::Span;
use vstd::prelude::*;

verus! {

// -- choosing ---------------------------------------------------------------------------------

/// Where the condition of an `if` does not count as true and there is an `else`, running the
/// `if` is running that `else` in the state the condition left: the same state, output and
/// flow.
pub proof fn law_a_false_if_runs_its_else(
    f: nat,
    st: St,
    s: StmtV,
    cond: ExprV,
    consequent: BlockV,
    other: StmtV,
    env: ObjId,
    st1: St,
    v: Value,
    st2: St,
)
    requires
        s.kind == (StmtKindV::If { cond, consequent, otherwise: Some(Box::new(other)) }),
        s_eval(f, s_collect(st), cond, env) == (st1, Ok::<Value, ErrV>(v)),
        s_is_truthy(f, st1, v) == (st2, Ok::<bool, ErrV>(false)),
    ensures
        s_exec(f + 3, st, s, env) == s_exec(f, st2, other, env),
        s_exec(f + 3, st, s, env).0.out == s_exec(f, st2, other, env).0.out,
{
    assert(s_exec(f + 3, st, s, env) == s_statement(f + 2, s_collect(st), s, env));
    assert(s_statement(f + 2, s_collect(st), s, env) == s_if(
        f + 1,
        s_collect(st),
        cond,
        consequent,
        Some(Box::new(other)),
        env,
    ));
}

/// Where the condition does not count as true and there is no `else`, an `if` does nothing
/// more than look at its condition.
pub proof fn law_a_false_if_without_else_does_nothing(
    f: nat,
    st: St,
    s: StmtV,
    cond: ExprV,
    consequent: BlockV,
    env: ObjId,
    st1: St,
    v: Value,
    st2: St,
)
    requires
        s.kind == (StmtKindV::If { cond, consequent, otherwise: None }),
        s_eval(f, s_collect(st), cond, env) == (st1, Ok::<Value, ErrV>(v)),
        s_is_truthy(f, st1, v) == (st2, Ok::<bool, ErrV>(false)),
    ensures
        s_exec(f + 3, st, s, env) == (st2, Ok::<Flow, ErrV>(Flow::Normal)),
{
    assert(s_exec(f + 3, st, s, env) == s_statement(f + 2, s_collect(st), s, env));
    assert(s_statement(f + 2, s_collect(st), s, env) == s_if(
        f + 1,
        s_collect(st),
        cond,
        consequent,
        None,
        env,
    ));
}

/// Where the condition counts as true, running an `if` is running its block, whatever its
/// `else` is.
pub proof fn law_a_true_if_runs_its_block(
    f: nat,
    st: St,
    s: StmtV,
    cond: ExprV,
    consequent: BlockV,
    otherwise: Option<Box<StmtV>>,
    env: ObjId,
    st1: St,
    v: Value,
    st2: St,
)
    requires
        s.kind == (StmtKindV::If { cond, consequent, otherwise }),
        s_eval(f, s_collect(st), cond, env) == (st1, Ok::<Value, ErrV>(v)),
        s_is_truthy(f, st1, v) == (st2, Ok::<bool, ErrV>(true)),
    ensures
        s_exec(f + 3, st, s, env) == s_block(f, st2, consequent, env),
{
    assert(s_exec(f + 3, st, s, env) == s_statement(f + 2, s_collect(st), s, env));
    assert(s_statement(f + 2, s_collect(st), s, env) == s_if(
        f + 1,
        s_collect(st),
        cond,
        consequent,
        otherwise,
        env,
    ));
}

/// A condition that fails, or that cannot be told to be true or not, fails its `if` and its
/// `while`, and nothing of their blocks is run.
pub proof fn law_a_failing_condition_runs_nothing(
    f: nat,
    st: St,
    s: StmtV,
    cond: ExprV,
    env: ObjId,
    st1: St,
    e: ErrV,
)
    requires
        (s.kind is If && s.kind->If_cond == cond) || (s.kind is While && s.kind->While_cond == cond),
        s_eval(f, s_collect(st), cond, env) == (st1, Err::<Value, ErrV>(e)),
    ensures
        s_exec(f + 3, st, s, env) == (st1, Err::<Flow, ErrV>(e)),
{
    let st0 = s_collect(st);
    assert(s_exec(f + 3, st, s, env) == s_statement(f + 2, st0, s, env));
    match s.kind {
        StmtKindV::If { cond, consequent, otherwise } => {
            assert(s_statement(f + 2, st0, s, env) == s_if(f + 1, st0, cond, consequent, otherwise, env));
        },
        StmtKindV::While { cond, body } => {
            assert(s_statement(f + 2, st0, s, env) == s_while(f + 1, st0, cond, body, env));
        },
        _ => {},
    }
}

// -- repeating --------------------------------------------------------------------------------

/// A `while` whose condition does not count as true runs nothing of its block.
pub proof fn law_a_false_while_runs_nothing(
    f: nat,
    st: St,
    cond: ExprV,
    body: BlockV,
    env: ObjId,
    st1: St,
    v: Value,
    st2: St,
)
    requires
        s_eval(f, st, cond, env) == (st1, Ok::<Value, ErrV>(v)),
        s_is_truthy(f, st1, v) == (st2, Ok::<bool, ErrV>(false)),
    ensures
        s_while(f + 1, st, cond, body, env) == (st2, Ok::<Flow, ErrV>(Flow::Normal)),
{
}

/// A `while` whose condition counts as true runs its block, and, where the block runs to its
/// end, is then the same `while` again.
pub proof fn law_a_true_while_runs_its_block_and_goes_on(
    f: nat,
    st: St,
    cond: ExprV,
    body: BlockV,
    env: ObjId,
    st1: St,
    v: Value,
    st2: St,
    st3: St,
)
    requires
        s_eval(f, st, cond, env) == (st1, Ok::<Value, ErrV>(v)),
        s_is_truthy(f, st1, v) == (st2, Ok::<bool, ErrV>(true)),
        s_block(f, st2, body, env) == (st3, Ok::<Flow, ErrV>(Flow::Normal)),
    ensures
        s_while(f + 1, st, cond, body, env) == s_while(f, st3, cond, body, env),
{
}

/// A block that returns or fails ends its `while` with what it returned or failed with.
pub proof fn law_a_while_is_left_by_return_and_error(
    f: nat,
    st: St,
    cond: ExprV,
    body: BlockV,
    env: ObjId,
    st1: St,
    v: Value,
    st2: St,
    st3: St,
    r: Result<Flow, ErrV>,
)
    requires
        s_eval(f, st, cond, env) == (st1, Ok::<Value, ErrV>(v)),
        s_is_truthy(f, st1, v) == (st2, Ok::<bool, ErrV>(true)),
        s_block(f, st2, body, env) == (st3, r),
        r != Ok::<Flow, ErrV>(Flow::Normal),
    ensures
        s_while(f + 1, st, cond, body, env) == (st3, r),
{
}

/// A `while` that ends by itself ends because its condition did not count as true: in the
/// state it is left in, the condition has just been looked at and found false.
pub proof fn law_a_while_ends_when_its_condition_is_false(f: nat, st: St, cond: ExprV, body: BlockV, env: ObjId)
    requires
        s_while(f, st, cond, body, env).1 == Ok::<Flow, ErrV>(Flow::Normal),
    ensures
        exists|g: nat, before: St, after: St, v: Value|
            g < f && #[trigger] s_eval(g, before, cond, env) == (after, Ok::<Value, ErrV>(v))
                && #[trigger] s_is_truthy(g, after, v) == (
                s_while(f, st, cond, body, env).0,
                Ok::<bool, ErrV>(false),
            ),
    decreases f,
{
    let g = (f - 1) as nat;
    let (st1, r1) = s_eval(g, st, cond, env);
    let v = r1->Ok_0;
    let (st2, r2) = s_is_truthy(g, st1, v);
    if r2 == Ok::<bool, ErrV>(true) {
        let (st3, r3) = s_block(g, st2, body, env);
        assert(r3 == Ok::<Flow, ErrV>(Flow::Normal));
        law_a_while_ends_when_its_condition_is_false(g, st3, cond, body, env);
    } else {
        assert(r1 == Ok::<Value, ErrV>(v));
        assert(s_eval(g, st, cond, env) == (st1, Ok::<Value, ErrV>(v)));
        assert(s_is_truthy(g, st1, v) == (st2, Ok::<bool, ErrV>(false)));
    }
}

/// A `while` statement is that loop, from the state the collector leaves.
pub proof fn law_a_while_statement_is_its_loop(f: nat, st: St, s: StmtV, cond: ExprV, body: BlockV, env: ObjId)
    requires
        s.kind == (StmtKindV::While { cond, body }),
    ensures
        s_exec(f + 2, st, s, env) == s_while(f, s_collect(st), cond, body, env),
{
    assert(s_exec(f + 2, st, s, env) == s_statement(f + 1, s_collect(st), s, env));
}

// -- going through ------------------------------------------------------------------------------

/// Going over a dict goes over its keys: as many items as it has entries, each of them the key
/// under which the dict holds the entry at the same place, so that each key comes once and in
/// the order of the entries.
pub proof fn law_a_dict_is_gone_over_by_its_keys(f: nat, st: St, v: Value, id: ObjId, span: Span)
    requires
        f > 0,
        slot_of(st.heap, v, Op::Iter) is None,
        base(st.heap, v) == Value::Dict(id),
        keys_stand_once(st.heap, st.heap.dict(id)),
    ensures
        ({
            let entries = st.heap.dict(id);
            let (after, r) = s_items(f, st, v, span);
            &&& after == st
            &&& r is Ok
            &&& r->Ok_0.len() == entries.len()
            &&& forall|i: int|
                0 <= i < entries.len() ==> dict_get(st.heap, entries, #[trigger] r->Ok_0[i]) == Some(
                    entries[i].value,
                )
            &&& forall|i: int|
                0 <= i < entries.len() ==> #[trigger] r->Ok_0[i] == entries[i].key
            &&& forall|i: int, j: int|
                0 <= i < j < entries.len() ==> #[trigger] r->Ok_0[i] != #[trigger] r->Ok_0[j]
        }),
{
    let entries = st.heap.dict(id);
    let items = s_items(f, st, v, span).1->Ok_0;
    assert forall|i: int| 0 <= i < entries.len() implies dict_get(st.heap, entries, #[trigger] items[i])
        == Some(entries[i].value) by {
        assert(items[i] == entries[i].key);
        lemma_found(st.heap, entries, items[i], i);
    }
    assert forall|i: int, j: int| 0 <= i < j < entries.len() implies #[trigger] items[i]
        != #[trigger] items[j] by {
        assert(items[i] == entries[i].key && items[j] == entries[j].key);
    }
}

/// Going over a list goes over its items, all of them and in order, as they are when the loop
/// starts.
pub proof fn law_a_list_is_gone_over_by_its_items(f: nat, st: St, v: Value, id: ObjId, span: Span)
    requires
        f > 0,
        slot_of(st.heap, v, Op::Iter) is None,
        base(st.heap, v) == Value::List(id),
    ensures
        ({
            let (after, r) = s_items(f, st, v, span);
            &&& after == st
            &&& r is Ok
            &&& r->Ok_0.len() == st.heap.list(id).len()
            &&& forall|i: int|
                0 <= i < r->Ok_0.len() ==> #[trigger] r->Ok_0[i] == st.heap.list(id)[i]
        }),
{
}

/// A class that declares `op iter` is asked, whatever else the value is, and the list it
/// answers with is gone over.
pub proof fn law_a_class_says_what_is_gone_over(
    f: nat,
    st: St,
    v: Value,
    span: Span,
    method: Value,
    st1: St,
    answer: Value,
    id: ObjId,
)
    requires
        slot_of(st.heap, v, Op::Iter) == Some(method),
        s_call_op(f, st, method, v, Seq::empty()) == (st1, Ok::<Value, ErrV>(answer)),
        base(st1.heap, answer) == Value::List(id),
    ensures
        s_items(f + 1, st, v, span).0 == st1,
        s_items(f + 1, st, v, span).1 is Ok,
        s_items(f + 1, st, v, span).1->Ok_0 =~= st1.heap.list(id),
{
}

/// Nothing but a list, a dict and what a class answers for is gone over.
pub proof fn law_nothing_else_is_gone_over(f: nat, st: St, v: Value, span: Span)
    requires
        f > 0,
        slot_of(st.heap, v, Op::Iter) is None,
        !(base(st.heap, v) is List),
        !(base(st.heap, v) is Dict),
    ensures
        s_items(f, st, v, span).0 == st,
        s_items(f, st, v, span).1 is Err,
        s_items(f, st, v, span).1->Err_0.kind == ErrorKind::Type,
{
}

/// A loop runs its block for an item with the item bound to its name, and, where the block runs
/// to its end, goes on with the next item.
pub proof fn law_a_loop_goes_on_to_the_next_item(
    f: nat,
    st: St,
    name: Seq<char>,
    items: Seq<Value>,
    body: BlockV,
    env: ObjId,
    i: int,
    st1: St,
)
    requires
        0 <= i < items.len(),
        s_block_with(f, st, name, items[i], body, env) == (st1, Ok::<Flow, ErrV>(Flow::Normal)),
    ensures
        s_iterate(f + 1, st, name, items, body, env, i) == s_iterate(
            f,
            st1,
            name,
            items,
            body,
            env,
            i + 1,
        ),
{
}

/// A block that returns or fails ends its loop with what it returned or failed with.
pub proof fn law_a_loop_is_left_by_return_and_error(
    f: nat,
    st: St,
    name: Seq<char>,
    items: Seq<Value>,
    body: BlockV,
    env: ObjId,
    i: int,
    st1: St,
    r: Result<Flow, ErrV>,
)
    requires
        0 <= i < items.len(),
        s_block_with(f, st, name, items[i], body, env) == (st1, r),
        r != Ok::<Flow, ErrV>(Flow::Normal),
    ensures
        s_iterate(f + 1, st, name, items, body, env, i) == (st1, r),
{
}

/// A loop ends by itself behind the last item, and changes nothing there.
pub proof fn law_a_loop_ends_behind_the_last_item(
    f: nat,
    st: St,
    name: Seq<char>,
    items: Seq<Value>,
    body: BlockV,
    env: ObjId,
)
    ensures
        s_iterate(f, st, name, items, body, env, items.len() as int) == (
            st,
            Ok::<Flow, ErrV>(Flow::Normal),
        ),
{
}

/// A `for` evaluates what it goes over once, and then goes over its items from the first on.
/// What it held is let go of when it ends.
pub proof fn law_a_for_goes_over_the_items(
    f: nat,
    st: St,
    s: StmtV,
    var: Seq<char>,
    iter: ExprV,
    body: BlockV,
    env: ObjId,
    st1: St,
    v: Value,
    st2: St,
    items: Seq<Value>,
)
    requires
        s.kind == (StmtKindV::For { var, iter, body }),
        s_eval(f, s_collect(st), iter, env) == (st1, Ok::<Value, ErrV>(v)),
        s_items(f, st1, v, iter.span) == (st2, Ok::<Seq<Value>, ErrV>(items)),
    ensures
        s_exec(f + 3, st, s, env).1 == s_iterate(f, held(st2, items), var, items, body, env, 0).1,
        s_exec(f + 3, st, s, env).0 == released(
            s_iterate(f, held(st2, items), var, items, body, env, 0).0,
            st2.temps.len() as int,
        ),
        s_exec(f + 3, st, s, env).0.out == s_iterate(f, held(st2, items), var, items, body, env, 0).0.out,
        items.len() == 0 ==> s_exec(f + 3, st, s, env).1 == Ok::<Flow, ErrV>(Flow::Normal),
{
    assert(s_exec(f + 3, st, s, env) == s_statement(f + 2, s_collect(st), s, env));
    assert(s_statement(f + 2, s_collect(st), s, env) == s_for(f + 1, s_collect(st), var, iter, body, env));
}

// -- names a block is given -------------------------------------------------------------------

/// The statement that returns what a name reads as.
pub open spec fn returns_name(name: Seq<char>, at: Span) -> StmtV {
    StmtV {
        kind: StmtKindV::Return(Some(ExprV { kind: ExprKindV::Var(name), span: at })),
        span: at,
    }
}

/// A collection keeps the scope that is in use.
pub(crate) proof fn lemma_scope_kept(st: St, scope: ObjId)
    requires
        st.scopes.len() > 0,
        st.scopes.last() == scope,
        st.heap.cell(scope) is Some,
    ensures
        s_collect(st).heap.cell(scope) == st.heap.cell(scope),
        s_collect(st).heap.cells.len() == st.heap.cells.len(),
{
    let rs = roots(st);
    assert(rs[st.scopes.len() as int] == scope);
    lemma_root_is_reachable(st.heap.cells, Follow::All, rs, scope);
    law_collection_keeps_the_reachable(st.heap, rs, scope);
}

/// What a name that the innermost scope gives a value reads as.
pub(crate) proof fn lemma_own_name_reads(st: St, scope: ObjId, name: Seq<char>, v: Value, span: Span)
    requires
        st.heap.cell(scope) is Some,
        st.heap.scope(scope).parent is Some,
        var_of(st.heap, scope, name) is Some,
        var_of(st.heap, scope, name)->0.value == Some(v),
    ensures
        s_read(st, name, scope, span) == (st, Ok::<Value, ErrV>(v)),
{
    assert(st.heap.cells.len() > 0);
    assert(var_place(st.heap.scope(scope).vars, name, 0) is Some);
}

/// In the block of a loop, and in a handler, the name that is bound there reads as the value
/// it is bound to: a block that returns it returns that value.
pub proof fn law_a_bound_name_reads_as_its_value(
    f: nat,
    st: St,
    name: Seq<char>,
    v: Value,
    span: Span,
    env: ObjId,
)
    requires
        sound(st.heap, st.globals),
        st.heap.cells.len() < usize::MAX,
    ensures
        ({
            let block = BlockV { stmts: seq![returns_name(name, span)], span };
            s_block_with(f + 6, st, name, v, block, env).1 == Ok::<Flow, ErrV>(Flow::Return(v))
        }),
{
    let s = returns_name(name, span);
    let stmts = seq![s];
    let block = BlockV { stmts, span };
    let scope = st.heap.next_id();
    let made = crate::interp::declare::block_scope(seq![name], stmts, env);
    let h1 = st.heap.with_new(made);
    law_a_new_object_moves_nothing(st.heap, made);
    assert(h1.obj(scope) == Some(made));
    let h2 = declared(h1, scope, name, v, crate::syntax::ast::Bind::Let, None);
    law_a_declared_name_is_found(h1, scope, name, v, crate::syntax::ast::Bind::Let, None);
    let st1 = St { heap: h1, ..st };
    let st2 = St { heap: h2, ..st };
    let st3 = St { scopes: st2.scopes.push(scope), ..st2 };
    assert(h2.cell(scope) is Some);
    lemma_scope_kept(st3, scope);
    let st4 = s_collect(st3);
    assert(st4.heap.scope(scope) == h2.scope(scope));
    assert(h2.scope(scope).parent == Some(env));
    lemma_own_name_reads(st4, scope, name, v, span);
    assert(s_block_with(f + 6, st, name, v, block, env) == s_scoped(f + 5, st2, stmts, scope, span));
    assert(s_stmts(f + 4, st3, stmts, scope, 0).1 == s_exec(f + 3, st3, s, scope).1) by {
        assert(s_exec(f + 3, st3, s, scope) == s_statement(f + 2, st4, s, scope));
        assert(s_statement(f + 2, st4, s, scope) == s_return(f + 1, st4, s.kind->Return_0, s.span, scope));
        let e = s.kind->Return_0->0;
        assert(s_eval(f, st4, e, scope) == s_read(st4, name, scope, span));
    }
    assert(s_exec(f + 3, st3, s, scope).1 == Ok::<Flow, ErrV>(Flow::Return(v))) by {
        assert(s_exec(f + 3, st3, s, scope) == s_statement(f + 2, st4, s, scope));
        assert(s_statement(f + 2, st4, s, scope) == s_return(f + 1, st4, s.kind->Return_0, s.span, scope));
        let e = s.kind->Return_0->0;
        assert(s_eval(f, st4, e, scope) == s_read(st4, name, scope, span));
    }
}

// -- leaving and failing ----------------------------------------------------------------------

/// A `return` leaves with the value of its expression.
pub proof fn law_a_return_leaves_with_its_value(f: nat, st: St, s: StmtV, e: ExprV, env: ObjId, st1: St, v: Value)
    requires
        s.kind == StmtKindV::Return(Some(e)),
        s_eval(f, s_collect(st), e, env) == (st1, Ok::<Value, ErrV>(v)),
    ensures
        s_exec(f + 3, st, s, env) == (st1, Ok::<Flow, ErrV>(Flow::Return(v))),
{
    assert(s_exec(f + 3, st, s, env) == s_statement(f + 2, s_collect(st), s, env));
    assert(s_statement(f + 2, s_collect(st), s, env) == s_return(
        f + 1,
        s_collect(st),
        Some(e),
        s.span,
        env,
    ));
}

/// A bare `return` leaves with nil.
pub proof fn law_a_bare_return_leaves_with_nil(f: nat, st: St, s: StmtV, env: ObjId)
    requires
        s.kind == StmtKindV::Return(None),
    ensures
        s_exec(f + 3, st, s, env) == (s_collect(st), Ok::<Flow, ErrV>(Flow::Return(Value::Nil))),
{
    assert(s_exec(f + 3, st, s, env) == s_statement(f + 2, s_collect(st), s, env));
    assert(s_statement(f + 2, s_collect(st), s, env) == s_return(
        f + 1,
        s_collect(st),
        None,
        s.span,
        env,
    ));
}

/// An expression as a statement does what the expression does, and its value is let go of.
pub proof fn law_an_expression_statement_only_evaluates(f: nat, st: St, s: StmtV, e: ExprV, env: ObjId)
    requires
        s.kind == StmtKindV::Expr(e),
    ensures
        s_exec(f + 3, st, s, env).0 == s_eval(f, s_collect(st), e, env).0,
        s_eval(f, s_collect(st), e, env).1 is Ok ==> s_exec(f + 3, st, s, env).1 == Ok::<Flow, ErrV>(
            Flow::Normal,
        ),
        s_eval(f, s_collect(st), e, env).1 is Err ==> s_exec(f + 3, st, s, env).1 == Err::<Flow, ErrV>(
            s_eval(f, s_collect(st), e, env).1->Err_0,
        ),
{
    let st0 = s_collect(st);
    assert(s_exec(f + 3, st, s, env) == s_statement(f + 2, st0, s, env));
    assert(s_statement(f + 2, st0, s, env) == crate::interp::exec::s_expr_stmt(f + 1, st0, e, env));
}

/// A `throw` fails with the value of its expression, which a handler can bind.
pub proof fn law_a_throw_fails_with_its_value(f: nat, st: St, s: StmtV, e: ExprV, env: ObjId, st1: St, id: ObjId)
    requires
        s.kind == StmtKindV::Throw(e),
        s_eval(f, s_collect(st), e, env) == (st1, Ok::<Value, ErrV>(Value::Instance(id))),
        crate::interp::error::descends_from_error(st1, st1.heap.instance(id).class),
    ensures
        s_exec(f + 3, st, s, env).0 == st1,
        s_exec(f + 3, st, s, env).1 is Err,
        s_reify(st1, s_exec(f + 3, st, s, env).1->Err_0) == (st1, Value::Instance(id)),
        s_exec(f + 3, st, s, env).1->Err_0.span == s.span,
{
    let st0 = s_collect(st);
    assert(s_exec(f + 3, st, s, env) == s_statement(f + 2, st0, s, env));
    assert(s_statement(f + 2, st0, s, env) == s_throw_stmt(f + 1, st0, e, s.span, env));
}

/// A `try` whose block does not fail is its block; its handler is not run.
pub proof fn law_a_try_that_does_not_fail_is_its_block(
    f: nat,
    st: St,
    s: StmtV,
    body: BlockV,
    binding: Seq<char>,
    handler: BlockV,
    env: ObjId,
)
    requires
        s.kind == (StmtKindV::Try { body, binding, handler }),
        s_block(f, s_collect(st), body, env).1 is Ok,
    ensures
        s_exec(f + 3, st, s, env) == s_block(f, s_collect(st), body, env),
{
    let st0 = s_collect(st);
    assert(s_exec(f + 3, st, s, env) == s_statement(f + 2, st0, s, env));
    assert(s_statement(f + 2, st0, s, env) == s_try(f + 1, st0, body, binding, handler, env));
}

/// A `try` whose block fails runs its handler, in the state the failure left, with the error
/// bound to its name; what the handler does is what the `try` does. Only an evaluation that
/// took too many steps is not caught.
pub proof fn law_a_try_that_fails_runs_its_handler(
    f: nat,
    st: St,
    s: StmtV,
    body: BlockV,
    binding: Seq<char>,
    handler: BlockV,
    env: ObjId,
    st1: St,
    e: ErrV,
)
    requires
        s.kind == (StmtKindV::Try { body, binding, handler }),
        s_block(f, s_collect(st), body, env) == (st1, Err::<Flow, ErrV>(e)),
    ensures
        e.kind != ErrorKind::Budget ==> s_exec(f + 3, st, s, env) == s_block_with(
            f,
            s_reify(st1, e).0,
            binding,
            s_reify(st1, e).1,
            handler,
            env,
        ),
        e.kind == ErrorKind::Budget ==> s_exec(f + 3, st, s, env) == (st1, Err::<Flow, ErrV>(e)),
{
    let st0 = s_collect(st);
    assert(s_exec(f + 3, st, s, env) == s_statement(f + 2, st0, s, env));
    assert(s_statement(f + 2, st0, s, env) == s_try(f + 1, st0, body, binding, handler, env));
}

// -- one after another ------------------------------------------------------------------------

/// Statements run one after another: where one runs to its end, the next is run in the state it
/// left.
pub proof fn law_the_next_statement_runs_behind_one_that_ends(
    f: nat,
    st: St,
    stmts: Seq<StmtV>,
    env: ObjId,
    i: int,
    st1: St,
)
    requires
        0 <= i < stmts.len(),
        s_exec(f, st, stmts[i], env) == (st1, Ok::<Flow, ErrV>(Flow::Normal)),
    ensures
        s_stmts(f + 1, st, stmts, env, i) == s_stmts(f, st1, stmts, env, i + 1),
{
}

/// Nothing is run behind a statement that returns or fails: what it returned or failed with is
/// what they all do.
pub proof fn law_nothing_runs_behind_a_return_or_an_error(
    f: nat,
    st: St,
    stmts: Seq<StmtV>,
    env: ObjId,
    i: int,
    st1: St,
    r: Result<Flow, ErrV>,
)
    requires
        0 <= i < stmts.len(),
        s_exec(f, st, stmts[i], env) == (st1, r),
        r != Ok::<Flow, ErrV>(Flow::Normal),
    ensures
        s_stmts(f + 1, st, stmts, env, i) == (st1, r),
{
}

/// Statements that all run to their end end where the last of them left the state.
pub proof fn law_statements_end_behind_the_last(f: nat, st: St, stmts: Seq<StmtV>, env: ObjId)
    ensures
        s_stmts(f, st, stmts, env, stmts.len() as int) == (st, Ok::<Flow, ErrV>(Flow::Normal)),
{
}

/// A block runs its statements from the first on, in a scope of its own behind the one around
/// it, which is in use while they run and no longer.
pub proof fn law_a_block_runs_in_a_scope_of_its_own(f: nat, st: St, block: BlockV, env: ObjId)
    requires
        sound(st.heap, st.globals),
        st.heap.cells.len() < usize::MAX,
    ensures
        exists|inner: St|
            s_block(f + 2, st, block, env).1 == (#[trigger] s_stmts(
                f,
                inner,
                block.stmts,
                st.heap.next_id(),
                0,
            )).1 && inner.scopes == st.scopes.push(st.heap.next_id()) && inner.heap.scope(
                st.heap.next_id(),
            ).parent == Some(env) && inner.out == st.out && (forall|id: ObjId|
                id != st.heap.next_id() ==> #[trigger] inner.heap.cell(id) == st.heap.cell(id))
                && s_block(f + 2, st, block, env).0.out == s_stmts(
                f,
                inner,
                block.stmts,
                st.heap.next_id(),
                0,
            ).0.out && s_block(f + 2, st, block, env).0.heap == s_stmts(
                f,
                inner,
                block.stmts,
                st.heap.next_id(),
                0,
            ).0.heap,
{
    let made = crate::interp::declare::block_scope(Seq::empty(), block.stmts, env);
    let scope = st.heap.next_id();
    law_a_new_object_moves_nothing(st.heap, made);
    let st1 = St { heap: st.heap.with_new(made), ..st };
    let inner = St { scopes: st.scopes.push(scope), ..st1 };
    assert(s_block(f + 2, st, block, env) == s_scoped(f + 1, st1, block.stmts, scope, block.span));
    assert(inner.heap.obj(scope) == Some(made));
    assert(s_stmts(f, inner, block.stmts, scope, 0).1 == s_block(f + 2, st, block, env).1);
}

/// A block as a statement is that block, from the state the collector leaves.
pub proof fn law_a_block_statement_is_its_block(f: nat, st: St, s: StmtV, block: BlockV, env: ObjId)
    requires
        s.kind == StmtKindV::Block(block),
    ensures
        s_exec(f + 2, st, s, env) == s_block(f, s_collect(st), block, env),
{
    assert(s_exec(f + 2, st, s, env) == s_statement(f + 1, s_collect(st), s, env));
}

/// A program runs its statements in order, each in the state the one before left, and stops
/// with the error of the first that fails.
pub proof fn law_a_program_runs_its_statements_in_order(f: nat, st: St, program: Seq<StmtV>, env: ObjId, i: int)
    requires
        0 <= i < program.len(),
    ensures
        s_exec(f, st, program[i], env).1 is Ok ==> s_program(f + 1, st, program, env, i) == s_program(
            f,
            s_exec(f, st, program[i], env).0,
            program,
            env,
            i + 1,
        ),
        s_exec(f, st, program[i], env).1 is Err ==> s_program(f + 1, st, program, env, i) == (
            s_exec(f, st, program[i], env).0,
            Err::<(), ErrV>(s_exec(f, st, program[i], env).1->Err_0),
        ),
        s_program(f, st, program, env, program.len() as int) == (st, Ok::<(), ErrV>(())),
{
}

} // verus!
