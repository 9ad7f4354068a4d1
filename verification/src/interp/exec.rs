//! Statements: what each does to the state, and where it leads.

use crate::error::{err_help, res, ErrV, ErrorKind, QuinceError};
use crate::interp::call::opt_substituted;
use crate::interp::coerce::{s_initial, value_list};
use crate::interp::declare::{block_scope, make_scope, s_declare_class, s_declare_fn, s_extend};
use crate::interp::dict::{entry_keys, keys_of};
use crate::interp::error::{helped_type_error, s_reify, s_throw, too_far, too_far_error};
use crate::interp::eval::s_eval;
use crate::interp::module::{opt_names, s_import};
use crate::interp::operator::op_returned;
use crate::interp::ops::{s_call_op, s_is_truthy};
use crate::interp::state::{held, popped, released, s_collect, with_heap, with_new, Interp, Out, St};
use crate::runtime::class::{base, slot_of, type_text};
use crate::runtime::heap::frozen_by;
use crate::runtime::scope::declared;
use crate::runtime::value::{ObjId, Value};
use crate::syntax::ast::{
    block_v, class_decl_v, expr_v, fn_decl_v, fn_decls_v, lemma_stmt_kind, stmt_kind_v, stmt_v,
    stmts_v, Bind, Block, BlockV, Expr, ExprV, Op, Stmt, StmtKind, StmtKindV, StmtV, TypeExpr,
    TypeExprV,
};
use crate::syntax::parser::{opt_expr, opt_stmt, opt_type};
use crate::syntax::token::Span;
use crate::text::{cat2, lemma_strs_push, strs};
use std::rc::Rc;
use vstd::prelude::*;

verus! {

broadcast use lemma_strs_push;

/// Where a statement leads: to the next one, or out of the function.
#[derive(Clone, Copy, Debug, PartialEq, Eq, Structural)]
pub enum Flow {
    Normal,
    Return(Value),
}

// -- blocks -------------------------------------------------------------------------------------

/// The statements from `i` on, run in a scope until one returns.
pub open spec fn s_stmts(f: nat, st: St, stmts: Seq<StmtV>, env: ObjId, i: int) -> Out<Flow>
    decreases f,
{
    if i < 0 || i >= stmts.len() {
        (st, Ok(Flow::Normal))
    } else if f == 0 {
        (st, Err(too_far(stmts[i].span)))
    } else {
        match s_exec((f - 1) as nat, st, stmts[i], env) {
            (st1, Ok(Flow::Normal)) => s_stmts((f - 1) as nat, st1, stmts, env, i + 1),
            (st1, r) => (st1, r),
        }
    }
}

/// Statements run in a scope that is in use while they are.
pub open spec fn s_scoped(f: nat, st: St, stmts: Seq<StmtV>, scope: ObjId, span: Span) -> Out<Flow>
    decreases f,
{
    if f == 0 {
        (st, Err(too_far(span)))
    } else {
        let (st1, r) = s_stmts(
            (f - 1) as nat,
            St { scopes: st.scopes.push(scope), ..st },
            stmts,
            scope,
            0,
        );
        (St { scopes: popped(st1.scopes), ..st1 }, r)
    }
}

/// A block, in a scope of its own.
pub open spec fn s_block(f: nat, st: St, block: BlockV, env: ObjId) -> Out<Flow>
    decreases f,
{
    if f == 0 {
        (st, Err(too_far(block.span)))
    } else {
        s_scoped(
            (f - 1) as nat,
            with_new(st, block_scope(Seq::empty(), block.stmts, env)),
            block.stmts,
            st.heap.next_id(),
            block.span,
        )
    }
}

/// A block in a scope that also binds a name.
pub open spec fn s_block_with(f: nat, st: St, name: Seq<char>, v: Value, block: BlockV, env: ObjId) -> Out<
    Flow,
>
    decreases f,
{
    if f == 0 {
        (st, Err(too_far(block.span)))
    } else {
        let scope = st.heap.next_id();
        let st1 = with_new(st, block_scope(seq![name], block.stmts, env));
        s_scoped(
            (f - 1) as nat,
            with_heap(st1, declared(st1.heap, scope, name, v, Bind::Let, None)),
            block.stmts,
            scope,
            block.span,
        )
    }
}

impl Interp {
    /// Runs statements in a scope until one returns.
    pub(crate) fn stmts(&mut self, stmts: &Vec<Stmt>, env: ObjId, fuel: u64) -> (r: Result<
        Flow,
        QuinceError,
    >)
        ensures
            (final(self)@, res(r)) == s_stmts(
                fuel as nat,
                old(self)@,
                stmts_v(stmts@),
                env,
                0,
            ),
        decreases fuel,
    {
        let ghost all = stmts_v(stmts@);
        let ghost goal = s_stmts(fuel as nat, self@, all, env, 0);
        let mut left: u64 = fuel;
        let mut i: usize = 0;
        while i < stmts.len()
            invariant
                left <= fuel,
                i <= stmts@.len(),
                all == stmts_v(stmts@),
                goal == s_stmts(fuel as nat, old(self)@, all, env, 0),
                goal == s_stmts(left as nat, self@, all, env, i as int),
            decreases stmts@.len() - i,
        {
            if left == 0 {
                return Err(too_far_error(stmts[i].span));
            }
            left -= 1;
            match self.exec(&stmts[i], env, left) {
                Ok(Flow::Normal) => {},
                r => {
                    return r;
                },
            }
            i += 1;
        }
        Ok(Flow::Normal)
    }

    fn scoped(&mut self, stmts: &Vec<Stmt>, scope: ObjId, span: Span, fuel: u64) -> (r: Result<
        Flow,
        QuinceError,
    >)
        ensures
            (final(self)@, res(r)) == s_scoped(
                fuel as nat,
                old(self)@,
                stmts_v(stmts@),
                scope,
                span,
            ),
        decreases fuel,
    {
        if fuel == 0 {
            return Err(too_far_error(span));
        }
        self.scopes.push(scope);
        let r = self.stmts(stmts, scope, fuel - 1);
        let ghost before = self.scopes@;
        self.scopes.pop();
        assert(self.scopes@ =~= popped(before));
        r
    }

    fn block(&mut self, block: &Block, env: ObjId, fuel: u64) -> (r: Result<Flow, QuinceError>)
        ensures
            (final(self)@, res(r)) == s_block(fuel as nat, old(self)@, block_v(*block), env),
        decreases fuel,
    {
        assert(block_v(*block).stmts == stmts_v(block.stmts@));
        if fuel == 0 {
            return Err(too_far_error(block.span));
        }
        let none: Vec<String> = Vec::new();
        assert(strs(none@) =~= Seq::empty());
        let scope = self.heap.add_object(make_scope(none, &block.stmts, env));
        self.scoped(&block.stmts, scope, block.span, fuel - 1)
    }

    fn block_with(&mut self, name: &str, v: Value, block: &Block, env: ObjId, fuel: u64) -> (r: Result<
        Flow,
        QuinceError,
    >)
        ensures
            (final(self)@, res(r)) == s_block_with(
                fuel as nat,
                old(self)@,
                name@,
                v,
                block_v(*block),
                env,
            ),
        decreases fuel,
    {
        assert(block_v(*block).stmts == stmts_v(block.stmts@));
        if fuel == 0 {
            return Err(too_far_error(block.span));
        }
        let mut first: Vec<String> = Vec::new();
        first.push(name.to_owned());
        assert(strs(first@) =~= seq![name@]);
        let scope = self.heap.add_object(make_scope(first, &block.stmts, env));
        self.heap.declare(scope, name, v, Bind::Let, None);
        self.scoped(&block.stmts, scope, block.span, fuel - 1)
    }
}

// -- loops --------------------------------------------------------------------------------------------

pub open spec fn s_while(f: nat, st: St, cond: ExprV, body: BlockV, env: ObjId) -> Out<Flow>
    decreases f,
{
    if f == 0 {
        (st, Err(too_far(cond.span)))
    } else {
        match s_eval((f - 1) as nat, st, cond, env) {
            (st1, Err(e)) => (st1, Err(e)),
            (st1, Ok(v)) => match s_is_truthy((f - 1) as nat, st1, v) {
                (st2, Err(e)) => (st2, Err(e)),
                (st2, Ok(false)) => (st2, Ok(Flow::Normal)),
                (st2, Ok(true)) => match s_block((f - 1) as nat, st2, body, env) {
                    (st3, Ok(Flow::Normal)) => s_while((f - 1) as nat, st3, cond, body, env),
                    (st3, r) => (st3, r),
                },
            },
        }
    }
}

/// A loop's body for the items from `i` on.
pub open spec fn s_iterate(
    f: nat,
    st: St,
    name: Seq<char>,
    items: Seq<Value>,
    body: BlockV,
    env: ObjId,
    i: int,
) -> Out<Flow>
    decreases f,
{
    if i < 0 || i >= items.len() {
        (st, Ok(Flow::Normal))
    } else if f == 0 {
        (st, Err(too_far(body.span)))
    } else {
        match s_block_with((f - 1) as nat, st, name, items[i], body, env) {
            (st1, Ok(Flow::Normal)) => s_iterate(
                (f - 1) as nat,
                st1,
                name,
                items,
                body,
                env,
                i + 1,
            ),
            (st1, r) => (st1, r),
        }
    }
}

/// What a loop goes through: what `op iter` answers, a list's items or a dict's keys, as
/// they are when the loop starts.
pub open spec fn s_items(f: nat, st: St, v: Value, span: Span) -> Out<Seq<Value>>
    decreases f,
{
    if f == 0 {
        (st, Err(too_far(span)))
    } else {
        match slot_of(st.heap, v, Op::Iter) {
            Some(method) => match s_call_op((f - 1) as nat, st, method, v, Seq::empty()) {
                (st1, Err(e)) => (st1, Err(e)),
                (st1, Ok(answer)) => match base(st1.heap, answer) {
                    Value::List(id) => (st1, Ok(st1.heap.list(id))),
                    got => (st1, Err(op_returned(st1.heap, Op::Iter, v, "a list"@, got))),
                },
            },
            None => match base(st.heap, v) {
                Value::List(id) => (st, Ok(st.heap.list(id))),
                Value::Dict(id) => (st, Ok(keys_of(st.heap.dict(id)))),
                _ => (
                    st,
                    Err(
                        err_help(
                            ErrorKind::Type,
                            "cannot iterate over "@ + type_text(st.heap, v),
                            span,
                            "only lists and dicts can be iterated in a for loop"@,
                        ),
                    ),
                ),
            },
        }
    }
}

pub open spec fn s_for(f: nat, st: St, name: Seq<char>, iter: ExprV, body: BlockV, env: ObjId) -> Out<
    Flow,
>
    decreases f,
{
    if f == 0 {
        (st, Err(too_far(iter.span)))
    } else {
        match s_eval((f - 1) as nat, st, iter, env) {
            (st1, Err(e)) => (st1, Err(e)),
            (st1, Ok(v)) => match s_items((f - 1) as nat, st1, v, iter.span) {
                (st2, Err(e)) => (st2, Err(e)),
                (st2, Ok(items)) => {
                    let (st3, r) = s_iterate(
                        (f - 1) as nat,
                        held(st2, items),
                        name,
                        items,
                        body,
                        env,
                        0,
                    );
                    (released(st3, st2.temps.len() as int), r)
                },
            },
        }
    }
}

impl Interp {
    fn while_loop(&mut self, cond: &Expr, body: &Block, env: ObjId, fuel: u64) -> (r: Result<
        Flow,
        QuinceError,
    >)
        ensures
            (final(self)@, res(r)) == s_while(
                fuel as nat,
                old(self)@,
                cond@,
                block_v(*body),
                env,
            ),
        decreases fuel,
    {
        let ghost goal = s_while(fuel as nat, self@, cond@, block_v(*body), env);
        let mut left: u64 = fuel;
        loop
            invariant
                left <= fuel,
                goal == s_while(fuel as nat, old(self)@, cond@, block_v(*body), env),
                goal == s_while(left as nat, self@, cond@, block_v(*body), env),
            decreases left,
        {
            if left == 0 {
                return Err(too_far_error(cond.span));
            }
            left -= 1;
            let v = match self.eval(cond, env, left) {
                Ok(v) => v,
                Err(e) => {
                    return Err(e);
                },
            };
            let go_on = match self.truthy(v, left) {
                Ok(b) => b,
                Err(e) => {
                    return Err(e);
                },
            };
            if !go_on {
                return Ok(Flow::Normal);
            }
            match self.block(body, env, left) {
                Ok(Flow::Normal) => {},
                r => {
                    return r;
                },
            }
        }
    }

    fn iterate(&mut self, name: &str, items: &Vec<Value>, body: &Block, env: ObjId, fuel: u64) -> (r:
        Result<Flow, QuinceError>)
        ensures
            (final(self)@, res(r)) == s_iterate(
                fuel as nat,
                old(self)@,
                name@,
                items@,
                block_v(*body),
                env,
                0,
            ),
        decreases fuel,
    {
        let ghost goal = s_iterate(fuel as nat, self@, name@, items@, block_v(*body), env, 0);
        let mut left: u64 = fuel;
        let mut i: usize = 0;
        while i < items.len()
            invariant
                left <= fuel,
                i <= items@.len(),
                goal == s_iterate(
                    fuel as nat,
                    old(self)@,
                    name@,
                    items@,
                    block_v(*body),
                    env,
                    0,
                ),
                goal == s_iterate(
                    left as nat,
                    self@,
                    name@,
                    items@,
                    block_v(*body),
                    env,
                    i as int,
                ),
            decreases items@.len() - i,
        {
            if left == 0 {
                return Err(too_far_error(body.span));
            }
            left -= 1;
            match self.block_with(name, items[i], body, env, left) {
                Ok(Flow::Normal) => {},
                r => {
                    return r;
                },
            }
            i += 1;
        }
        Ok(Flow::Normal)
    }

    fn items(&mut self, v: Value, span: Span, fuel: u64) -> (r: Result<Vec<Value>, QuinceError>)
        ensures
            (final(self)@, value_list(r)) == s_items(fuel as nat, old(self)@, v, span),
        decreases fuel,
    {
        if fuel == 0 {
            return Err(too_far_error(span));
        }
        match self.heap.slot_of(v, Op::Iter) {
            Some(method) => {
                let none: Vec<Value> = Vec::new();
                assert(none@ =~= Seq::empty());
                let answer = match self.call_op(method, v, none, fuel - 1) {
                    Ok(answer) => answer,
                    Err(e) => {
                        return Err(e);
                    },
                };
                match self.heap.base(answer) {
                    Value::List(id) => Ok(self.heap.list(id)),
                    got => Err(self.heap.op_returned(Op::Iter, v, "a list", got)),
                }
            },
            None => match self.heap.base(v) {
                Value::List(id) => Ok(self.heap.list(id)),
                Value::Dict(id) => Ok(entry_keys(&self.heap.dict(id))),
                _ => {
                    let kind = self.heap.type_text(v);
                    Err(
                        helped_type_error(
                            cat2("cannot iterate over ", kind.as_str()),
                            span,
                            "only lists and dicts can be iterated in a for loop",
                        ),
                    )
                },
            },
        }
    }

    fn for_loop(&mut self, name: &str, iter: &Expr, body: &Block, env: ObjId, fuel: u64) -> (r: Result<
        Flow,
        QuinceError,
    >)
        ensures
            (final(self)@, res(r)) == s_for(
                fuel as nat,
                old(self)@,
                name@,
                iter@,
                block_v(*body),
                env,
            ),
        decreases fuel,
    {
        if fuel == 0 {
            return Err(too_far_error(iter.span));
        }
        let v = match self.eval(iter, env, fuel - 1) {
            Ok(v) => v,
            Err(e) => {
                return Err(e);
            },
        };
        let items = match self.items(v, iter.span, fuel - 1) {
            Ok(items) => items,
            Err(e) => {
                return Err(e);
            },
        };
        let mark: usize = self.temps.len();
        self.hold(&items);
        let r = self.iterate(name, &items, body, env, fuel - 1);
        self.release(mark);
        r
    }
}

// -- single statements ---------------------------------------------------------------------------------

/// A declaration, its value bound.
pub open spec fn let_bound(
    st: St,
    name: Seq<char>,
    ty: Option<TypeExprV>,
    v: Value,
    bind: Bind,
    env: ObjId,
) -> St {
    let h = if bind.does_freeze() {
        frozen_by(st.heap, v)
    } else {
        st.heap
    };
    with_heap(st, declared(h, env, name, v, bind, opt_substituted(st, ty)))
}

pub open spec fn s_let(
    f: nat,
    st: St,
    name: Seq<char>,
    name_span: Span,
    ty: Option<TypeExprV>,
    value: Option<ExprV>,
    bind: Bind,
    env: ObjId,
) -> Out<Flow>
    decreases f,
{
    if f == 0 {
        (st, Err(too_far(name_span)))
    } else {
        match s_initial((f - 1) as nat, st, name, name_span, ty, value, env) {
            (st1, Err(e)) => (st1, Err(e)),
            (st1, Ok(v)) => (let_bound(st1, name, ty, v, bind, env), Ok(Flow::Normal)),
        }
    }
}

pub open spec fn s_if(
    f: nat,
    st: St,
    cond: ExprV,
    consequent: BlockV,
    otherwise: Option<Box<StmtV>>,
    env: ObjId,
) -> Out<Flow>
    decreases f,
{
    if f == 0 {
        (st, Err(too_far(cond.span)))
    } else {
        match s_eval((f - 1) as nat, st, cond, env) {
            (st1, Err(e)) => (st1, Err(e)),
            (st1, Ok(v)) => match s_is_truthy((f - 1) as nat, st1, v) {
                (st2, Err(e)) => (st2, Err(e)),
                (st2, Ok(true)) => s_block((f - 1) as nat, st2, consequent, env),
                (st2, Ok(false)) => match otherwise {
                    Some(s) => s_exec((f - 1) as nat, st2, *s, env),
                    None => (st2, Ok(Flow::Normal)),
                },
            },
        }
    }
}

/// `try`: an error the body raises is bound in the handler.
pub open spec fn s_try(
    f: nat,
    st: St,
    body: BlockV,
    binding: Seq<char>,
    handler: BlockV,
    env: ObjId,
) -> Out<Flow>
    decreases f,
{
    if f == 0 {
        (st, Err(too_far(body.span)))
    } else {
        match s_block((f - 1) as nat, st, body, env) {
            (st1, Ok(flow)) => (st1, Ok(flow)),
            (st1, Err(e)) => if e.kind == ErrorKind::Budget {
                (st1, Err(e))
            } else {
                let (st2, caught) = s_reify(st1, e);
                s_block_with((f - 1) as nat, st2, binding, caught, handler, env)
            },
        }
    }
}

pub open spec fn s_throw_stmt(f: nat, st: St, value: ExprV, span: Span, env: ObjId) -> Out<Flow>
    decreases f,
{
    if f == 0 {
        (st, Err(too_far(span)))
    } else {
        match s_eval((f - 1) as nat, st, value, env) {
            (st1, Err(e)) => (st1, Err(e)),
            (st1, Ok(v)) => (st1, Err(s_throw(st1, v, span))),
        }
    }
}

pub open spec fn s_return(f: nat, st: St, value: Option<ExprV>, span: Span, env: ObjId) -> Out<Flow>
    decreases f,
{
    if f == 0 {
        (st, Err(too_far(span)))
    } else {
        match value {
            None => (st, Ok(Flow::Return(Value::Nil))),
            Some(e) => match s_eval((f - 1) as nat, st, e, env) {
                (st1, Err(e)) => (st1, Err(e)),
                (st1, Ok(v)) => (st1, Ok(Flow::Return(v))),
            },
        }
    }
}

pub open spec fn s_expr_stmt(f: nat, st: St, e: ExprV, env: ObjId) -> Out<Flow>
    decreases f,
{
    if f == 0 {
        (st, Err(too_far(e.span)))
    } else {
        match s_eval((f - 1) as nat, st, e, env) {
            (st1, Err(e)) => (st1, Err(e)),
            (st1, Ok(_)) => (st1, Ok(Flow::Normal)),
        }
    }
}

/// What follows a statement that only changes the state.
pub open spec fn went_on(r: Out<()>) -> Out<Flow> {
    match r.1 {
        Ok(_) => (r.0, Ok(Flow::Normal)),
        Err(e) => (r.0, Err(e)),
    }
}

/// A statement that declares something.
pub open spec fn s_declaration(f: nat, st: St, kind: StmtKindV, span: Span, env: ObjId) -> Out<Flow>
    decreases f,
{
    if f == 0 {
        (st, Err(too_far(span)))
    } else {
        match kind {
            StmtKindV::Let { name, name_span, ty, value, bind, visibility } => s_let(
                (f - 1) as nat,
                st,
                name,
                name_span,
                ty,
                value,
                bind,
                env,
            ),
            StmtKindV::Fn(decl) => (s_declare_fn(st, *decl, env), Ok(Flow::Normal)),
            StmtKindV::Class(decl) => went_on(s_declare_class(st, *decl, env)),
            StmtKindV::Extend { target, target_span, methods } => went_on(
                s_extend(st, target, target_span, methods, env),
            ),
            StmtKindV::Import { module, module_span, names } => went_on(
                s_import((f - 1) as nat, st, module, module_span, names, env),
            ),
            _ => (st, Ok(Flow::Normal)),
        }
    }
}

pub open spec fn is_declaration(kind: StmtKindV) -> bool {
    match kind {
        StmtKindV::Let { .. } => true,
        StmtKindV::Fn(_) => true,
        StmtKindV::Class(_) => true,
        StmtKindV::Extend { .. } => true,
        StmtKindV::Import { .. } => true,
        _ => false,
    }
}

/// A statement run, where the collector has had its chance.
pub open spec fn s_statement(f: nat, st: St, s: StmtV, env: ObjId) -> Out<Flow>
    decreases f,
{
    if f == 0 {
        (st, Err(too_far(s.span)))
    } else if is_declaration(s.kind) {
        s_declaration((f - 1) as nat, st, s.kind, s.span, env)
    } else {
        match s.kind {
            StmtKindV::Expr(e) => s_expr_stmt((f - 1) as nat, st, e, env),
            StmtKindV::If { cond, consequent, otherwise } => s_if(
                (f - 1) as nat,
                st,
                cond,
                consequent,
                otherwise,
                env,
            ),
            StmtKindV::While { cond, body } => s_while((f - 1) as nat, st, cond, body, env),
            StmtKindV::For { var, iter, body } => s_for((f - 1) as nat, st, var, iter, body, env),
            StmtKindV::Return(value) => s_return((f - 1) as nat, st, value, s.span, env),
            StmtKindV::Try { body, binding, handler } => s_try(
                (f - 1) as nat,
                st,
                body,
                binding,
                handler,
                env,
            ),
            StmtKindV::Throw(value) => s_throw_stmt((f - 1) as nat, st, value, s.span, env),
            StmtKindV::Block(block) => s_block((f - 1) as nat, st, block, env),
            _ => (st, Ok(Flow::Normal)),
        }
    }
}

/// What a statement does. Between statements is where the collector may run.
pub open spec fn s_exec(f: nat, st: St, s: StmtV, env: ObjId) -> Out<Flow>
    decreases f,
{
    if f == 0 {
        (st, Err(too_far(s.span)))
    } else {
        s_statement((f - 1) as nat, s_collect(st), s, env)
    }
}

proof fn lemma_for_view(s: Stmt)
    ensures
        s.kind matches StmtKind::For { var, iter, body } ==> stmt_v(s).kind == (StmtKindV::For {
            var: var@,
            iter: expr_v(iter),
            body: block_v(body),
        }),
{
    assert(stmt_v(s).kind == stmt_kind_v(s.kind));
}

proof fn lemma_for_statement(f: nat, st: St, s: StmtV, var: Seq<char>, iter: ExprV, body: BlockV, env: ObjId)
    requires
        s.kind == (StmtKindV::For { var, iter, body }),
    ensures
        s_statement(f + 1, st, s, env) == s_for(f, st, var, iter, body, env),
{
}

proof fn lemma_throw_view(s: Stmt)
    ensures
        s.kind matches StmtKind::Throw(value) ==> stmt_v(s).kind == StmtKindV::Throw(expr_v(value)),
        stmt_v(s).span == s.span,
{
    assert(stmt_v(s).kind == stmt_kind_v(s.kind));
}

proof fn lemma_throw_statement(f: nat, st: St, s: StmtV, value: ExprV, env: ObjId)
    requires
        s.kind == StmtKindV::Throw(value),
    ensures
        s_statement(f + 1, st, s, env) == s_throw_stmt(f, st, value, s.span, env),
{
}

impl Interp {
    fn let_stmt(
        &mut self,
        name: &str,
        name_span: Span,
        ty: &Option<TypeExpr>,
        value: &Option<Expr>,
        bind: Bind,
        env: ObjId,
        fuel: u64,
    ) -> (r: Result<Flow, QuinceError>)
        ensures
            (final(self)@, res(r)) == s_let(
                fuel as nat,
                old(self)@,
                name@,
                name_span,
                opt_type(*ty),
                opt_expr(*value),
                bind,
                env,
            ),
        decreases fuel,
    {
        if fuel == 0 {
            return Err(too_far_error(name_span));
        }
        let v = match self.initial(name, name_span, ty, value, env, fuel - 1) {
            Ok(v) => v,
            Err(e) => {
                return Err(e);
            },
        };
        let kept = match ty {
            Some(ty) => Some(Rc::new(self.substituted(ty))),
            None => None,
        };
        if bind.freezes() {
            self.heap.freeze(v);
        }
        self.heap.declare(env, name, v, bind, kept);
        Ok(Flow::Normal)
    }

    fn if_stmt(
        &mut self,
        cond: &Expr,
        consequent: &Block,
        otherwise: &Option<Box<Stmt>>,
        env: ObjId,
        fuel: u64,
    ) -> (r: Result<Flow, QuinceError>)
        ensures
            (final(self)@, res(r)) == s_if(
                fuel as nat,
                old(self)@,
                cond@,
                block_v(*consequent),
                opt_stmt(*otherwise),
                env,
            ),
        decreases fuel,
    {
        if fuel == 0 {
            return Err(too_far_error(cond.span));
        }
        let v = match self.eval(cond, env, fuel - 1) {
            Ok(v) => v,
            Err(e) => {
                return Err(e);
            },
        };
        let truthy = match self.truthy(v, fuel - 1) {
            Ok(b) => b,
            Err(e) => {
                return Err(e);
            },
        };
        if truthy {
            return self.block(consequent, env, fuel - 1);
        }
        match otherwise {
            Some(s) => self.exec(s, env, fuel - 1),
            None => Ok(Flow::Normal),
        }
    }

    fn try_stmt(&mut self, body: &Block, binding: &str, handler: &Block, env: ObjId, fuel: u64) -> (r:
        Result<Flow, QuinceError>)
        ensures
            (final(self)@, res(r)) == s_try(
                fuel as nat,
                old(self)@,
                block_v(*body),
                binding@,
                block_v(*handler),
                env,
            ),
        decreases fuel,
    {
        if fuel == 0 {
            return Err(too_far_error(body.span));
        }
        match self.block(body, env, fuel - 1) {
            Ok(flow) => Ok(flow),
            Err(e) => {
                if e.kind == ErrorKind::Budget {
                    return Err(e);
                }
                let caught = self.reify(&e);
                self.block_with(binding, caught, handler, env, fuel - 1)
            },
        }
    }

    fn throw_stmt(&mut self, value: &Expr, span: Span, env: ObjId, fuel: u64) -> (r: Result<
        Flow,
        QuinceError,
    >)
        ensures
            (final(self)@, res(r)) == s_throw_stmt(
                fuel as nat,
                old(self)@,
                value@,
                span,
                env,
            ),
        decreases fuel,
    {
        if fuel == 0 {
            return Err(too_far_error(span));
        }
        match self.eval(value, env, fuel - 1) {
            Ok(v) => Err(self.throw(v, span)),
            Err(e) => Err(e),
        }
    }

    fn return_stmt(&mut self, value: &Option<Expr>, span: Span, env: ObjId, fuel: u64) -> (r: Result<
        Flow,
        QuinceError,
    >)
        ensures
            (final(self)@, res(r)) == s_return(
                fuel as nat,
                old(self)@,
                opt_expr(*value),
                span,
                env,
            ),
        decreases fuel,
    {
        if fuel == 0 {
            return Err(too_far_error(span));
        }
        match value {
            None => Ok(Flow::Return(Value::Nil)),
            Some(e) => match self.eval(e, env, fuel - 1) {
                Ok(v) => Ok(Flow::Return(v)),
                Err(e) => Err(e),
            },
        }
    }

    fn expr_stmt(&mut self, e: &Expr, env: ObjId, fuel: u64) -> (r: Result<Flow, QuinceError>)
        ensures
            (final(self)@, res(r)) == s_expr_stmt(fuel as nat, old(self)@, e@, env),
        decreases fuel,
    {
        if fuel == 0 {
            return Err(too_far_error(e.span));
        }
        match self.eval(e, env, fuel - 1) {
            Ok(_) => Ok(Flow::Normal),
            Err(e) => Err(e),
        }
    }

    fn declare_let(&mut self, s: &Stmt, env: ObjId, fuel: u64) -> (r: Result<Flow, QuinceError>)
        requires
            fuel > 0,
            s.kind is Let,
        ensures
            (final(self)@, res(r)) == s_declaration(
                fuel as nat,
                old(self)@,
                stmt_kind_v(s.kind),
                s.span,
                env,
            ),
        decreases fuel, 0int,
    {
        let ghost f = (fuel - 1) as nat;
        let ghost goal = s_declaration(fuel as nat, self@, stmt_kind_v(s.kind), s.span, env);
        match &s.kind {
            StmtKind::Let { name, name_span, ty, value, bind, visibility } => {
                assert(stmt_kind_v(s.kind) == StmtKindV::Let { name: name@, name_span: *name_span, ty: opt_type(*ty), value: opt_expr(*value), bind: *bind, visibility: *visibility });
                assert(goal == s_let(f, self@, name@, *name_span, opt_type(*ty), opt_expr(*value), *bind, env));
                self.let_stmt(name.as_str(), *name_span, ty, value, *bind, env, fuel - 1)
            },
            _ => Ok(Flow::Normal),
        }
    }

    fn declare_function(&mut self, s: &Stmt, env: ObjId, fuel: u64) -> (r: Result<Flow, QuinceError>)
        requires
            fuel > 0,
            s.kind is Fn,
        ensures
            (final(self)@, res(r)) == s_declaration(
                fuel as nat,
                old(self)@,
                stmt_kind_v(s.kind),
                s.span,
                env,
            ),
        decreases fuel, 0int,
    {
        let ghost f = (fuel - 1) as nat;
        let ghost goal = s_declaration(fuel as nat, self@, stmt_kind_v(s.kind), s.span, env);
        match &s.kind {
            StmtKind::Fn(decl) => {
                assert(stmt_kind_v(s.kind) == StmtKindV::Fn(Box::new(fn_decl_v(**decl))));
                assert(goal == (s_declare_fn(self@, fn_decl_v(**decl), env), Ok::<Flow, ErrV>(Flow::Normal)));
                self.declare_fn(decl, env);
                Ok(Flow::Normal)
            },
            _ => Ok(Flow::Normal),
        }
    }

    fn declare_a_class(&mut self, s: &Stmt, env: ObjId, fuel: u64) -> (r: Result<Flow, QuinceError>)
        requires
            fuel > 0,
            s.kind is Class,
        ensures
            (final(self)@, res(r)) == s_declaration(
                fuel as nat,
                old(self)@,
                stmt_kind_v(s.kind),
                s.span,
                env,
            ),
        decreases fuel, 0int,
    {
        let ghost f = (fuel - 1) as nat;
        let ghost goal = s_declaration(fuel as nat, self@, stmt_kind_v(s.kind), s.span, env);
        match &s.kind {
            StmtKind::Class(decl) => {
                assert(stmt_kind_v(s.kind) == StmtKindV::Class(Box::new(class_decl_v(**decl))));
                assert(goal == went_on(s_declare_class(self@, class_decl_v(**decl), env)));
                match self.declare_class(decl, env) {
                    Ok(_) => Ok(Flow::Normal),
                    Err(e) => Err(e),
                }
            },
            _ => Ok(Flow::Normal),
        }
    }

    fn declare_extension(&mut self, s: &Stmt, env: ObjId, fuel: u64) -> (r: Result<Flow, QuinceError>)
        requires
            fuel > 0,
            s.kind is Extend,
        ensures
            (final(self)@, res(r)) == s_declaration(
                fuel as nat,
                old(self)@,
                stmt_kind_v(s.kind),
                s.span,
                env,
            ),
        decreases fuel, 0int,
    {
        let ghost f = (fuel - 1) as nat;
        let ghost goal = s_declaration(fuel as nat, self@, stmt_kind_v(s.kind), s.span, env);
        match &s.kind {
            StmtKind::Extend { target, target_span, methods } => {
                assert(stmt_kind_v(s.kind) == StmtKindV::Extend { target: target@, target_span: *target_span, methods: fn_decls_v(methods@) });
                assert(goal == went_on(s_extend(self@, target@, *target_span, fn_decls_v(methods@), env)));
                match self.extend(target.as_str(), *target_span, methods, env) {
                    Ok(_) => Ok(Flow::Normal),
                    Err(e) => Err(e),
                }
            },
            _ => Ok(Flow::Normal),
        }
    }

    fn declare_import(&mut self, s: &Stmt, env: ObjId, fuel: u64) -> (r: Result<Flow, QuinceError>)
        requires
            fuel > 0,
            s.kind is Import,
        ensures
            (final(self)@, res(r)) == s_declaration(
                fuel as nat,
                old(self)@,
                stmt_kind_v(s.kind),
                s.span,
                env,
            ),
        decreases fuel, 0int,
    {
        let ghost f = (fuel - 1) as nat;
        let ghost goal = s_declaration(fuel as nat, self@, stmt_kind_v(s.kind), s.span, env);
        match &s.kind {
            StmtKind::Import { module, module_span, names } => {
                assert(stmt_kind_v(s.kind) == StmtKindV::Import { module: module@, module_span: *module_span, names: opt_names(*names) });
                assert(goal == went_on(s_import(f, self@, module@, *module_span, opt_names(*names), env)));
                match self.import(module.as_str(), *module_span, names, env, fuel - 1) {
                    Ok(_) => Ok(Flow::Normal),
                    Err(e) => Err(e),
                }
            },
            _ => Ok(Flow::Normal),
        }
    }

    #[verifier::spinoff_prover]
    fn declaration(&mut self, s: &Stmt, env: ObjId, fuel: u64) -> (r: Result<Flow, QuinceError>)
        ensures
            (final(self)@, res(r)) == s_declaration(
                fuel as nat,
                old(self)@,
                stmt_kind_v(s.kind),
                s.span,
                env,
            ),
        decreases fuel, 1int,
    {
        if fuel == 0 {
            return Err(too_far_error(s.span));
        }
        proof {
            lemma_stmt_kind(s.kind);
        }
        match &s.kind {
            StmtKind::Let { name: _, name_span: _, ty: _, value: _, bind: _, visibility: _ } => self.declare_let(s, env, fuel),
            StmtKind::Fn(_) => self.declare_function(s, env, fuel),
            StmtKind::Class(_) => self.declare_a_class(s, env, fuel),
            StmtKind::Extend { target: _, target_span: _, methods: _ } => self.declare_extension(s, env, fuel),
            StmtKind::Import { module: _, module_span: _, names: _ } => self.declare_import(s, env, fuel),
            _ => Ok(Flow::Normal),
        }
    }

    fn run_expr(&mut self, s: &Stmt, env: ObjId, fuel: u64) -> (r: Result<Flow, QuinceError>)
        requires
            fuel > 0,
            s.kind is Expr,
        ensures
            (final(self)@, res(r)) == s_statement(fuel as nat, old(self)@, stmt_v(*s), env),
        decreases fuel, 0int,
    {
        let ghost f = (fuel - 1) as nat;
        let ghost goal = s_statement(fuel as nat, self@, stmt_v(*s), env);
        assert(stmt_v(*s).kind == stmt_kind_v(s.kind));
        match &s.kind {
            StmtKind::Expr(e) => {
                assert(stmt_v(*s).kind == StmtKindV::Expr(expr_v(*e)));
                assert(stmt_v(*s).span == s.span);
                assert(goal == s_expr_stmt(f, self@, expr_v(*e), env));
                self.expr_stmt(e, env, fuel - 1)
            },
            _ => Ok(Flow::Normal),
        }
    }

    fn run_if(&mut self, s: &Stmt, env: ObjId, fuel: u64) -> (r: Result<Flow, QuinceError>)
        requires
            fuel > 0,
            s.kind is If,
        ensures
            (final(self)@, res(r)) == s_statement(fuel as nat, old(self)@, stmt_v(*s), env),
        decreases fuel, 0int,
    {
        let ghost f = (fuel - 1) as nat;
        let ghost goal = s_statement(fuel as nat, self@, stmt_v(*s), env);
        assert(stmt_v(*s).kind == stmt_kind_v(s.kind));
        match &s.kind {
            StmtKind::If { cond, consequent, otherwise } => {
                assert(stmt_v(*s).kind == StmtKindV::If { cond: expr_v(*cond), consequent: block_v(*consequent), otherwise: opt_stmt(*otherwise) });
                assert(stmt_v(*s).span == s.span);
                assert(goal == s_if(f, self@, expr_v(*cond), block_v(*consequent), opt_stmt(*otherwise), env));
                self.if_stmt(cond, consequent, otherwise, env, fuel - 1)
            },
            _ => Ok(Flow::Normal),
        }
    }

    fn run_while(&mut self, s: &Stmt, env: ObjId, fuel: u64) -> (r: Result<Flow, QuinceError>)
        requires
            fuel > 0,
            s.kind is While,
        ensures
            (final(self)@, res(r)) == s_statement(fuel as nat, old(self)@, stmt_v(*s), env),
        decreases fuel, 0int,
    {
        let ghost f = (fuel - 1) as nat;
        let ghost goal = s_statement(fuel as nat, self@, stmt_v(*s), env);
        assert(stmt_v(*s).kind == stmt_kind_v(s.kind));
        match &s.kind {
            StmtKind::While { cond, body } => {
                assert(stmt_v(*s).kind == StmtKindV::While { cond: expr_v(*cond), body: block_v(*body) });
                assert(stmt_v(*s).span == s.span);
                assert(goal == s_while(f, self@, expr_v(*cond), block_v(*body), env));
                self.while_loop(cond, body, env, fuel - 1)
            },
            _ => Ok(Flow::Normal),
        }
    }

    fn run_for(&mut self, s: &Stmt, env: ObjId, fuel: u64) -> (r: Result<Flow, QuinceError>)
        requires
            fuel > 0,
            s.kind is For,
        ensures
            (final(self)@, res(r)) == s_statement(fuel as nat, old(self)@, stmt_v(*s), env),
        decreases fuel, 0int,
    {
        let ghost st = self@;
        match &s.kind {
            StmtKind::For { var, iter, body } => {
                proof {
                    lemma_for_view(*s);
                    lemma_for_statement(
                        (fuel - 1) as nat,
                        st,
                        stmt_v(*s),
                        var@,
                        expr_v(*iter),
                        block_v(*body),
                        env,
                    );
                }
                self.for_loop(var.as_str(), iter, body, env, fuel - 1)
            },
            _ => Ok(Flow::Normal),
        }
    }

    fn run_return(&mut self, s: &Stmt, env: ObjId, fuel: u64) -> (r: Result<Flow, QuinceError>)
        requires
            fuel > 0,
            s.kind is Return,
        ensures
            (final(self)@, res(r)) == s_statement(fuel as nat, old(self)@, stmt_v(*s), env),
        decreases fuel, 0int,
    {
        let ghost f = (fuel - 1) as nat;
        let ghost goal = s_statement(fuel as nat, self@, stmt_v(*s), env);
        assert(stmt_v(*s).kind == stmt_kind_v(s.kind));
        match &s.kind {
            StmtKind::Return(value) => {
                assert(stmt_v(*s).kind == StmtKindV::Return(opt_expr(*value)));
                assert(stmt_v(*s).span == s.span);
                assert(goal == s_return(f, self@, opt_expr(*value), s.span, env));
                self.return_stmt(value, s.span, env, fuel - 1)
            },
            _ => Ok(Flow::Normal),
        }
    }

    fn run_try(&mut self, s: &Stmt, env: ObjId, fuel: u64) -> (r: Result<Flow, QuinceError>)
        requires
            fuel > 0,
            s.kind is Try,
        ensures
            (final(self)@, res(r)) == s_statement(fuel as nat, old(self)@, stmt_v(*s), env),
        decreases fuel, 0int,
    {
        let ghost f = (fuel - 1) as nat;
        let ghost goal = s_statement(fuel as nat, self@, stmt_v(*s), env);
        assert(stmt_v(*s).kind == stmt_kind_v(s.kind));
        match &s.kind {
            StmtKind::Try { body, binding, handler } => {
                assert(stmt_v(*s).kind == StmtKindV::Try { body: block_v(*body), binding: binding@, handler: block_v(*handler) });
                assert(stmt_v(*s).span == s.span);
                assert(goal == s_try(f, self@, block_v(*body), binding@, block_v(*handler), env));
                self.try_stmt(body, binding.as_str(), handler, env, fuel - 1)
            },
            _ => Ok(Flow::Normal),
        }
    }

    #[verifier::spinoff_prover]
    fn run_throw(&mut self, s: &Stmt, env: ObjId, fuel: u64) -> (r: Result<Flow, QuinceError>)
        requires
            fuel > 0,
            s.kind is Throw,
        ensures
            (final(self)@, res(r)) == s_statement(fuel as nat, old(self)@, stmt_v(*s), env),
        decreases fuel, 0int,
    {
        let ghost st = self@;
        match &s.kind {
            StmtKind::Throw(value) => {
                proof {
                    lemma_throw_view(*s);
                    lemma_throw_statement((fuel - 1) as nat, st, stmt_v(*s), expr_v(*value), env);
                }
                self.throw_stmt(value, s.span, env, fuel - 1)
            },
            _ => Ok(Flow::Normal),
        }
    }

    fn run_block(&mut self, s: &Stmt, env: ObjId, fuel: u64) -> (r: Result<Flow, QuinceError>)
        requires
            fuel > 0,
            s.kind is Block,
        ensures
            (final(self)@, res(r)) == s_statement(fuel as nat, old(self)@, stmt_v(*s), env),
        decreases fuel, 0int,
    {
        let ghost f = (fuel - 1) as nat;
        let ghost goal = s_statement(fuel as nat, self@, stmt_v(*s), env);
        assert(stmt_v(*s).kind == stmt_kind_v(s.kind));
        match &s.kind {
            StmtKind::Block(block) => {
                assert(stmt_v(*s).kind == StmtKindV::Block(block_v(*block)));
                assert(stmt_v(*s).span == s.span);
                assert(goal == s_block(f, self@, block_v(*block), env));
                self.block(block, env, fuel - 1)
            },
            _ => Ok(Flow::Normal),
        }
    }

    fn run_declaration(&mut self, s: &Stmt, env: ObjId, fuel: u64) -> (r: Result<Flow, QuinceError>)
        requires
            fuel > 0,
            s.kind is Let || s.kind is Fn || s.kind is Class || s.kind is Extend || s.kind is Import,
        ensures
            (final(self)@, res(r)) == s_statement(fuel as nat, old(self)@, stmt_v(*s), env),
        decreases fuel, 0int,
    {
        assert(stmt_v(*s).kind == stmt_kind_v(s.kind));
        assert(is_declaration(stmt_v(*s).kind));
        assert(s_statement(fuel as nat, self@, stmt_v(*s), env) == s_declaration(
            (fuel - 1) as nat,
            self@,
            stmt_kind_v(s.kind),
            s.span,
            env,
        ));
        self.declaration(s, env, fuel - 1)
    }

    fn statement(&mut self, s: &Stmt, env: ObjId, fuel: u64) -> (r: Result<Flow, QuinceError>)
        ensures
            (final(self)@, res(r)) == s_statement(fuel as nat, old(self)@, stmt_v(*s), env),
        decreases fuel, 1int,
    {
        if fuel == 0 {
            return Err(too_far_error(s.span));
        }
        match &s.kind {
            StmtKind::Expr(_) => self.run_expr(s, env, fuel),
            StmtKind::If { cond: _, consequent: _, otherwise: _ } => self.run_if(s, env, fuel),
            StmtKind::While { cond: _, body: _ } => self.run_while(s, env, fuel),
            StmtKind::For { var: _, iter: _, body: _ } => self.run_for(s, env, fuel),
            StmtKind::Return(_) => self.run_return(s, env, fuel),
            StmtKind::Try { body: _, binding: _, handler: _ } => self.run_try(s, env, fuel),
            StmtKind::Throw(_) => self.run_throw(s, env, fuel),
            StmtKind::Block(_) => self.run_block(s, env, fuel),
            _ => self.run_declaration(s, env, fuel),
        }
    }

    /// Runs a statement.
    pub(crate) fn exec(&mut self, s: &Stmt, env: ObjId, fuel: u64) -> (r: Result<Flow, QuinceError>)
        ensures
            (final(self)@, res(r)) == s_exec(fuel as nat, old(self)@, stmt_v(*s), env),
        decreases fuel,
    {
        if fuel == 0 {
            return Err(too_far_error(s.span));
        }
        self.collect_if_needed();
        self.statement(s, env, fuel - 1)
    }
}

} // verus!
