//! What a host does with the interpreter.

use crate::error::{res, QuinceError};
use crate::interp::error::{too_far, too_far_error};
use crate::interp::eval::s_eval;
use crate::interp::exec::s_exec;
use crate::interp::module::s_program;
use crate::interp::ops::{s_binary, s_equals, s_is_truthy};
use crate::interp::error::{plain_type_error, Spans};
use crate::error::{err, ErrorKind};
use crate::interp::pretty::s_pretty;
use crate::interp::show::{s_display, s_repr, shown_text, Ask};
use crate::interp::state::{
    held, released, s_collect, with_heap, FUEL, Interp, Out, SourceFile, SourceFileV, St,
};
use crate::runtime::class::{base, type_text};
use crate::runtime::heap::HeapV;
use crate::runtime::object::{vars_v, ObjV, Object, Scope, ScopeV, VarV};
use crate::interp::sound::{born, keeps, lemma_declared_keeps, lemma_keeps_itself, sound};
use crate::interp::steady::{law_an_entry_keeps_the_heap_sound, law_running_keeps_the_heap_sound};
use crate::runtime::value::all_builtins;
use crate::runtime::scope::{
    declared, law_a_declared_name_is_found, law_declaring_a_name_keeps_names_distinct,
    law_declaring_a_name_leaves_the_others, lemma_var_place, names_distinct, var_of, var_place,
};
use crate::runtime::value::{ObjId, Value};
use crate::syntax::ast::{
    expr_v, stmt_kind_v, stmt_v, stmts_v, BinaryOp, Bind, Stmt, StmtKind, StmtKindV, StmtV,
};
use crate::syntax::token::Span;
use crate::text::{byte_len, cat3, chars_of, offset, string_of};
use vstd::prelude::*;

verus! {

// -- running --------------------------------------------------------------------------------

/// One statement at a prompt: an expression answers with its value.
pub open spec fn s_prompted(f: nat, st: St, s: StmtV, env: ObjId) -> Out<Option<Value>> {
    match s.kind {
        StmtKindV::Expr(e) => match s_eval(f, s_collect(st), e, env) {
            (st1, Ok(v)) => (st1, Ok(Some(v))),
            (st1, Err(e)) => (st1, Err(e)),
        },
        _ => match s_exec(f, st, s, env) {
            (st1, Ok(_)) => (st1, Ok(None)),
            (st1, Err(e)) => (st1, Err(e)),
        },
    }
}

pub open spec fn answer(v: Option<Value>) -> Seq<Value> {
    match v {
        Some(v) => seq![v],
        None => Seq::empty(),
    }
}

/// The statements of an entry at a prompt from `i` on, and the value of the last of them
/// where it is an expression. Each answer is held until the next one is there.
pub open spec fn s_entry(
    f: nat,
    st: St,
    program: Seq<StmtV>,
    env: ObjId,
    mark: int,
    i: int,
    last: Option<Value>,
) -> Out<Option<Value>>
    decreases f,
{
    if i < 0 || i >= program.len() {
        (released(st, mark), Ok(last))
    } else if f == 0 {
        (released(st, mark), Err(too_far(program[i].span)))
    } else {
        match s_prompted((f - 1) as nat, st, program[i], env) {
            (st1, Err(e)) => (released(st1, mark), Err(e)),
            (st1, Ok(v)) => s_entry(
                (f - 1) as nat,
                held(released(st1, mark), answer(v)),
                program,
                env,
                mark,
                i + 1,
                v,
            ),
        }
    }
}

impl Interp {
    /// Runs a program.
    pub fn run(&mut self, program: &Vec<Stmt>) -> (r: Result<(), QuinceError>)
        ensures
            (final(self)@, res(r)) == s_program(
                FUEL as nat,
                old(self)@,
                stmts_v(program@),
                old(self)@.globals,
                0,
            ),
            sound(old(self)@.heap, old(self)@.globals) ==> sound(final(self)@.heap, final(self)@.globals),
    {
        let globals: ObjId = self.globals;
        let r = self.program(program, globals, FUEL);
        let _places: usize = self.heap.cells.len();
        proof {
            if sound(old(self)@.heap, old(self)@.globals) {
                law_running_keeps_the_heap_sound(
                    FUEL as nat,
                    old(self)@,
                    stmts_v(program@),
                    old(self)@.globals,
                );
            }
        }
        r
    }

    fn prompted(&mut self, s: &Stmt, env: ObjId, fuel: u64) -> (r: Result<
        Option<Value>,
        QuinceError,
    >)
        ensures
            (final(self)@, res(r)) == s_prompted(fuel as nat, old(self)@, stmt_v(*s), env),
    {
        assert(stmt_v(*s).kind == stmt_kind_v(s.kind));
        match &s.kind {
            StmtKind::Expr(e) => {
                assert(stmt_v(*s).kind == StmtKindV::Expr(expr_v(*e)));
                self.collect_if_needed();
                match self.eval(e, env, fuel) {
                    Ok(v) => Ok(Some(v)),
                    Err(e) => Err(e),
                }
            },
            _ => {
                assert(!(stmt_v(*s).kind is Expr));
                match self.exec(s, env, fuel) {
                    Ok(_) => Ok(None),
                    Err(e) => Err(e),
                }
            },
        }
    }

    fn entry(&mut self, program: &Vec<Stmt>) -> (r: Result<Option<Value>, QuinceError>)
        ensures
            (final(self)@, res(r)) == s_entry(
                FUEL as nat,
                old(self)@,
                stmts_v(program@),
                old(self)@.globals,
                old(self)@.temps.len() as int,
                0,
                None,
            ),
    {
        let env: ObjId = self.globals;
        let mark: usize = self.temps.len();
        let ghost all = stmts_v(program@);
        let ghost goal = s_entry(FUEL as nat, self@, all, env, mark as int, 0, None);
        let mut last: Option<Value> = None;
        let mut left: u64 = FUEL;
        let mut i: usize = 0;
        while i < program.len()
            invariant
                i <= program@.len(),
                all == stmts_v(program@),
                mark == old(self)@.temps.len(),
                env == old(self)@.globals,
                goal == s_entry(FUEL as nat, old(self)@, all, env, mark as int, 0, None),
                goal == s_entry(left as nat, self@, all, env, mark as int, i as int, last),
            decreases program@.len() - i,
        {
            if left == 0 {
                self.release(mark);
                return Err(too_far_error(program[i].span));
            }
            left -= 1;
            let v = match self.prompted(&program[i], env, left) {
                Ok(v) => v,
                Err(e) => {
                    self.release(mark);
                    return Err(e);
                },
            };
            self.release(mark);
            let mut kept: Vec<Value> = Vec::new();
            if let Some(v) = v {
                kept.push(v);
            }
            assert(kept@ =~= answer(v));
            self.hold(&kept);
            last = v;
            i += 1;
        }
        self.release(mark);
        Ok(last)
    }

    /// Runs an entry at a prompt and answers with the value of its last statement, where
    /// that is an expression.
    pub fn run_repl(&mut self, program: &Vec<Stmt>) -> (r: Result<Option<Value>, QuinceError>)
        ensures
            (final(self)@, res(r)) == s_entry(
                FUEL as nat,
                old(self)@,
                stmts_v(program@),
                old(self)@.globals,
                old(self)@.temps.len() as int,
                0,
                None,
            ),
            sound(old(self)@.heap, old(self)@.globals) ==> sound(final(self)@.heap, final(self)@.globals),
    {
        let r = self.entry(program);
        let _places: usize = self.heap.cells.len();
        proof {
            if sound(old(self)@.heap, old(self)@.globals) {
                law_an_entry_keeps_the_heap_sound(
                    FUEL as nat,
                    old(self)@,
                    stmts_v(program@),
                    old(self)@.globals,
                );
            }
        }
        r
    }
}

// -- the program's names ---------------------------------------------------------------------------

/// The variables among the first `n` that have a value, by name.
pub open spec fn bound_names(vars: Seq<VarV>, n: int) -> Seq<(Seq<char>, Value)>
    decreases n,
{
    if n <= 0 || n > vars.len() {
        Seq::empty()
    } else {
        match vars[n - 1].value {
            Some(v) => bound_names(vars, n - 1).push((vars[n - 1].name, v)),
            None => bound_names(vars, n - 1),
        }
    }
}

pub open spec fn named_pairs(s: Seq<(String, Value)>) -> Seq<(Seq<char>, Value)> {
    Seq::new(s.len(), |i: int| (s[i].0@, s[i].1))
}

/// The scope with the file it was read from noted.
pub open spec fn path_set(h: HeapV, id: ObjId, path: Seq<char>) -> HeapV {
    match h.obj(id) {
        Some(ObjV::Scope(s)) => h.with_object(
            id,
            ObjV::Scope(ScopeV { path: Some(path), ..s }),
        ),
        _ => h,
    }
}

impl Interp {
    /// The program's names and their values, in the order they were declared.
    pub fn get_globals(&self) -> (r: Vec<(String, Value)>)
        ensures
            named_pairs(r@) == bound_names(
                self@.heap.scope(self@.globals).vars,
                self@.heap.scope(self@.globals).vars.len() as int,
            ),
    {
        let mut r: Vec<(String, Value)> = Vec::new();
        assert(named_pairs(r@) =~= Seq::empty());
        match self.heap.object(self.globals) {
            Some(Object::Scope(s)) => {
                let ghost all = vars_v(s.vars@);
                let mut i: usize = 0;
                while i < s.vars.len()
                    invariant
                        i <= s.vars@.len(),
                        all == vars_v(s.vars@),
                        named_pairs(r@) == bound_names(all, i as int),
                    decreases s.vars@.len() - i,
                {
                    if let Some(v) = s.vars[i].value {
                        let ghost before = named_pairs(r@);
                        r.push((s.vars[i].name.clone(), v));
                        assert(named_pairs(r@) =~= before.push((all[i as int].name, v)));
                    }
                    i += 1;
                }
            },
            _ => {},
        }
        r
    }

    /// Notes the file the program was read from, which its imports stand beside.
    pub fn set_path(&mut self, path: String)
        ensures
            final(self)@ == with_heap(
                old(self)@,
                path_set(old(self)@.heap, old(self)@.globals, path@),
            ),
            sound(old(self)@.heap, old(self)@.globals) ==> sound(final(self)@.heap, final(self)@.globals),
    {
        let ghost before = self@;
        let ghost model = path@;
        let id: ObjId = self.globals;
        if id < self.heap.cells.len() {
            match &mut self.heap.cells[id] {
                Some(cell) => match &mut cell.object {
                    Object::Scope(s) => {
                        s.path = Some(path);
                    },
                    _ => {},
                },
                None => {},
            }
        }
        assert(self@.heap.cells =~= path_set(before.heap, id, model).cells);
        proof {
            lemma_path_keeps(before.heap, id, model, id);
        }
    }

    /// Binds a name of the program.
    pub fn set_global(&mut self, name: &str, value: Value)
        ensures
            final(self)@ == with_heap(
                old(self)@,
                declared(old(self)@.heap, old(self)@.globals, name@, value, Bind::Let, None),
            ),
            sound(old(self)@.heap, old(self)@.globals) ==> sound(final(self)@.heap, final(self)@.globals),
    {
        let id: ObjId = self.globals;
        self.heap.declare(id, name, value, Bind::Let, None);
        let _places: usize = self.heap.cells.len();
        proof {
            law_binding_a_name_keeps_the_heap_sound(old(self)@, name@, value);
        }
    }

    /// Makes a file importable.
    pub fn add_file(&mut self, path: String, text: String)
        ensures
            final(self)@ == (St {
                files: old(self)@.files.push(SourceFileV { path: path@, text: text@ }),
                ..old(self)@
            }),
    {
        let ghost before = self@.files;
        let ghost new = SourceFileV { path: path@, text: text@ };
        self.files.push(SourceFile { path, text });
        assert(self@.files =~= before.push(new));
    }
}

// -- input -----------------------------------------------------------------------------------------

/// Where the first line of a text from `i` on ends, its line break included.
pub open spec fn line_end(s: Seq<char>, i: int) -> int
    decreases s.len() - i,
{
    if i < 0 || i >= s.len() {
        s.len() as int
    } else if s[i] == '\n' {
        i + 1
    } else {
        line_end(s, i + 1)
    }
}

impl Interp {
    /// Reads a line of input, its line break included, and answers with how many bytes
    /// it took: none at the end of the input.
    pub fn read_line(&mut self, into: &mut String) -> (r: usize)
        ensures
            ({
                let k = line_end(old(self)@.input, 0);
                &&& final(into)@ == old(into)@ + old(self)@.input.take(k)
                &&& final(self)@ == (St { input: old(self)@.input.skip(k), ..old(self)@ })
                &&& r == offset(old(self)@.input, k)
            }),
    {
        let ghost start = self@;
        let chars = chars_of(self.input.as_str());
        let mut i: usize = 0;
        let len: usize = chars.len();
        while i < len && chars[i] != '\n'
            invariant
                i <= len,
                len == chars@.len(),
                chars@ == self@.input,
                line_end(chars@, 0) == line_end(chars@, i as int),
            decreases len - i,
        {
            i += 1;
        }
        let k: usize = if i < len {
            i + 1
        } else {
            len
        };
        assert(k == line_end(chars@, 0));
        let line = string_of(&chars, 0, k);
        assert(line@ =~= chars@.take(k as int));
        let bytes = byte_len(line.as_str());
        proof {
            crate::text::lemma_offset_prefix(chars@, line@, k as int);
        }
        into.append(line.as_str());
        let rest = string_of(&chars, k, len);
        assert(rest@ =~= chars@.skip(k as int));
        self.input = rest;
        bytes
    }
}

// -- random numbers ---------------------------------------------------------------------------------

/// A number modulo two to the 64th.
pub open spec fn wrapped(n: int) -> u64 {
    (n % 0x1_0000_0000_0000_0000) as u64
}

/// The state random numbers are drawn from, one draw later.
pub open spec fn next_seed(seed: u64) -> u64 {
    wrapped(seed + 0x9e37_79b9_7f4a_7c15)
}

/// The number drawn from a state: the state's bits, mixed.
pub open spec fn drawn(seed: u64) -> u64 {
    let a = wrapped((seed ^ (seed >> 30)) * 0xbf58_476d_1ce4_e5b9);
    let b = wrapped((a ^ (a >> 27)) * 0x94d0_49bb_1331_11eb);
    b ^ (b >> 31)
}

impl Interp {
    /// Draws a random number. The same seed draws the same numbers.
    pub fn next_random(&mut self) -> (r: u64)
        ensures
            final(self)@ == (St { rng: next_seed(old(self)@.rng), ..old(self)@ }),
            r == drawn(next_seed(old(self)@.rng)),
    {
        let seed: u64 = self.rng.wrapping_add(0x9e37_79b9_7f4a_7c15);
        self.rng = seed;
        let a: u64 = (seed ^ (seed >> 30)).wrapping_mul(0xbf58_476d_1ce4_e5b9);
        let b: u64 = (a ^ (a >> 27)).wrapping_mul(0x94d0_49bb_1331_11eb);
        b ^ (b >> 31)
    }

    /// Sets what random numbers are drawn from.
    pub fn set_seed(&mut self, seed: u64)
        ensures
            final(self)@ == (St { rng: seed, ..old(self)@ }),
    {
        self.rng = seed;
    }
}

// -- values ------------------------------------------------------------------------------------------

impl Interp {
    /// Whether a value counts as true.
    pub fn is_truthy(&mut self, value: &Value) -> (r: Result<bool, QuinceError>)
        ensures
            (final(self)@, res(r)) == s_is_truthy(FUEL as nat, old(self)@, *value),
    {
        self.truthy(*value, FUEL)
    }

    /// Whether two values are equal.
    pub fn equals(&mut self, lhs: &Value, rhs: &Value) -> (r: Result<bool, QuinceError>)
        ensures
            (final(self)@, res(r)) == s_equals(FUEL as nat, old(self)@, *lhs, *rhs),
    {
        self.equal(*lhs, *rhs, FUEL)
    }

    /// How a value displays, without colour.
    pub fn display(&mut self, value: &Value, ask: Ask) -> (r: Result<String, QuinceError>)
        ensures
            (final(self)@, shown_text(r)) == s_display(
                FUEL as nat,
                old(self)@,
                *value,
                false,
                ask,
            ),
    {
        self.display_styled(value, false, ask)
    }

    /// How a value displays on its own.
    pub fn display_styled(&mut self, value: &Value, color: bool, ask: Ask) -> (r: Result<
        String,
        QuinceError,
    >)
        ensures
            (final(self)@, shown_text(r)) == s_display(
                FUEL as nat,
                old(self)@,
                *value,
                color,
                ask,
            ),
    {
        self.displayed(*value, color, ask, FUEL)
    }

    /// How a value displays inside another.
    pub fn repr_styled(&mut self, value: &Value, color: bool, ask: Ask) -> (r: Result<
        String,
        QuinceError,
    >)
        ensures
            (final(self)@, shown_text(r)) == s_repr(
                FUEL as nat,
                old(self)@,
                *value,
                color,
                ask,
            ),
    {
        self.repr(*value, color, ask, FUEL)
    }

    /// A value as a prompt shows it: laid out over several lines where one is too wide.
    pub fn display_pretty(&mut self, value: &Value, color: bool, ask: Ask) -> (r: Result<
        String,
        QuinceError,
    >)
        ensures
            (final(self)@, shown_text(r)) == s_pretty(
                FUEL as nat,
                old(self)@,
                *value,
                color,
                ask,
            ),
    {
        self.pretty(*value, color, ask, FUEL)
    }
}

// -- ordering ------------------------------------------------------------------------------------------

/// Whether one value comes before another, as `<` answers it.
pub open spec fn s_less_than(f: nat, st: St, lhs: Value, rhs: Value, span: Span) -> Out<bool> {
    match s_binary(f, st, BinaryOp::Lt, lhs, rhs, Spans { lhs: span, rhs: span, whole: span }) {
        (st1, Err(e)) => (st1, Err(e)),
        (st1, Ok(v)) => match base(st1.heap, v) {
            Value::Bool(b) => (st1, Ok(b)),
            got => (
                st1,
                Err(
                    err(
                        ErrorKind::Type,
                        "sorting compared two values and got "@ + type_text(st1.heap, got)
                            + " rather than a bool"@,
                        span,
                    ),
                ),
            ),
        },
    }
}

impl Interp {
    /// Whether one value comes before another, as `<` answers it: what sorting asks.
    pub fn less_than(&mut self, lhs: &Value, rhs: &Value, span: Span) -> (r: Result<
        bool,
        QuinceError,
    >)
        ensures
            (final(self)@, res(r)) == s_less_than(FUEL as nat, old(self)@, *lhs, *rhs, span),
    {
        let spans = Spans { lhs: span, rhs: span, whole: span };
        let v = match self.binary(BinaryOp::Lt, *lhs, *rhs, spans, FUEL) {
            Ok(v) => v,
            Err(e) => {
                return Err(e);
            },
        };
        match self.heap.base(v) {
            Value::Bool(b) => Ok(b),
            got => {
                let kind = self.heap.type_text(got);
                Err(
                    plain_type_error(
                        cat3(
                            "sorting compared two values and got ",
                            kind.as_str(),
                            " rather than a bool",
                        ),
                        span,
                    ),
                )
            },
        }
    }
}

// -- laws -------------------------------------------------------------------------------------------------

/// Reading a line takes it off the front of the input, and loses nothing.
pub proof fn law_a_line_read_and_the_rest_are_the_input(input: Seq<char>)
    ensures
        0 <= line_end(input, 0) <= input.len(),
        input.take(line_end(input, 0)) + input.skip(line_end(input, 0)) == input,
{
    lemma_line_end(input, 0);
    assert(input.take(line_end(input, 0)) + input.skip(line_end(input, 0)) =~= input);
}

proof fn lemma_line_end(s: Seq<char>, i: int)
    requires
        0 <= i <= s.len(),
    ensures
        i <= line_end(s, i) <= s.len(),
    decreases s.len() - i,
{
    if i < s.len() && s[i] != '\n' {
        lemma_line_end(s, i + 1);
    }
}

/// What is listed of variables: those that have a value.
proof fn lemma_listed(vars: Seq<VarV>, n: int, pair: (Seq<char>, Value))
    requires
        0 <= n <= vars.len(),
    ensures
        bound_names(vars, n).contains(pair) <==> exists|k: int|
            0 <= k < n && (#[trigger] vars[k]).name == pair.0 && vars[k].value == Some(pair.1),
    decreases n,
{
    if n > 0 {
        lemma_listed(vars, n - 1, pair);
        let before = bound_names(vars, n - 1);
        let after = bound_names(vars, n);
        if before.contains(pair) {
            let i = before.index_of(pair);
            assert(after[i] == pair);
        }
        if after.contains(pair) {
            let i = after.index_of(pair);
            if i < before.len() {
                assert(before[i] == pair);
            } else {
                assert(vars[n - 1].name == pair.0);
            }
        }
        if vars[n - 1].name == pair.0 && vars[n - 1].value == Some(pair.1) {
            assert(after[before.len() as int] == pair);
        }
    }
}

proof fn lemma_bound_names(vars: Seq<VarV>, n: int)
    requires
        0 <= n <= vars.len(),
        names_distinct(vars),
    ensures
        forall|i: int, j: int|
            0 <= i < j < bound_names(vars, n).len() ==> (#[trigger] bound_names(vars, n)[i]).0 != (
            #[trigger] bound_names(vars, n)[j]).0,
        forall|i: int|
            0 <= i < bound_names(vars, n).len() ==> exists|k: int|
                0 <= k < n && (#[trigger] vars[k]).name == (#[trigger] bound_names(vars, n)[i]).0,
    decreases n,
{
    if n > 0 {
        lemma_bound_names(vars, n - 1);
        let before = bound_names(vars, n - 1);
        let after = bound_names(vars, n);
        assert forall|i: int| 0 <= i < after.len() implies exists|k: int|
            0 <= k < n && (#[trigger] vars[k]).name == (#[trigger] after[i]).0 by {
            if i < before.len() {
                assert(after[i] == before[i]);
                let k = choose|k: int| 0 <= k < n - 1 && (#[trigger] vars[k]).name == before[i].0;
                assert(vars[k].name == after[i].0);
            } else {
                assert(vars[n - 1].name == after[i].0);
            }
        }
        assert forall|i: int, j: int| 0 <= i < j < after.len() implies (#[trigger] after[i]).0 != (
        #[trigger] after[j]).0 by {
            assert(after[i] == before[i]);
            if j < before.len() {
                assert(after[j] == before[j]);
            } else {
                let k = choose|k: int| 0 <= k < n - 1 && (#[trigger] vars[k]).name == before[i].0;
                assert(vars[k].name != vars[n - 1].name);
            }
        }
    }
}

/// The names of a program with their values.
pub open spec fn listed(st: St) -> Seq<(Seq<char>, Value)> {
    bound_names(
        st.heap.scope(st.globals).vars,
        st.heap.scope(st.globals).vars.len() as int,
    )
}

/// A state once a name of the program is bound.
pub open spec fn global_set(st: St, name: Seq<char>, value: Value) -> St {
    with_heap(st, declared(st.heap, st.globals, name, value, Bind::Let, None))
}

/// Binding a name of a program lists it with that value, lists no name twice, and lists every
/// other name as before.
pub proof fn law_a_bound_name_is_listed_once_beside_the_others(st: St, name: Seq<char>, value: Value)
    requires
        sound(st.heap, st.globals),
    ensures
        ({
            let before = listed(st);
            let after = listed(global_set(st, name, value));
            &&& after.contains((name, value))
            &&& forall|i: int, j: int|
                0 <= i < j < after.len() ==> (#[trigger] after[i]).0 != (#[trigger] after[j]).0
            &&& forall|pair: (Seq<char>, Value)|
                pair.0 != name ==> (#[trigger] after.contains(pair) <==> before.contains(pair))
        }),
{
    law_declaring_a_name_keeps_names_distinct(
        st.heap,
        st.globals,
        name,
        value,
        Bind::Let,
        None,
        st.globals,
    );
    let old_vars = st.heap.scope(st.globals).vars;
    let vars = global_set(st, name, value).heap.scope(st.globals).vars;
    lemma_bound_names(vars, vars.len() as int);
    lemma_var_place(old_vars, name, 0);
    let at = match var_place(old_vars, name, 0) {
        Some(i) => i,
        None => old_vars.len() as int,
    };
    assert(vars[at].name == name && vars[at].value == Some(value));
    lemma_listed(vars, vars.len() as int, (name, value));
    let after = listed(global_set(st, name, value));
    let before = listed(st);
    assert forall|pair: (Seq<char>, Value)| pair.0 != name implies (#[trigger] after.contains(pair)
        <==> before.contains(pair)) by {
        lemma_listed(vars, vars.len() as int, pair);
        lemma_listed(old_vars, old_vars.len() as int, pair);
        if after.contains(pair) {
            let k = choose|k: int|
                0 <= k < vars.len() && (#[trigger] vars[k]).name == pair.0 && vars[k].value == Some(
                    pair.1,
                );
            assert(old_vars[k].name == pair.0);
        }
        if before.contains(pair) {
            let k = choose|k: int|
                0 <= k < old_vars.len() && (#[trigger] old_vars[k]).name == pair.0 && old_vars[k].value
                    == Some(pair.1);
            assert(vars[k].name == pair.0);
        }
    }
}

/// Binding a name of a program keeps its heap sound.
pub proof fn law_binding_a_name_keeps_the_heap_sound(st: St, name: Seq<char>, value: Value)
    ensures
        sound(st.heap, st.globals) && st.heap.cells.len() <= usize::MAX ==> sound(
            global_set(st, name, value).heap,
            st.globals,
        ),
{
    reveal(keeps);
    lemma_keeps_itself(st.heap, st.globals);
    lemma_declared_keeps(st.heap, st.heap, st.globals, name, value, Bind::Let, None, st.globals);
}

proof fn lemma_path_keeps(h: HeapV, id: ObjId, path: Seq<char>, globals: ObjId)
    ensures
        sound(h, globals) ==> sound(path_set(h, id, path), globals),
{
    let next = path_set(h, id, path);
    if sound(h, globals) {
        assert forall|i: int| 0 <= i < next.free.len() implies #[trigger] next.free[i] < next.cells.len()
            && next.cells[next.free[i] as int] is None by {
            assert(h.free[i] < h.cells.len());
        }
        assert forall|i: int| 0 <= i < next.builtins.len() implies #[trigger] born(
            next,
            next.builtins[i],
            all_builtins()[i],
        ) by {
            assert(born(h, h.builtins[i], all_builtins()[i]));
        }
    }
}

/// Binding a name of a program gives it that value and leaves every other name as it was.
pub proof fn law_binding_a_name_leaves_the_others(st: St, name: Seq<char>, value: Value, other: Seq<char>)
    requires
        sound(st.heap, st.globals),
    ensures
        ({
            let h = declared(st.heap, st.globals, name, value, Bind::Let, None);
            &&& var_of(h, st.globals, name) is Some
            &&& var_of(h, st.globals, name)->0.value == Some(value)
            &&& other != name ==> var_of(h, st.globals, other) == var_of(st.heap, st.globals, other)
        }),
{
    law_a_declared_name_is_found(st.heap, st.globals, name, value, Bind::Let, None);
    if other != name {
        law_declaring_a_name_leaves_the_others(
            st.heap,
            st.globals,
            name,
            value,
            Bind::Let,
            None,
            st.globals,
            other,
        );
    }
}

} // verus!
