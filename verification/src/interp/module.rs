//! Importing: a file is loaded once, run as a module of its own, and its exported names
//! reached from there.

use crate::compiled;
use crate::error::{in_module_of, res, ErrV, ErrorKind, QuinceError};
use crate::interp::error::{too_far, too_far_error};
use crate::interp::exec::s_exec;
use crate::interp::files::{
    file_name, file_name_of, import_cycle, loaded_place, s_resolve_import, unexported,
};
use crate::interp::object::{module_value, not_in_module, s_may_import};
use crate::interp::state::{
    popped, with_heap, with_new, ErrorClass, Interp, Loaded, LoadedV, Out, St,
};
use crate::runtime::heap::{Heap, HeapV};
use crate::runtime::object::{vars_v, ObjV, Object, Scope, ScopeV, Var, VarV};
use crate::runtime::scope::{declared, module_of};
use crate::runtime::value::{
    all_builtins, builtin_types, global_natives, globals_born, is_shipped, natives_shipped,
    shipped_natives, ships, Native, ObjId, PI, Value,
};
use crate::syntax::ast::{
    group_models, import_name_v, import_names_v, stmts_v, Bind, ImportName, ImportNameV, Stmt,
    StmtV,
};
use crate::syntax::token::{keyword_of, Span, TokenKind};
use crate::text::{cat3, cat5, lemma_strs_push, same, strs};
use vstd::prelude::*;

verus! {

broadcast use {group_models, lemma_strs_push};

// -- a module's scope --------------------------------------------------------------------------

/// The builtin functions, bound.
pub open spec fn native_vars() -> Seq<VarV> {
    Seq::new(
        global_natives().len(),
        |i: int|
            VarV {
                name: global_natives()[i].spelled(),
                value: Some(Value::Native(global_natives()[i])),
                bind: Bind::Final,
                ty: None,
            },
    )
}

/// The builtin types among the first `n` that a name can be read under, bound.
pub open spec fn builtin_vars(h: HeapV, n: int) -> Seq<VarV>
    decreases n,
{
    if n <= 0 || n > all_builtins().len() {
        Seq::empty()
    } else {
        let b = all_builtins()[n - 1];
        if keyword_of(b.spelled()) is Some {
            builtin_vars(h, n - 1)
        } else {
            builtin_vars(h, n - 1).push(
                VarV {
                    name: b.spelled(),
                    value: Some(Value::Class(h.builtin_class(b))),
                    bind: Bind::Final,
                    ty: None,
                },
            )
        }
    }
}

/// The classes errors are caught as, bound.
pub open spec fn error_vars(classes: Seq<ErrorClass>, n: int) -> Seq<VarV>
    decreases n,
{
    if n <= 0 || n > classes.len() {
        Seq::empty()
    } else {
        match crate::error::class_name_of(classes[n - 1].kind) {
            Some(name) => error_vars(classes, n - 1).push(
                VarV {
                    name,
                    value: Some(Value::Class(classes[n - 1].class)),
                    bind: Bind::Final,
                    ty: None,
                },
            ),
            None => error_vars(classes, n - 1),
        }
    }
}

/// The names every module starts with.
pub open spec fn born_vars(h: HeapV, classes: Seq<ErrorClass>) -> Seq<VarV> {
    native_vars() + builtin_vars(h, all_builtins().len() as int) + error_vars(
        classes,
        classes.len() as int,
    )
}

/// A module's scope before it is run.
pub open spec fn module_scope(st: St, name: Seq<char>, path: Seq<char>) -> ObjV {
    ObjV::Scope(
        ScopeV {
            vars: born_vars(st.heap, st.error_classes),
            parent: None,
            name: Some(name),
            path: Some(path),
        },
    )
}

/// The names every module starts with.
pub(crate) fn make_born_vars(heap: &Heap, classes: &Vec<ErrorClass>) -> (r: Vec<Var>)
    ensures
        vars_v(r@) == born_vars(heap@, classes@),
{
    let natives = globals_born();
    let ghost first = native_vars();
    let mut r: Vec<Var> = Vec::new();
    let mut i: usize = 0;
    assert(vars_v(r@) =~= first.take(0));
    while i < natives.len()
        invariant
            i <= natives@.len(),
            natives@ == global_natives(),
            first == native_vars(),
            vars_v(r@) == first.take(i as int),
        decreases natives@.len() - i,
    {
        let ghost before = vars_v(r@);
        r.push(
            Var {
                name: natives[i].name().to_owned(),
                value: Some(Value::Native(natives[i])),
                bind: Bind::Final,
                ty: None,
            },
        );
        assert(vars_v(r@) =~= before.push(first[i as int]));
        assert(vars_v(r@) =~= first.take(i + 1));
        i += 1;
    }
    assert(vars_v(r@) =~= first);
    let builtins = builtin_types();
    let mut j: usize = 0;
    assert(vars_v(r@) =~= first + builtin_vars(heap@, 0));
    while j < builtins.len()
        invariant
            j <= builtins@.len(),
            builtins@ == all_builtins(),
            vars_v(r@) == first + builtin_vars(heap@, j as int),
        decreases builtins@.len() - j,
    {
        let ghost before = vars_v(r@);
        let b = builtins[j];
        if TokenKind::keyword(b.name()).is_none() {
            let ghost new = VarV {
                name: b.spelled(),
                value: Some(Value::Class(heap@.builtin_class(b))),
                bind: Bind::Final,
                ty: None,
            };
            r.push(
                Var {
                    name: b.name().to_owned(),
                    value: Some(Value::Class(heap.builtin_class(b))),
                    bind: Bind::Final,
                    ty: None,
                },
            );
            assert(vars_v(r@) =~= before.push(new));
            assert(vars_v(r@) =~= first + builtin_vars(heap@, j + 1));
        }
        j += 1;
    }
    let ghost second = vars_v(r@);
    let mut k: usize = 0;
    assert(vars_v(r@) =~= second + error_vars(classes@, 0));
    while k < classes.len()
        invariant
            k <= classes@.len(),
            vars_v(r@) == second + error_vars(classes@, k as int),
        decreases classes@.len() - k,
    {
        let ghost before = vars_v(r@);
        if let Some(name) = classes[k].kind.class_name() {
            let ghost new = VarV {
                name: name@,
                value: Some(Value::Class(classes@[k as int].class)),
                bind: Bind::Final,
                ty: None,
            };
            r.push(
                Var {
                    name: name.to_owned(),
                    value: Some(Value::Class(classes[k].class)),
                    bind: Bind::Final,
                    ty: None,
                },
            );
            assert(vars_v(r@) =~= before.push(new));
            assert(vars_v(r@) =~= second + error_vars(classes@, k + 1));
        }
        k += 1;
    }
    r
}

/// [`shipped_vars`], made.
fn make_shipped_vars(name: &str) -> (r: Vec<Var>)
    ensures
        vars_v(r@) == shipped_vars(name@),
{
    let natives = natives_shipped(name);
    let ghost goal = shipped_vars(name@);
    let mut r: Vec<Var> = Vec::new();
    let mut i: usize = 0;
    while i < natives.len()
        invariant
            i <= natives@.len(),
            natives@ == shipped_natives(name@),
            goal == shipped_vars(name@),
            vars_v(r@) =~= goal.take(i as int),
        decreases natives@.len() - i,
    {
        let ghost before = vars_v(r@);
        r.push(
            Var {
                name: natives[i].name().to_owned(),
                value: Some(Value::Native(natives[i])),
                bind: Bind::Final,
                ty: None,
            },
        );
        assert(vars_v(r@) =~= before.push(goal[i as int]));
        i += 1;
    }
    if same(name, "math") {
        let ghost before = vars_v(r@);
        r.push(
            Var { name: "pi".to_owned(), value: Some(Value::Float(PI)), bind: Bind::Final, ty: None },
        );
        assert(vars_v(r@) =~= before.push(shipped_constants(name@)[0]));
    }
    assert(vars_v(r@) =~= goal);
    r
}

// -- running a file -------------------------------------------------------------------------------

/// The statements of a program from `i` on, run at the top level.
pub open spec fn s_program(f: nat, st: St, program: Seq<StmtV>, env: ObjId, i: int) -> Out<()>
    decreases f,
{
    if i < 0 || i >= program.len() {
        (st, Ok(()))
    } else if f == 0 {
        (st, Err(too_far(program[i].span)))
    } else {
        match s_exec((f - 1) as nat, st, program[i], env) {
            (st1, Ok(_)) => s_program((f - 1) as nat, st1, program, env, i + 1),
            (st1, Err(e)) => (st1, Err(e)),
        }
    }
}

/// The error for an imported file that is not a program.
pub open spec fn not_a_program(e: ErrV, name: Seq<char>, path: Seq<char>) -> ErrV {
    in_module_of(
        match e.help {
            Some(_) => e,
            None => ErrV {
                help: Some("this file was reached by `import "@ + name + "`"@),
                ..e
            },
        },
        file_name(path),
    )
}

/// The state in which a file's statements are run.
pub open spec fn loading(st: St, name: Seq<char>, path: Seq<char>, program: Seq<StmtV>) -> St {
    let scope = st.heap.next_id();
    let st1 = with_new(st, module_scope(st, name, path));
    St {
        withheld: st1.withheld + unexported(program, scope, program.len() as int),
        loaded: st1.loaded.push(LoadedV { path, scope, done: false }),
        loading: st1.loading.push(path),
        ..st1
    }
}

/// The files imported so far, once one of them is done.
pub open spec fn finished(s: Seq<LoadedV>, path: Seq<char>) -> Seq<LoadedV> {
    match loaded_place(s, path, 0) {
        Some(i) => s.update(i, LoadedV { done: true, ..s[i] }),
        None => s,
    }
}

/// The files imported so far, without one that failed.
pub open spec fn forgotten(s: Seq<LoadedV>, path: Seq<char>) -> Seq<LoadedV> {
    match loaded_place(s, path, 0) {
        Some(i) => s.remove(i),
        None => s,
    }
}

/// Loads a file: its text is compiled and run in a scope of its own.
pub open spec fn s_run_module(f: nat, st: St, name: Seq<char>, path: Seq<char>, text: Seq<char>) -> Out<
    ObjId,
>
    decreases f,
{
    match compiled(text) {
        Err(e) => (st, Err(not_a_program(e, name, path))),
        Ok(program) => if f == 0 {
            (st, Err(too_far(Span { start: 0, end: 0 })))
        } else {
            let scope = st.heap.next_id();
            let (st1, r) = s_program(
                (f - 1) as nat,
                loading(st, name, path, program),
                program,
                scope,
                0,
            );
            let st2 = St { loading: popped(st1.loading), ..st1 };
            match r {
                Ok(_) => (St { loaded: finished(st2.loaded, path), ..st2 }, Ok(scope)),
                Err(e) => (
                    St { loaded: forgotten(st2.loaded, path), ..st2 },
                    Err(in_module_of(e, file_name(path))),
                ),
            }
        },
    }
}

/// The constants of a module the language ships, bound.
pub open spec fn shipped_constants(name: Seq<char>) -> Seq<VarV> {
    if name == "math"@ {
        seq![VarV { name: "pi"@, value: Some(Value::Float(PI)), bind: Bind::Final, ty: None }]
    } else {
        Seq::empty()
    }
}

/// What a module the language ships declares.
pub open spec fn shipped_vars(name: Seq<char>) -> Seq<VarV> {
    Seq::new(
        shipped_natives(name).len(),
        |i: int|
            VarV {
                name: shipped_natives(name)[i].spelled(),
                value: Some(Value::Native(shipped_natives(name)[i])),
                bind: Bind::Final,
                ty: None,
            },
    ) + shipped_constants(name)
}

/// The state once a module the language ships is there. It is kept under its bare name, which
/// no file has.
pub open spec fn shipped(st: St, name: Seq<char>) -> St {
    let scope = st.heap.next_id();
    let st1 = with_new(
        st,
        ObjV::Scope(ScopeV { vars: shipped_vars(name), parent: None, name: Some(name), path: None }),
    );
    St { loaded: st1.loaded.push(LoadedV { path: name, scope, done: true }), ..st1 }
}

/// A module the language ships, made where it was not.
pub open spec fn s_load_shipped(st: St, name: Seq<char>) -> (St, ObjId) {
    match loaded_place(st.loaded, name, 0) {
        Some(at) => (st, st.loaded[at].scope),
        None => (shipped(st, name), st.heap.next_id()),
    }
}

/// The module a name stands for, loaded where it was not. A file takes no name that the
/// language ships.
pub open spec fn s_load_module(f: nat, st: St, name: Seq<char>, span: Span, env: ObjId) -> Out<ObjId>
    decreases f,
{
    if is_shipped(name) {
        let (st1, id) = s_load_shipped(st, name);
        (st1, Ok(id))
    } else {
        match s_resolve_import(st, name, env, span) {
            Err(e) => (st, Err(e)),
            Ok(i) => match loaded_place(st.loaded, st.files[i].path, 0) {
                Some(at) => if st.loaded[at].done {
                    (st, Ok(st.loaded[at].scope))
                } else {
                    (st, Err(import_cycle(st, st.files[i].path, span)))
                },
                None => if f == 0 {
                    (st, Err(too_far(span)))
                } else {
                    s_run_module((f - 1) as nat, st, name, st.files[i].path, st.files[i].text)
                },
            },
        }
    }
}

// -- what an import binds ------------------------------------------------------------------------

/// The values imported names stand for, from `i` on behind those already found.
pub open spec fn imported(
    st: St,
    module: Seq<char>,
    id: ObjId,
    names: Seq<ImportNameV>,
    i: int,
    so_far: Seq<Value>,
) -> Result<Seq<Value>, ErrV>
    decreases names.len() - i,
{
    if i < 0 || i >= names.len() {
        Ok(so_far)
    } else {
        match module_value(st.heap, id, names[i].name) {
            None => Err(not_in_module(module, names[i].name, names[i].span)),
            Some(v) => match s_may_import(st, id, names[i].name, names[i].span) {
                Err(e) => Err(e),
                Ok(_) => imported(st, module, id, names, i + 1, so_far.push(v)),
            },
        }
    }
}

/// Imported names from `i` on, declared.
pub open spec fn names_declared(
    h: HeapV,
    into: ObjId,
    names: Seq<ImportNameV>,
    values: Seq<Value>,
    i: int,
) -> HeapV
    decreases names.len() - i,
{
    if i < 0 || i >= names.len() || i >= values.len() {
        h
    } else {
        names_declared(
            declared(h, into, names[i].name, values[i], Bind::Final, None),
            into,
            names,
            values,
            i + 1,
        )
    }
}

/// What an import of a loaded module binds: the module itself, or the names it lists.
pub open spec fn s_bind_import(
    st: St,
    module: Seq<char>,
    id: ObjId,
    names: Option<Seq<ImportNameV>>,
    env: ObjId,
) -> Out<()> {
    let into = module_of(st.heap, env);
    match names {
        None => (
            with_heap(
                st,
                declared(st.heap, into, module, Value::Module(id), Bind::Final, None),
            ),
            Ok(()),
        ),
        Some(names) => match imported(st, module, id, names, 0, Seq::empty()) {
            Err(e) => (st, Err(e)),
            Ok(values) => (
                with_heap(st, names_declared(st.heap, into, names, values, 0)),
                Ok(()),
            ),
        },
    }
}

/// What an `import` does.
pub open spec fn s_import(
    f: nat,
    st: St,
    module: Seq<char>,
    span: Span,
    names: Option<Seq<ImportNameV>>,
    env: ObjId,
) -> Out<()>
    decreases f,
{
    if f == 0 {
        (st, Err(too_far(span)))
    } else {
        match s_load_module((f - 1) as nat, st, module, span, env) {
            (st1, Err(e)) => (st1, Err(e)),
            (st1, Ok(id)) => s_bind_import(st1, module, id, names, env),
        }
    }
}

pub open spec fn opt_names(names: Option<Vec<ImportName>>) -> Option<Seq<ImportNameV>> {
    match names {
        Some(names) => Some(import_names_v(names@)),
        None => None,
    }
}

impl Interp {
    /// Runs the statements of a program at the top level.
    pub(crate) fn program(&mut self, program: &Vec<Stmt>, env: ObjId, fuel: u64) -> (r: Result<
        (),
        QuinceError,
    >)
        ensures
            (final(self)@, res(r)) == s_program(
                fuel as nat,
                old(self)@,
                stmts_v(program@),
                env,
                0,
            ),
        decreases fuel,
    {
        let ghost all = stmts_v(program@);
        let ghost goal = s_program(fuel as nat, self@, all, env, 0);
        let mut left: u64 = fuel;
        let mut i: usize = 0;
        while i < program.len()
            invariant
                left <= fuel,
                i <= program@.len(),
                all == stmts_v(program@),
                goal == s_program(fuel as nat, old(self)@, all, env, 0),
                goal == s_program(left as nat, self@, all, env, i as int),
            decreases program@.len() - i,
        {
            if left == 0 {
                return Err(too_far_error(program[i].span));
            }
            left -= 1;
            match self.exec(&program[i], env, left) {
                Ok(_) => {},
                Err(e) => {
                    return Err(e);
                },
            }
            i += 1;
        }
        Ok(())
    }

    fn start_loading(&mut self, name: &str, path: &str, program: &Vec<Stmt>) -> (scope: ObjId)
        ensures
            scope == old(self)@.heap.next_id(),
            final(self)@ == loading(old(self)@, name@, path@, stmts_v(program@)),
    {
        let vars = make_born_vars(&self.heap, &self.error_classes);
        let made = Object::Scope(
            Scope { vars, parent: None, name: Some(name.to_owned()), path: Some(path.to_owned()) },
        );
        assert(made@ == module_scope(self@, name@, path@));
        let scope = self.heap.add_object(made);
        self.withhold(program, scope);
        let ghost before = self@.loaded;
        self.loaded.push(Loaded { path: path.to_owned(), scope, done: false });
        assert(self@.loaded =~= before.push(LoadedV { path: path@, scope, done: false }));
        self.loading.push(path.to_owned());
        scope
    }

    fn finish(&mut self, path: &str)
        ensures
            final(self)@ == (St { loaded: finished(old(self)@.loaded, path@), ..old(self)@ }),
    {
        let ghost before = self@.loaded;
        if let Some(i) = self.find_loaded(path) {
            self.loaded[i].done = true;
            assert(self@.loaded =~= before.update(
                i as int,
                LoadedV { done: true, ..before[i as int] },
            ));
        }
    }

    fn forget(&mut self, path: &str)
        ensures
            final(self)@ == (St { loaded: forgotten(old(self)@.loaded, path@), ..old(self)@ }),
    {
        let ghost before = self@.loaded;
        if let Some(i) = self.find_loaded(path) {
            self.loaded.remove(i);
            assert(self@.loaded =~= before.remove(i as int));
        }
    }

    fn run_module(&mut self, name: &str, path: &str, text: &str, fuel: u64) -> (r: Result<
        ObjId,
        QuinceError,
    >)
        ensures
            (final(self)@, res(r)) == s_run_module(
                fuel as nat,
                old(self)@,
                name@,
                path@,
                text@,
            ),
        decreases fuel,
    {
        let file = file_name_of(path);
        let program = match crate::compile(text) {
            Ok(program) => program,
            Err(e) => {
                let helped = if e.help.is_some() {
                    e
                } else {
                    e.with_help(cat3("this file was reached by `import ", name, "`"))
                };
                return Err(helped.in_module(file.as_str()));
            },
        };
        if fuel == 0 {
            return Err(too_far_error(Span { start: 0, end: 0 }));
        }
        let scope = self.start_loading(name, path, &program);
        let r = self.program(&program, scope, fuel - 1);
        let ghost before = strs(self.loading@);
        self.loading.pop();
        assert(strs(self.loading@) =~= popped(before));
        match r {
            Ok(_) => {
                self.finish(path);
                Ok(scope)
            },
            Err(e) => {
                self.forget(path);
                Err(e.in_module(file.as_str()))
            },
        }
    }

    fn load_shipped(&mut self, name: &str) -> (id: ObjId)
        ensures
            (final(self)@, id) == s_load_shipped(old(self)@, name@),
    {
        if let Some(at) = self.find_loaded(name) {
            return self.loaded[at].scope;
        }
        let vars = make_shipped_vars(name);
        let made = Object::Scope(Scope { vars, parent: None, name: Some(name.to_owned()), path: None });
        assert(made@ == ObjV::Scope(
            ScopeV { vars: shipped_vars(name@), parent: None, name: Some(name@), path: None },
        ));
        let scope = self.heap.add_object(made);
        let ghost before = self@.loaded;
        self.loaded.push(Loaded { path: name.to_owned(), scope, done: true });
        assert(self@.loaded =~= before.push(LoadedV { path: name@, scope, done: true }));
        scope
    }

    fn load_module(&mut self, name: &str, span: Span, env: ObjId, fuel: u64) -> (r: Result<
        ObjId,
        QuinceError,
    >)
        ensures
            (final(self)@, res(r)) == s_load_module(
                fuel as nat,
                old(self)@,
                name@,
                span,
                env,
            ),
        decreases fuel,
    {
        if ships(name) {
            return Ok(self.load_shipped(name));
        }
        let i = match self.resolve_import(name, env, span) {
            Ok(i) => i,
            Err(e) => {
                return Err(e);
            },
        };
        let path = self.files[i].path.clone();
        match self.find_loaded(path.as_str()) {
            Some(at) => {
                if self.loaded[at].done {
                    Ok(self.loaded[at].scope)
                } else {
                    Err(self.import_cycle(path.as_str(), span))
                }
            },
            None => {
                if fuel == 0 {
                    return Err(too_far_error(span));
                }
                let text = self.files[i].text.clone();
                self.run_module(name, path.as_str(), text.as_str(), fuel - 1)
            },
        }
    }

    fn imported(&self, module: &str, id: ObjId, names: &Vec<ImportName>) -> (r: Result<
        Vec<Value>,
        QuinceError,
    >)
        ensures
            crate::interp::coerce::value_list(r) == imported(
                self@,
                module@,
                id,
                import_names_v(names@),
                0,
                Seq::empty(),
            ),
    {
        let ghost all = import_names_v(names@);
        let mut r: Vec<Value> = Vec::new();
        assert(r@ =~= Seq::empty());
        let mut i: usize = 0;
        while i < names.len()
            invariant
                i <= names@.len(),
                all == import_names_v(names@),
                imported(self@, module@, id, all, 0, Seq::empty()) == imported(
                    self@,
                    module@,
                    id,
                    all,
                    i as int,
                    r@,
                ),
            decreases names@.len() - i,
        {
            let name = &names[i];
            assert(all[i as int] == import_name_v(*name));
            match self.module_value(id, name.name.as_str()) {
                None => {
                    return Err(
                        QuinceError::new(
                            ErrorKind::Attr,
                            cat5(
                                "`",
                                module,
                                "` declares nothing called `",
                                name.name.as_str(),
                                "`",
                            ),
                            name.span,
                        ),
                    );
                },
                Some(v) => {
                    match self.may_import(id, name.name.as_str(), name.span) {
                        Ok(_) => {},
                        Err(e) => {
                            return Err(e);
                        },
                    }
                    r.push(v);
                },
            }
            i += 1;
        }
        Ok(r)
    }

    fn bind_import(&mut self, module: &str, id: ObjId, names: &Option<Vec<ImportName>>, env: ObjId) -> (r:
        Result<(), QuinceError>)
        ensures
            (final(self)@, res(r)) == s_bind_import(
                old(self)@,
                module@,
                id,
                opt_names(*names),
                env,
            ),
    {
        let into = self.heap.module_of(env);
        match names {
            None => {
                self.heap.declare(into, module, Value::Module(id), Bind::Final, None);
                Ok(())
            },
            Some(names) => {
                let values = match self.imported(module, id, names) {
                    Ok(values) => values,
                    Err(e) => {
                        return Err(e);
                    },
                };
                let ghost all = import_names_v(names@);
                let ghost goal = names_declared(self@.heap, into, all, values@, 0);
                let ghost start = self@;
                let mut i: usize = 0;
                while i < names.len() && i < values.len()
                    invariant
                        all == import_names_v(names@),
                        goal == names_declared(self@.heap, into, all, values@, i as int),
                        self@ == with_heap(start, self@.heap),
                    decreases names@.len() - i,
                {
                    assert(all[i as int] == import_name_v(names@[i as int]));
                    self.heap.declare(
                        into,
                        names[i].name.as_str(),
                        values[i],
                        Bind::Final,
                        None,
                    );
                    i += 1;
                }
                Ok(())
            },
        }
    }

    /// Runs an `import`.
    pub(crate) fn import(
        &mut self,
        module: &str,
        span: Span,
        names: &Option<Vec<ImportName>>,
        env: ObjId,
        fuel: u64,
    ) -> (r: Result<(), QuinceError>)
        ensures
            (final(self)@, res(r)) == s_import(
                fuel as nat,
                old(self)@,
                module@,
                span,
                opt_names(*names),
                env,
            ),
        decreases fuel,
    {
        if fuel == 0 {
            return Err(too_far_error(span));
        }
        let id = match self.load_module(module, span, env, fuel - 1) {
            Ok(id) => id,
            Err(e) => {
                return Err(e);
            },
        };
        self.bind_import(module, id, names, env)
    }
}

proof fn lemma_second_part(f: nat, st: St, a: Seq<StmtV>, b: Seq<StmtV>, env: ObjId, j: int)
    requires
        0 <= j <= b.len(),
    ensures
        s_program(f, st, a + b, env, a.len() + j) == s_program(f, st, b, env, j),
    decreases f,
{
    if j < b.len() {
        assert((a + b)[a.len() + j] == b[j]);
        if f > 0 {
            let (st1, r) = s_exec((f - 1) as nat, st, b[j], env);
            lemma_second_part((f - 1) as nat, st1, a, b, env, j + 1);
        }
    }
}

proof fn lemma_first_part(f: nat, st: St, a: Seq<StmtV>, b: Seq<StmtV>, env: ObjId, i: int)
    requires
        0 <= i <= a.len(),
    ensures
        match s_program(f, st, a, env, i) {
            (st1, Ok(_)) => f >= a.len() - i && s_program(f, st, a + b, env, i) == s_program(
                (f - (a.len() - i)) as nat,
                st1,
                b,
                env,
                0,
            ),
            (st1, Err(e)) => s_program(f, st, a + b, env, i) == (st1, Err::<(), ErrV>(e)),
        },
    decreases f,
{
    if i == a.len() {
        lemma_second_part(f, st, a, b, env, 0);
    } else {
        assert((a + b)[i] == a[i]);
        if f > 0 {
            let (st1, r) = s_exec((f - 1) as nat, st, a[i], env);
            lemma_first_part((f - 1) as nat, st1, a, b, env, i + 1);
        }
    }
}

/// A program may be run in two parts: the second goes on from where the first ends, with the
/// fuel it left, and is not reached where the first fails.
pub proof fn law_a_program_runs_in_two_parts(f: nat, st: St, a: Seq<StmtV>, b: Seq<StmtV>, env: ObjId)
    ensures
        match s_program(f, st, a, env, 0) {
            (st1, Ok(_)) => f >= a.len() && s_program(f, st, a + b, env, 0) == s_program(
                (f - a.len()) as nat,
                st1,
                b,
                env,
                0,
            ),
            (st1, Err(e)) => s_program(f, st, a + b, env, 0) == (st1, Err::<(), ErrV>(e)),
        },
{
    lemma_first_part(f, st, a, b, env, 0);
}

} // verus!
