//! Files a program imports: where one is found, whether it has been loaded, and what it
//! keeps to itself.

use crate::error::{err_help, ErrV, ErrorKind, QuinceError};
use crate::interp::state::{Interp, LoadedV, SourceFileV, St, Withheld, WithheldV};
use crate::runtime::heap::HeapV;
use crate::runtime::scope::module_of;
use crate::runtime::value::ObjId;
use crate::syntax::ast::{
    group_models, stmt_kind_v, stmt_v, stmts_v, Stmt, StmtKind, StmtKindV, StmtV,
};
use crate::syntax::token::Span;
use crate::text::{cat3, cat4, cat5, chars_of, join, joined, lemma_strs_push, same, string_of, strs};
use vstd::prelude::*;

verus! {

broadcast use {group_models, lemma_strs_push};

// -- paths ------------------------------------------------------------------------------------

/// Where the last part of a path starts: behind its last `/`.
pub open spec fn name_start(path: Seq<char>, n: int) -> int
    decreases n,
{
    if n <= 0 || n > path.len() {
        0
    } else if path[n - 1] == '/' {
        n
    } else {
        name_start(path, n - 1)
    }
}

/// The last part of a path.
pub open spec fn file_name(path: Seq<char>) -> Seq<char> {
    path.subrange(name_start(path, path.len() as int), path.len() as int)
}

/// What stands before the last part of a path, its `/` included.
pub open spec fn folder(path: Seq<char>) -> Seq<char> {
    path.subrange(0, name_start(path, path.len() as int))
}

fn start_of_name(path: &Vec<char>) -> (r: usize)
    ensures
        r == name_start(path@, path@.len() as int),
        r <= path@.len(),
{
    let mut n: usize = path.len();
    while n > 0
        invariant
            n <= path@.len(),
            name_start(path@, path@.len() as int) == name_start(path@, n as int),
        decreases n,
    {
        if path[n - 1] == '/' {
            return n;
        }
        n -= 1;
    }
    0
}

/// [`file_name`], computed.
pub(crate) fn file_name_of(path: &str) -> (r: String)
    ensures
        r@ == file_name(path@),
{
    let chars = chars_of(path);
    let start = start_of_name(&chars);
    string_of(&chars, start, chars.len())
}

fn folder_of(path: &str) -> (r: String)
    ensures
        r@ == folder(path@),
{
    let chars = chars_of(path);
    let start = start_of_name(&chars);
    string_of(&chars, 0, start)
}

// -- finding --------------------------------------------------------------------------------------

/// Where the file of a path stands among those that can be imported.
pub open spec fn file_place(s: Seq<SourceFileV>, path: Seq<char>, from: int) -> Option<int>
    decreases s.len() - from,
{
    if from < 0 || from >= s.len() {
        None
    } else if s[from].path == path {
        Some(from)
    } else {
        file_place(s, path, from + 1)
    }
}

/// Where the file of a path stands among those that were imported.
pub open spec fn loaded_place(s: Seq<LoadedV>, path: Seq<char>, from: int) -> Option<int>
    decreases s.len() - from,
{
    if from < 0 || from >= s.len() {
        None
    } else if s[from].path == path {
        Some(from)
    } else {
        loaded_place(s, path, from + 1)
    }
}

/// The file a module's name stands for: the one beside the file that imports it.
pub open spec fn import_path(h: HeapV, name: Seq<char>, env: ObjId) -> Seq<char> {
    (match h.scope(module_of(h, env)).path {
        Some(path) => folder(path),
        None => ""@,
    }) + name + ".qn"@
}

pub open spec fn no_module(name: Seq<char>, span: Span) -> ErrV {
    err_help(
        ErrorKind::Import,
        "there is no module called `"@ + name + "`"@,
        span,
        "no module the language ships is called `"@ + name + "`, and there is no `"@ + name
            + ".qn` beside this file"@,
    )
}

/// Where a module's file stands among those that can be imported.
pub open spec fn s_resolve_import(st: St, name: Seq<char>, env: ObjId, span: Span) -> Result<int, ErrV> {
    match file_place(st.files, import_path(st.heap, name, env), 0) {
        Some(i) => Ok(i),
        None => Err(no_module(name, span)),
    }
}

/// Where a path stands among those being loaded.
pub open spec fn loading_place(s: Seq<Seq<char>>, path: Seq<char>, from: int) -> int
    decreases s.len() - from,
{
    if from < 0 || from >= s.len() {
        0
    } else if s[from] == path {
        from
    } else {
        loading_place(s, path, from + 1)
    }
}

pub open spec fn file_names(s: Seq<Seq<char>>) -> Seq<Seq<char>> {
    Seq::new(s.len(), |i: int| file_name(s[i]))
}

/// The report for files that import each other.
pub open spec fn import_cycle(st: St, path: Seq<char>, span: Span) -> ErrV {
    let chain = file_names(st.loading.skip(loading_place(st.loading, path, 0))).push(
        file_name(path),
    );
    err_help(
        ErrorKind::Import,
        "`"@ + file_name(path) + "` is imported before it has finished loading: "@ + joined(
            chain,
            " → "@,
        ),
        span,
        "a module is loaded once, and a cycle has no order that could do that — move what both files need into a third"@,
    )
}

impl Interp {
    pub(crate) fn find_file(&self, path: &str) -> (r: Option<usize>)
        ensures
            match r {
                Some(i) => file_place(self@.files, path@, 0) == Some(i as int) && i
                    < self.files@.len(),
                None => file_place(self@.files, path@, 0) is None,
            },
    {
        let mut i: usize = 0;
        while i < self.files.len()
            invariant
                i <= self.files@.len(),
                file_place(self@.files, path@, 0) == file_place(self@.files, path@, i as int),
            decreases self.files@.len() - i,
        {
            if same(self.files[i].path.as_str(), path) {
                return Some(i);
            }
            i += 1;
        }
        None
    }

    /// Where a path stands among the files that were imported.
    pub(crate) fn find_loaded(&self, path: &str) -> (r: Option<usize>)
        ensures
            match r {
                Some(i) => loaded_place(self@.loaded, path@, 0) == Some(i as int) && i
                    < self.loaded@.len(),
                None => loaded_place(self@.loaded, path@, 0) is None,
            },
    {
        let mut i: usize = 0;
        while i < self.loaded.len()
            invariant
                i <= self.loaded@.len(),
                loaded_place(self@.loaded, path@, 0) == loaded_place(
                    self@.loaded,
                    path@,
                    i as int,
                ),
            decreases self.loaded@.len() - i,
        {
            if same(self.loaded[i].path.as_str(), path) {
                return Some(i);
            }
            i += 1;
        }
        None
    }

    /// [`s_resolve_import`], decided.
    pub(crate) fn resolve_import(&self, name: &str, env: ObjId, span: Span) -> (r: Result<
        usize,
        QuinceError,
    >)
        ensures
            match r {
                Ok(i) => i < self.files@.len() && s_resolve_import(self@, name@, env, span) == Ok::<
                    int,
                    ErrV,
                >(i as int),
                Err(e) => s_resolve_import(self@, name@, env, span) == Err::<int, ErrV>(e@),
            },
    {
        let importer = self.heap.module_of(env);
        let base = match self.heap.scope_path(importer) {
            Some(path) => folder_of(path.as_str()),
            None => "".to_owned(),
        };
        let path = cat3(base.as_str(), name, ".qn");
        match self.find_file(path.as_str()) {
            Some(i) => Ok(i),
            None => {
                let help = cat5(
                    "no module the language ships is called `",
                    name,
                    "`, and there is no `",
                    name,
                    ".qn` beside this file",
                );
                Err(
                    QuinceError::new(
                        ErrorKind::Import,
                        cat3("there is no module called `", name, "`"),
                        span,
                    ).with_help(help),
                )
            },
        }
    }

    fn find_loading(&self, path: &str) -> (r: usize)
        ensures
            r == loading_place(self@.loading, path@, 0),
            r <= self.loading@.len(),
    {
        let mut i: usize = 0;
        while i < self.loading.len()
            invariant
                i <= self.loading@.len(),
                loading_place(self@.loading, path@, 0) == loading_place(
                    self@.loading,
                    path@,
                    i as int,
                ),
            decreases self.loading@.len() - i,
        {
            if same(self.loading[i].as_str(), path) {
                return i;
            }
            i += 1;
        }
        0
    }

    /// The report for files that import each other.
    pub(crate) fn import_cycle(&self, path: &str, span: Span) -> (r: QuinceError)
        ensures
            r@ == import_cycle(self@, path@, span),
    {
        let start = self.find_loading(path);
        let mut chain: Vec<String> = Vec::new();
        let mut i: usize = start;
        let ghost all = file_names(self@.loading.skip(start as int));
        assert(strs(chain@) =~= all.take(0));
        while i < self.loading.len()
            invariant
                start <= i <= self.loading@.len(),
                all == file_names(self@.loading.skip(start as int)),
                strs(chain@) == all.take(i - start),
            decreases self.loading@.len() - i,
        {
            chain.push(file_name_of(self.loading[i].as_str()));
            assert(strs(chain@) =~= all.take(i + 1 - start));
            i += 1;
        }
        assert(all.take(i - start) =~= all);
        let name = file_name_of(path);
        chain.push(name.clone());
        let steps = join(&chain, " → ");
        let message = cat4(
            "`",
            name.as_str(),
            "` is imported before it has finished loading: ",
            steps.as_str(),
        );
        QuinceError::new(ErrorKind::Import, message, span).with_help(
            "a module is loaded once, and a cycle has no order that could do that — move what both files need into a third".to_owned(),
        )
    }
}

// -- what a file keeps to itself -------------------------------------------------------------------

/// The name a statement declares and does not export.
pub open spec fn kept_name(s: StmtV) -> Option<Seq<char>> {
    match s.kind {
        StmtKindV::Let { name, visibility, .. } => if visibility.is_exported() {
            None
        } else {
            Some(name)
        },
        StmtKindV::Class(decl) => if decl.visibility.is_exported() {
            None
        } else {
            Some(decl.name)
        },
        StmtKindV::Fn(decl) => if decl.visibility.is_exported() {
            None
        } else {
            Some(decl.name)
        },
        _ => None,
    }
}

/// What the first `n` statements of a module declare and do not export.
pub open spec fn unexported(program: Seq<StmtV>, scope: ObjId, n: int) -> Seq<WithheldV>
    decreases n,
{
    if n <= 0 || n > program.len() {
        Seq::empty()
    } else {
        match kept_name(program[n - 1]) {
            Some(name) => unexported(program, scope, n - 1).push(WithheldV { scope, name }),
            None => unexported(program, scope, n - 1),
        }
    }
}

fn kept(s: &Stmt) -> (r: Option<&String>)
    ensures
        match r {
            Some(name) => kept_name(stmt_v(*s)) == Some(name@),
            None => kept_name(stmt_v(*s)) is None,
        },
{
    assert(stmt_v(*s).kind == stmt_kind_v(s.kind));
    match &s.kind {
        StmtKind::Let { name, name_span: _, ty: _, value: _, bind: _, visibility } => {
            if visibility.exported() {
                None
            } else {
                Some(name)
            }
        },
        StmtKind::Class(decl) => {
            if decl.visibility.exported() {
                None
            } else {
                Some(&decl.name)
            }
        },
        StmtKind::Fn(decl) => {
            if decl.visibility.exported() {
                None
            } else {
                Some(&decl.name)
            }
        },
        _ => None,
    }
}

impl Interp {
    /// Notes what a module does not export.
    pub(crate) fn withhold(&mut self, program: &Vec<Stmt>, scope: ObjId)
        ensures
            final(self)@ == (St {
                withheld: old(self)@.withheld + unexported(
                    stmts_v(program@),
                    scope,
                    program@.len() as int,
                ),
                ..old(self)@
            }),
    {
        let ghost before = self@.withheld;
        let ghost all = stmts_v(program@);
        let mut i: usize = 0;
        assert(self@.withheld =~= before + unexported(all, scope, 0));
        while i < program.len()
            invariant
                i <= program@.len(),
                all == stmts_v(program@),
                self@.withheld == before + unexported(all, scope, i as int),
                self@ == (St { withheld: self@.withheld, ..old(self)@ }),
            decreases program@.len() - i,
        {
            let ghost so_far = self@.withheld;
            if let Some(name) = kept(&program[i]) {
                self.withheld.push(Withheld { scope, name: name.clone() });
                assert(self@.withheld =~= so_far.push(WithheldV { scope, name: name@ }));
                assert(self@.withheld =~= before + unexported(all, scope, i + 1));
            }
            i += 1;
        }
    }
}

/// The report's file for an error in code of a module: none for the program itself.
pub open spec fn module_file(st: St, env: ObjId) -> Option<Seq<char>> {
    let module = module_of(st.heap, env);
    if module == st.globals {
        None
    } else {
        match st.heap.scope(module).path {
            Some(path) => Some(file_name(path)),
            None => None,
        }
    }
}

/// An error, known to be about the file its code stands in.
pub open spec fn located(st: St, env: ObjId, e: ErrV) -> ErrV {
    match module_file(st, env) {
        Some(file) => crate::error::in_module_of(e, file),
        None => e,
    }
}

impl Interp {
    /// [`located`], made.
    pub(crate) fn located(&self, env: ObjId, e: QuinceError) -> (r: QuinceError)
        ensures
            r@ == located(self@, env, e@),
    {
        let module = self.heap.module_of(env);
        if module == self.globals {
            return e;
        }
        match self.heap.scope_path(module) {
            Some(path) => {
                let file = file_name_of(path.as_str());
                e.in_module(file.as_str())
            },
            None => e,
        }
    }
}

// -- laws ---------------------------------------------------------------------------------------------

/// A path is its folder followed by its last part.
pub proof fn law_a_path_is_its_parts(path: Seq<char>)
    ensures
        folder(path) + file_name(path) == path,
{
    lemma_name_start(path, path.len() as int);
    assert(folder(path) + file_name(path) =~= path);
}

proof fn lemma_name_start(path: Seq<char>, n: int)
    requires
        0 <= n <= path.len(),
    ensures
        0 <= name_start(path, n) <= n,
    decreases n,
{
    if n > 0 && path[n - 1] != '/' {
        lemma_name_start(path, n - 1);
    }
}

} // verus!
