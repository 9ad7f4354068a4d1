//! The interpreter's state, and what collects in it.

use crate::error::{ErrV, ErrorKind};
use crate::runtime::heap::{collected, Heap, HeapV};
use crate::runtime::object::{handles, opt_handle, opt_ty, ObjV, Object};
use crate::runtime::value::{ObjId, Value};
use crate::syntax::ast::{TypeExpr, TypeExprV};
use crate::syntax::token::Span;
use crate::text::strs;
use std::rc::Rc;
use vstd::prelude::*;

verus! {

/// How many calls may be in progress at once.
pub const MAX_DEPTH: usize = 250;

/// How far evaluation may nest.
pub const FUEL: u64 = u64::MAX;

/// A method an `extend` block added to a class.
pub struct Extension {
    pub class: ObjId,
    pub name: String,
    pub method: Value,
}

pub struct ExtensionV {
    pub class: ObjId,
    pub name: Seq<char>,
    pub method: Value,
}

impl View for Extension {
    type V = ExtensionV;

    open spec fn view(&self) -> ExtensionV {
        ExtensionV { class: self.class, name: self.name@, method: self.method }
    }
}

pub open spec fn extensions_v(s: Seq<Extension>) -> Seq<ExtensionV> {
    Seq::new(s.len(), |i: int| s[i]@)
}

/// A file a program may import, as it was read.
pub struct SourceFile {
    pub path: String,
    pub text: String,
}

pub struct SourceFileV {
    pub path: Seq<char>,
    pub text: Seq<char>,
}

impl View for SourceFile {
    type V = SourceFileV;

    open spec fn view(&self) -> SourceFileV {
        SourceFileV { path: self.path@, text: self.text@ }
    }
}

pub open spec fn files_v(s: Seq<SourceFile>) -> Seq<SourceFileV> {
    Seq::new(s.len(), |i: int| s[i]@)
}

/// A file that has been imported, or is being.
pub struct Loaded {
    pub path: String,
    pub scope: ObjId,
    pub done: bool,
}

pub struct LoadedV {
    pub path: Seq<char>,
    pub scope: ObjId,
    pub done: bool,
}

impl View for Loaded {
    type V = LoadedV;

    open spec fn view(&self) -> LoadedV {
        LoadedV { path: self.path@, scope: self.scope, done: self.done }
    }
}

pub open spec fn loadeds_v(s: Seq<Loaded>) -> Seq<LoadedV> {
    Seq::new(s.len(), |i: int| s[i]@)
}

/// A top-level name a module does not export.
pub struct Withheld {
    pub scope: ObjId,
    pub name: String,
}

pub struct WithheldV {
    pub scope: ObjId,
    pub name: Seq<char>,
}

impl View for Withheld {
    type V = WithheldV;

    open spec fn view(&self) -> WithheldV {
        WithheldV { scope: self.scope, name: self.name@ }
    }
}

pub open spec fn withhelds_v(s: Seq<Withheld>) -> Seq<WithheldV> {
    Seq::new(s.len(), |i: int| s[i]@)
}

/// What a type parameter is bound to.
pub struct Binding {
    pub name: String,
    pub ty: TypeExpr,
}

pub struct BindingV {
    pub name: Seq<char>,
    pub ty: TypeExprV,
}

impl View for Binding {
    type V = BindingV;

    open spec fn view(&self) -> BindingV {
        BindingV { name: self.name@, ty: self.ty@ }
    }
}

pub open spec fn bindings_v(s: Seq<Binding>) -> Seq<BindingV> {
    Seq::new(s.len(), |i: int| s[i]@)
}

pub open spec fn frames_v(s: Seq<Vec<Binding>>) -> Seq<Seq<BindingV>> {
    Seq::new(s.len(), |i: int| bindings_v(s[i]@))
}

/// The class errors of a kind are caught as.
#[derive(Clone, Copy, PartialEq, Eq, Structural)]
pub struct ErrorClass {
    pub kind: ErrorKind,
    pub class: ObjId,
}

/// The evaluator.
pub struct Interp {
    pub heap: Heap,
    pub globals: ObjId,
    /// Every scope being executed, innermost last.
    pub scopes: Vec<ObjId>,
    /// Values held across a point where the collector may run.
    pub temps: Vec<Value>,
    /// The class whose method is running, one entry for each call in progress.
    pub reaching: Vec<Option<ObjId>>,
    pub depth: usize,
    /// What the program has printed.
    pub out: String,
    /// What the program has not read yet.
    pub input: String,
    pub rng: u64,
    pub extensions: Vec<Extension>,
    pub files: Vec<SourceFile>,
    pub loaded: Vec<Loaded>,
    /// The files being loaded, outermost first.
    pub loading: Vec<String>,
    pub withheld: Vec<Withheld>,
    pub error_classes: Vec<ErrorClass>,
    /// What the type parameters of each method in progress are bound to.
    pub bindings: Vec<Vec<Binding>>,
    /// The description the next instance is to be built with.
    pub pending: Option<Rc<TypeExpr>>,
}

/// [`Interp`], as it is reasoned about.
#[verifier::ext_equal]
pub struct St {
    pub heap: HeapV,
    pub globals: ObjId,
    pub scopes: Seq<ObjId>,
    pub temps: Seq<Value>,
    pub reaching: Seq<Option<ObjId>>,
    pub depth: usize,
    pub out: Seq<char>,
    pub input: Seq<char>,
    pub rng: u64,
    pub extensions: Seq<ExtensionV>,
    pub files: Seq<SourceFileV>,
    pub loaded: Seq<LoadedV>,
    pub loading: Seq<Seq<char>>,
    pub withheld: Seq<WithheldV>,
    pub error_classes: Seq<ErrorClass>,
    pub bindings: Seq<Seq<BindingV>>,
    pub pending: Option<TypeExprV>,
}

impl View for Interp {
    type V = St;

    open spec fn view(&self) -> St {
        St {
            heap: self.heap@,
            globals: self.globals,
            scopes: self.scopes@,
            temps: self.temps@,
            reaching: self.reaching@,
            depth: self.depth,
            out: self.out@,
            input: self.input@,
            rng: self.rng,
            extensions: extensions_v(self.extensions@),
            files: files_v(self.files@),
            loaded: loadeds_v(self.loaded@),
            loading: strs(self.loading@),
            withheld: withhelds_v(self.withheld@),
            error_classes: self.error_classes@,
            bindings: frames_v(self.bindings@),
            pending: opt_ty(self.pending),
        }
    }
}

/// The state with another heap.
pub open spec fn with_heap(st: St, heap: HeapV) -> St {
    St { heap, ..st }
}

/// A sequence cut back to a length it had before.
pub open spec fn cut<T>(s: Seq<T>, n: int) -> Seq<T> {
    if n <= s.len() {
        s.subrange(0, n)
    } else {
        s
    }
}

/// The state with its held values cut back.
pub open spec fn released(st: St, n: int) -> St {
    St { temps: cut(st.temps, n), ..st }
}

/// The state holding one more value, where the value is a handle.
pub open spec fn rooted(st: St, v: Value) -> St {
    if opt_handle(v).len() > 0 {
        St { temps: st.temps.push(v), ..st }
    } else {
        st
    }
}

/// A sequence without its last item, where it has one.
pub open spec fn popped<T>(s: Seq<T>) -> Seq<T> {
    if s.len() > 0 {
        s.drop_last()
    } else {
        s
    }
}

/// The methods `extend` blocks added.
pub open spec fn extension_methods(s: Seq<ExtensionV>) -> Seq<Value> {
    Seq::new(s.len(), |i: int| s[i].method)
}

pub open spec fn loaded_scopes(s: Seq<LoadedV>) -> Seq<ObjId> {
    Seq::new(s.len(), |i: int| s[i].scope)
}

pub open spec fn class_ids(s: Seq<ErrorClass>) -> Seq<ObjId> {
    Seq::new(s.len(), |i: int| s[i].class)
}

/// Everything the interpreter itself refers to.
pub open spec fn roots(st: St) -> Seq<ObjId> {
    seq![st.globals] + st.scopes + handles(st.temps) + handles(extension_methods(st.extensions))
        + loaded_scopes(st.loaded) + class_ids(st.error_classes) + st.heap.builtins
}

/// The state after the collector had its chance.
pub open spec fn s_collect(st: St) -> St {
    if st.heap.live() >= st.heap.threshold {
        with_heap(st, collected(st.heap, roots(st)))
    } else {
        st
    }
}

/// The state holding more values.
pub open spec fn held(st: St, values: Seq<Value>) -> St {
    St { temps: st.temps + values, ..st }
}

/// The state with one more object.
pub open spec fn with_new(st: St, object: ObjV) -> St {
    with_heap(st, st.heap.with_new(object))
}

/// A new text.
pub open spec fn s_text(st: St, text: Seq<char>) -> (St, Value) {
    (with_new(st, ObjV::Str(text)), Value::Str(st.heap.next_id()))
}

/// A new list.
pub open spec fn s_list(st: St, items: Seq<Value>) -> (St, Value) {
    (with_new(st, ObjV::List(items)), Value::List(st.heap.next_id()))
}

/// The place of what the program did not write.
pub open spec fn nowhere() -> Span {
    Span { start: 0, end: 0 }
}

/// An outcome: the next state, and a value or an error.
pub type Out<T> = (St, Result<T, ErrV>);

impl Interp {
    fn roots(&self) -> (r: Vec<ObjId>)
        ensures
            r@ == roots(self@),
    {
        let mut r: Vec<ObjId> = Vec::new();
        r.push(self.globals);
        assert(r@ =~= seq![self.globals]);
        extend_ids(&mut r, &self.scopes);
        extend_handles(&mut r, &self.temps);
        let mut methods: Vec<Value> = Vec::new();
        let mut i: usize = 0;
        while i < self.extensions.len()
            invariant
                i <= self.extensions@.len(),
                methods@ == extension_methods(extensions_v(self.extensions@)).take(i as int),
            decreases self.extensions@.len() - i,
        {
            methods.push(self.extensions[i].method);
            assert(methods@ =~= extension_methods(extensions_v(self.extensions@)).take(i + 1));
            i += 1;
        }
        assert(methods@ =~= extension_methods(extensions_v(self.extensions@)));
        extend_handles(&mut r, &methods);
        let mut loaded: Vec<ObjId> = Vec::new();
        let mut j: usize = 0;
        while j < self.loaded.len()
            invariant
                j <= self.loaded@.len(),
                loaded@ == loaded_scopes(loadeds_v(self.loaded@)).take(j as int),
            decreases self.loaded@.len() - j,
        {
            loaded.push(self.loaded[j].scope);
            assert(loaded@ =~= loaded_scopes(loadeds_v(self.loaded@)).take(j + 1));
            j += 1;
        }
        assert(loaded@ =~= loaded_scopes(loadeds_v(self.loaded@)));
        extend_ids(&mut r, &loaded);
        let mut classes: Vec<ObjId> = Vec::new();
        let mut k: usize = 0;
        while k < self.error_classes.len()
            invariant
                k <= self.error_classes@.len(),
                classes@ == class_ids(self.error_classes@).take(k as int),
            decreases self.error_classes@.len() - k,
        {
            classes.push(self.error_classes[k].class);
            assert(classes@ =~= class_ids(self.error_classes@).take(k + 1));
            k += 1;
        }
        assert(classes@ =~= class_ids(self.error_classes@));
        extend_ids(&mut r, &classes);
        extend_ids(&mut r, &self.heap.builtins);
        r
    }

    /// Collects, if the heap has grown enough to be worth it.
    ///
    /// Only ever called between statements: everything a caller still needs is then in
    /// a scope or among `temps`.
    pub(crate) fn collect_if_needed(&mut self)
        ensures
            final(self)@ == s_collect(old(self)@),
    {
        if !self.heap.should_collect() {
            return;
        }
        let roots = self.roots();
        self.heap.collect(&roots);
    }

    /// Holds a value across a point where the collector may run.
    pub(crate) fn root(&mut self, v: Value)
        ensures
            final(self)@ == rooted(old(self)@, v),
    {
        if v.handle().is_some() {
            self.temps.push(v);
        }
    }

    /// Holds values across a point where the collector may run.
    pub(crate) fn hold(&mut self, values: &Vec<Value>)
        ensures
            final(self)@ == held(old(self)@, values@),
    {
        let ghost before = self.temps@;
        let mut i: usize = 0;
        assert(self.temps@ =~= before + values@.take(0));
        while i < values.len()
            invariant
                i <= values@.len(),
                self.temps@ == before + values@.take(i as int),
                self@ == (St { temps: self.temps@, ..old(self)@ }),
            decreases values@.len() - i,
        {
            self.temps.push(values[i]);
            assert(self.temps@ =~= before + values@.take(i + 1));
            i += 1;
        }
        assert(values@.take(i as int) =~= values@);
    }

    /// A new text.
    pub fn new_text(&mut self, text: String) -> (v: Value)
        ensures
            (final(self)@, v) == s_text(old(self)@, text@),
    {
        Value::Str(self.heap.add_object(Object::Str(text)))
    }

    /// A new list.
    pub fn new_list(&mut self, items: Vec<Value>) -> (v: Value)
        ensures
            (final(self)@, v) == s_list(old(self)@, items@),
    {
        Value::List(self.heap.add_object(Object::List(items)))
    }

    /// Lets go of the values held since there were `n`.
    pub(crate) fn release(&mut self, n: usize)
        ensures
            final(self)@ == released(old(self)@, n as int),
    {
        self.temps.truncate(n);
    }
}

fn extend_ids(out: &mut Vec<ObjId>, ids: &Vec<ObjId>)
    ensures
        final(out)@ == old(out)@ + ids@,
{
    let ghost before = out@;
    let mut i: usize = 0;
    assert(out@ =~= before + ids@.take(0));
    while i < ids.len()
        invariant
            i <= ids@.len(),
            out@ == before + ids@.take(i as int),
        decreases ids@.len() - i,
    {
        out.push(ids[i]);
        assert(out@ =~= before + ids@.take(i + 1));
        i += 1;
    }
    assert(ids@.take(i as int) =~= ids@);
}

fn extend_handles(out: &mut Vec<ObjId>, values: &Vec<Value>)
    ensures
        final(out)@ == old(out)@ + handles(values@),
{
    crate::runtime::object::push_handles(out, values);
}

/// Whatever the interpreter refers to is there after a collection, unchanged.
pub proof fn law_a_collection_keeps_what_is_held(st: St, v: Value)
    requires
        st.temps.contains(v),
        opt_handle(v).len() > 0,
        st.heap.cell(opt_handle(v)[0]) is Some,
    ensures
        s_collect(st).heap.cell(opt_handle(v)[0]) == st.heap.cell(opt_handle(v)[0]),
        s_collect(st).temps == st.temps,
{
    let id = opt_handle(v)[0];
    lemma_handle_held(st.temps, v);
    let before = seq![st.globals] + st.scopes;
    let all = roots(st);
    let k = choose|k: int| 0 <= k < handles(st.temps).len() && handles(st.temps)[k] == id;
    assert(all[before.len() + k] == id);
    assert(all.contains(id));
    crate::runtime::heap::lemma_root_is_reachable(
        st.heap.cells,
        crate::runtime::heap::Follow::All,
        all,
        id,
    );
}

proof fn lemma_handle_held(s: Seq<Value>, v: Value)
    requires
        s.contains(v),
        opt_handle(v).len() > 0,
    ensures
        handles(s).contains(opt_handle(v)[0]),
    decreases s.len(),
{
    let k = choose|k: int| 0 <= k < s.len() && s[k] == v;
    if k == s.len() - 1 {
        let n = handles(s.drop_last()).len();
        assert(handles(s)[n as int] == opt_handle(v)[0]);
    } else {
        assert(s.drop_last()[k] == v);
        lemma_handle_held(s.drop_last(), v);
        let j = choose|j: int|
            0 <= j < handles(s.drop_last()).len() && handles(s.drop_last())[j] == opt_handle(v)[0];
        assert(handles(s)[j] == opt_handle(v)[0]);
    }
}

} // verus!
