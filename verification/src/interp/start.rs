//! The interpreter as it starts: its builtin types, its globals and the classes errors
//! are caught as.

use crate::compiled;
use crate::error::{catchable, class_name_of, error_kinds};
use crate::interp::api::{drawn, next_seed};
use crate::interp::declare::no_slots;
use crate::interp::fit::class_named;
use crate::interp::module::{born_vars, builtin_vars, make_born_vars, native_vars, s_program};
use crate::interp::sound::{born, sound};
use crate::interp::steady::law_running_keeps_the_heap_sound;
use crate::runtime::scope::names_distinct;
use crate::interp::state::{ErrorClass, FUEL, Interp, St};
use crate::runtime::heap::{FLOOR, Heap, HeapV};
use crate::runtime::object::{
    nameds_v, CellV, Class, ClassV, Named, NamedV, ObjV, Object, Scope, ScopeV,
};
use crate::runtime::value::{
    all_builtins, builtin_types, methods_born, native_methods, Builtin, Native, ObjId, Value,
};
use crate::syntax::ast::{Op, Openness};
use vstd::prelude::*;

verus! {

/// The seed the random numbers start from.
pub const DEFAULT_SEED: u64 = 0x9e37_79b9_7f4a_7c15;

/// The class every other error extends. The rest declare nothing of their own, so they
/// are added to it.
pub open spec fn base_error() -> Seq<char> {
    "class Error {\n    op init(message) {\n        self.message = message\n        self.kind = type(self)\n    }\n}\n"@
}

fn base_error_source() -> (r: &'static str)
    ensures
        r@ == base_error(),
{
    "class Error {\n    op init(message) {\n        self.message = message\n        self.kind = type(self)\n    }\n}\n"
}

// -- builtin types ---------------------------------------------------------------------------

pub open spec fn named_natives(natives: Seq<Native>) -> Seq<NamedV> {
    Seq::new(
        natives.len(),
        |i: int| NamedV { name: natives[i].spelled(), value: Value::Native(natives[i]) },
    )
}

/// The slots of a builtin type: its conversion, where it has one.
pub open spec fn builtin_slots(b: Builtin) -> Seq<Option<Value>> {
    match b.converter() {
        Some(native) => no_slots().update(Op::Init.position(), Some(Value::Native(native))),
        None => no_slots(),
    }
}

/// A builtin type, as a class.
pub open spec fn builtin_object(b: Builtin) -> ObjV {
    ObjV::Class(
        ClassV {
            name: b.spelled(),
            methods: named_natives(native_methods(b)),
            parent: None,
            slots: builtin_slots(b),
            builtin: Some(b),
            openness: Openness::Open,
            decl: None,
            env: 0,
        },
    )
}

/// A heap that holds the first `n` builtin types and nothing else.
pub open spec fn builtin_heap(n: int) -> HeapV
    decreases n,
{
    if n <= 0 || n > all_builtins().len() {
        HeapV {
            cells: Seq::empty(),
            free: Seq::empty(),
            threshold: FLOOR,
            collections: 0,
            builtins: Seq::empty(),
        }
    } else {
        let h = builtin_heap(n - 1);
        HeapV {
            builtins: h.builtins.push(h.next_id()),
            ..h.with_new(builtin_object(all_builtins()[n - 1]))
        }
    }
}

/// The program's own scope before anything is declared in it.
pub open spec fn global_scope(h: HeapV) -> ObjV {
    ObjV::Scope(
        ScopeV { vars: born_vars(h, Seq::empty()), parent: None, name: None, path: None },
    )
}

/// The interpreter before the classes errors are caught as are declared.
pub open spec fn bare_state(out: Seq<char>, input: Seq<char>) -> St {
    let h = builtin_heap(all_builtins().len() as int);
    St {
        heap: h.with_new(global_scope(h)),
        globals: h.next_id(),
        scopes: Seq::empty(),
        temps: Seq::empty(),
        reaching: Seq::empty(),
        depth: 0,
        out,
        input,
        rng: DEFAULT_SEED,
        extensions: Seq::empty(),
        files: Seq::empty(),
        loaded: Seq::empty(),
        loading: Seq::empty(),
        withheld: Seq::empty(),
        error_classes: Seq::empty(),
        bindings: Seq::empty(),
        pending: None,
    }
}

/// The declarations of the classes the first `n` kinds of error are caught as.
pub open spec fn error_source(n: int) -> Seq<char>
    decreases n,
{
    if n <= 0 || n > catchable().len() {
        base_error()
    } else {
        match class_name_of(catchable()[n - 1]) {
            Some(name) => if name == "Error"@ {
                error_source(n - 1)
            } else {
                error_source(n - 1) + "class "@ + name + " extends Error {}\n"@
            },
            None => error_source(n - 1),
        }
    }
}

/// The classes the first `n` kinds of error are caught as, once they are declared.
pub open spec fn error_classes(st: St, n: int) -> Seq<ErrorClass>
    decreases n,
{
    if n <= 0 || n > catchable().len() {
        Seq::empty()
    } else {
        let kind = catchable()[n - 1];
        match class_name_of(kind) {
            Some(name) => match class_named(st, name) {
                Some(class) => error_classes(st, n - 1).push(ErrorClass { kind, class }),
                None => error_classes(st, n - 1),
            },
            None => error_classes(st, n - 1),
        }
    }
}

/// The interpreter with the classes errors are caught as: declared by a program of their
/// own, and noted.
pub open spec fn with_error_classes(st: St) -> St {
    match compiled(error_source(catchable().len() as int)) {
        Err(_) => st,
        Ok(program) => {
            let (st1, _) = s_program(FUEL as nat, st, program, st.globals, 0);
            St { error_classes: error_classes(st1, catchable().len() as int), ..st1 }
        },
    }
}

/// The interpreter as it starts, drawing random numbers from the seed they start from.
pub open spec fn initial_state(out: Seq<char>, input: Seq<char>) -> St {
    St { rng: DEFAULT_SEED, ..with_error_classes(bare_state(out, input)) }
}

fn name_natives(natives: &Vec<Native>) -> (r: Vec<Named>)
    ensures
        nameds_v(r@) == named_natives(natives@),
{
    let mut r: Vec<Named> = Vec::new();
    let mut i: usize = 0;
    let ghost goal = named_natives(natives@);
    while i < natives.len()
        invariant
            i <= natives@.len(),
            goal == named_natives(natives@),
            nameds_v(r@) == goal.take(i as int),
        decreases natives@.len() - i,
    {
        let ghost before = nameds_v(r@);
        r.push(Named { name: natives[i].name().to_owned(), value: Value::Native(natives[i]) });
        assert(nameds_v(r@) =~= before.push(goal[i as int]));
        assert(nameds_v(r@) =~= goal.take(i + 1));
        i += 1;
    }
    assert(nameds_v(r@) =~= goal);
    r
}

fn make_builtin(b: Builtin) -> (r: Object)
    ensures
        r@ == builtin_object(b),
{
    let natives = methods_born(b);
    let methods = name_natives(&natives);
    let mut slots: Vec<Option<Value>> = crate::interp::declare::empty_slots();
    if let Some(native) = b.init() {
        let at: usize = Op::Init.index();
        if at < slots.len() {
            slots[at] = Some(Value::Native(native));
        }
    }
    Object::Class(
        Class {
            name: b.name().to_owned(),
            methods,
            parent: None,
            slots,
            builtin: Some(b),
            openness: Openness::Open,
            decl: None,
            env: 0,
        },
    )
}

fn make_heap() -> (r: Heap)
    ensures
        r@ == builtin_heap(all_builtins().len() as int),
{
    let all = builtin_types();
    let mut heap = Heap::new();
    let mut i: usize = 0;
    assert(heap@ == builtin_heap(0));
    while i < all.len()
        invariant
            i <= all@.len(),
            all@ == all_builtins(),
            heap@ == builtin_heap(i as int),
        decreases all@.len() - i,
    {
        let ghost before = heap@;
        let id = heap.add_object(make_builtin(all[i]));
        heap.builtins.push(id);
        assert(heap@.builtins =~= before.builtins.push(before.next_id()));
        assert(heap@ == builtin_heap(i + 1));
        i += 1;
    }
    heap
}

fn make_error_source() -> (r: String)
    ensures
        r@ == error_source(catchable().len() as int),
{
    let kinds = error_kinds();
    let mut r = base_error_source().to_owned();
    let mut i: usize = 0;
    while i < kinds.len()
        invariant
            i <= kinds@.len(),
            kinds@ == catchable(),
            r@ == error_source(i as int),
        decreases kinds@.len() - i,
    {
        if let Some(name) = kinds[i].class_name() {
            if !crate::text::same(name, "Error") {
                r.append("class ");
                r.append(name);
                r.append(" extends Error {}\n");
            }
        }
        i += 1;
    }
    r
}

impl Interp {
    fn note_error_classes(&mut self)
        ensures
            final(self)@ == (St {
                error_classes: error_classes(old(self)@, catchable().len() as int),
                ..old(self)@
            }),
    {
        let kinds = error_kinds();
        let mut found: Vec<ErrorClass> = Vec::new();
        let mut i: usize = 0;
        assert(found@ =~= Seq::empty());
        while i < kinds.len()
            invariant
                i <= kinds@.len(),
                kinds@ == catchable(),
                found@ == error_classes(self@, i as int),
                self@ == old(self)@,
            decreases kinds@.len() - i,
        {
            if let Some(name) = kinds[i].class_name() {
                if let Some(class) = self.class_named(name) {
                    found.push(ErrorClass { kind: kinds[i], class });
                }
            }
            i += 1;
        }
        self.error_classes = found;
    }

    fn bare(out: String, input: String) -> (r: Interp)
        ensures
            r@ == bare_state(out@, input@),
    {
        let mut heap = make_heap();
        let none: Vec<ErrorClass> = Vec::new();
        assert(none@ =~= Seq::empty());
        let vars = make_born_vars(&heap, &none);
        let scope = Object::Scope(Scope { vars, parent: None, name: None, path: None });
        assert(scope@ == global_scope(heap@));
        let globals = heap.add_object(scope);
        let r = Interp {
            heap,
            globals,
            scopes: Vec::new(),
            temps: Vec::new(),
            reaching: Vec::new(),
            depth: 0,
            out,
            input,
            rng: DEFAULT_SEED,
            extensions: Vec::new(),
            files: Vec::new(),
            loaded: Vec::new(),
            loading: Vec::new(),
            withheld: Vec::new(),
            error_classes: Vec::new(),
            bindings: Vec::new(),
            pending: None,
        };
        assert(r@ =~= bare_state(out@, input@)) by {
            assert(r@.scopes =~= Seq::empty());
            assert(r@.temps =~= Seq::empty());
            assert(r@.reaching =~= Seq::empty());
            assert(r@.extensions =~= Seq::empty());
            assert(r@.files =~= Seq::empty());
            assert(r@.loaded =~= Seq::empty());
            assert(r@.loading =~= Seq::empty());
            assert(r@.withheld =~= Seq::empty());
            assert(r@.error_classes =~= Seq::empty());
            assert(r@.bindings =~= Seq::empty());
        }
        r
    }

    /// An interpreter that has printed `out` so far and is going to read `input`.
    pub fn with_io(out: String, input: String) -> (r: Interp)
        ensures
            r@ == initial_state(out@, input@),
            sound(r@.heap, r@.globals),
    {
        let mut interp = Interp::bare(out, input);
        let source = make_error_source();
        if let Ok(program) = crate::compile(source.as_str()) {
            let globals: ObjId = interp.globals;
            let _declared = interp.program(&program, globals, FUEL);
            interp.note_error_classes();
        }
        interp.rng = DEFAULT_SEED;
        let _places: usize = interp.heap.cells.len();
        proof {
            law_the_start_is_sound(out@, input@);
        }
        interp
    }

    /// An interpreter that has printed nothing and has nothing to read.
    pub fn new() -> (r: Interp)
        ensures
            r@ == initial_state(Seq::empty(), Seq::empty()),
            sound(r@.heap, r@.globals),
    {
        let out = String::new();
        assert(out@ =~= Seq::empty());
        let input = String::new();
        assert(input@ =~= Seq::empty());
        Interp::with_io(out, input)
    }

    /// An interpreter that has printed something already and has nothing to read.
    pub fn with_output(out: String) -> (r: Interp)
        ensures
            r@ == initial_state(out@, Seq::empty()),
            sound(r@.heap, r@.globals),
    {
        let input = String::new();
        assert(input@ =~= Seq::empty());
        Interp::with_io(out, input)
    }
}

impl Default for Interp {
    fn default() -> (r: Interp)
        ensures
            r@ == initial_state(Seq::empty(), Seq::empty()),
            sound(r@.heap, r@.globals),
    {
        Interp::new()
    }
}

/// The numbers that the first `n` draws from a seed give.
pub open spec fn draws(seed: u64, n: nat) -> Seq<u64>
    decreases n,
{
    if n == 0 {
        Seq::empty()
    } else {
        seq![drawn(next_seed(seed))] + draws(next_seed(seed), (n - 1) as nat)
    }
}

/// Two interpreters that start draw the same numbers, whatever either has printed and is
/// going to read.
pub proof fn law_interpreters_start_drawing_alike(
    out: Seq<char>,
    input: Seq<char>,
    other_out: Seq<char>,
    other_input: Seq<char>,
    n: nat,
)
    ensures
        draws(initial_state(out, input).rng, n) == draws(
            initial_state(other_out, other_input).rng,
            n,
        ),
{
}

// -- what holds from the start ------------------------------------------------------------------

/// How long the name of a builtin type is, and what it starts with. No two agree in both.
spec fn shape_of(b: Builtin) -> (nat, char) {
    match b {
        Builtin::Nil => (3, 'n'),
        Builtin::Bool => (4, 'b'),
        Builtin::Int => (3, 'i'),
        Builtin::Float => (5, 'f'),
        Builtin::Str => (6, 's'),
        Builtin::List => (4, 'l'),
        Builtin::Tuple => (5, 't'),
        Builtin::Dict => (4, 'd'),
        Builtin::Function => (8, 'f'),
        Builtin::Class => (5, 'c'),
        Builtin::Module => (6, 'm'),
    }
}

proof fn lemma_shape(b: Builtin)
    ensures
        (b.spelled().len(), b.spelled()[0]) == shape_of(b),
{
    reveal_strlit("nil");
    reveal_strlit("bool");
    reveal_strlit("int");
    reveal_strlit("float");
    reveal_strlit("string");
    reveal_strlit("list");
    reveal_strlit("tuple");
    reveal_strlit("dict");
    reveal_strlit("function");
    reveal_strlit("class");
    reveal_strlit("module");
}

proof fn lemma_builtin_vars(h: HeapV, n: int)
    requires
        0 <= n <= all_builtins().len(),
    ensures
        names_distinct(builtin_vars(h, n)),
        forall|i: int|
            0 <= i < builtin_vars(h, n).len() ==> exists|k: int|
                0 <= k < n && (#[trigger] builtin_vars(h, n)[i]).name == (
                #[trigger] all_builtins()[k]).spelled(),
    decreases n,
{
    if n > 0 {
        lemma_builtin_vars(h, n - 1);
        let before = builtin_vars(h, n - 1);
        let after = builtin_vars(h, n);
        let b = all_builtins()[n - 1];
        assert forall|i: int| 0 <= i < after.len() implies exists|k: int|
            0 <= k < n && (#[trigger] after[i]).name == (#[trigger] all_builtins()[k]).spelled() by {
            if i < before.len() {
                assert(after[i] == before[i]);
                let k = choose|k: int|
                    0 <= k < n - 1 && before[i].name == (#[trigger] all_builtins()[k]).spelled();
                assert(after[i].name == all_builtins()[k].spelled());
            } else {
                assert(after[i].name == all_builtins()[n - 1].spelled());
            }
        }
        assert forall|i: int, j: int| 0 <= i < j < after.len() implies (#[trigger] after[i]).name != (
        #[trigger] after[j]).name by {
            assert(after[i] == before[i]);
            if j < before.len() {
                assert(after[j] == before[j]);
            } else {
                let k = choose|k: int|
                    0 <= k < n - 1 && before[i].name == (#[trigger] all_builtins()[k]).spelled();
                lemma_shape(b);
                lemma_shape(all_builtins()[k]);
            }
        }
    }
}

proof fn lemma_born_vars(h: HeapV)
    ensures
        names_distinct(born_vars(h, Seq::empty())),
{
    let n = all_builtins().len() as int;
    let first = native_vars();
    let rest = builtin_vars(h, n);
    let all = born_vars(h, Seq::empty());
    lemma_builtin_vars(h, n);
    reveal_strlit("print");
    reveal_strlit("len");
    reveal_strlit("type");
    assert(first.len() == 3);
    assert(all =~= first + rest);
    assert(first[0].name == "print"@ && first[1].name == "len"@ && first[2].name == "type"@);
    assert("print"@.len() == 5 && "print"@[0] == 'p');
    assert("len"@.len() == 3 && "len"@[0] == 'l');
    assert("type"@.len() == 4 && "type"@[0] == 't');
    assert forall|i: int, j: int| 0 <= i < j < all.len() implies (#[trigger] all[i]).name != (
    #[trigger] all[j]).name by {
        if i < 3 {
            assert(all[i] == first[i]);
        }
        if j >= 3 {
            assert(all[j] == rest[j - 3]);
            let k = choose|k: int|
                0 <= k < n && rest[j - 3].name == (#[trigger] all_builtins()[k]).spelled();
            lemma_shape(all_builtins()[k]);
            let (len, c) = shape_of(all_builtins()[k]);
            assert(all[j].name.len() == len && all[j].name[0] == c);
            if i >= 3 {
                assert(all[i] == rest[i - 3]);
            }
        } else {
            assert(all[j] == first[j]);
        }
    }
}

/// What the place of the `i`th builtin type holds.
spec fn builtin_cell(i: int) -> Option<CellV> {
    Some(CellV { object: builtin_object(all_builtins()[i]), frozen: false, descriptor: None })
}

proof fn lemma_builtin_heap(n: int)
    requires
        0 <= n <= all_builtins().len(),
    ensures
        builtin_heap(n).cells =~= Seq::new(n as nat, |i: int| builtin_cell(i)),
        builtin_heap(n).free.len() == 0,
        builtin_heap(n).builtins =~= Seq::new(n as nat, |i: int| i as usize),
    decreases n,
{
    if n > 0 {
        lemma_builtin_heap(n - 1);
    }
}

/// The interpreter starts with a sound heap, before and after the classes errors are caught as
/// are declared.
pub proof fn law_the_start_is_sound(out: Seq<char>, input: Seq<char>)
    requires
        initial_state(out, input).heap.cells.len() <= usize::MAX,
    ensures
        sound(initial_state(out, input).heap, initial_state(out, input).globals),
{
    let n = all_builtins().len() as int;
    let b = builtin_heap(n);
    let st = bare_state(out, input);
    lemma_builtin_heap(n);
    lemma_born_vars(b);
    assert(st.heap.cells.len() == n + 1);
    assert(st.globals == n);
    assert forall|i: int| 0 <= i < st.heap.builtins.len() implies #[trigger] born(
        st.heap,
        st.heap.builtins[i],
        all_builtins()[i],
    ) by {
        assert(b.builtins[i] == i as usize);
        assert(st.heap.cells[i] == b.cells[i]);
        assert(b.cells[i] == builtin_cell(i));
    }
    assert(sound(st.heap, st.globals));
    if let Ok(program) = compiled(error_source(catchable().len() as int)) {
        law_running_keeps_the_heap_sound(FUEL as nat, st, program, st.globals);
    }
}

} // verus!
