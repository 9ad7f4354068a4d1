//! Everything callable on a value of a class.

use crate::interp::object::{extension, extension_in, s_find_method};
use crate::interp::state::{ExtensionV, Interp, St};
use crate::runtime::class::{lineage, method_in};
use crate::runtime::heap::HeapV;
use crate::runtime::object::{lookup, nameds_v, place, place_of, Named, NamedV, Object};
use crate::runtime::value::{ObjId, Value};
use crate::text::{before, comes_before};
use vstd::prelude::*;

verus! {

// -- sorting by name ----------------------------------------------------------------------

/// A named value put among others in order, behind those of the same name.
pub open spec fn named_inserted(s: Seq<NamedV>, x: NamedV) -> Seq<NamedV>
    decreases s.len(),
{
    if s.len() > 0 && before(x.name, s.last().name, 0) {
        named_inserted(s.drop_last(), x).push(s.last())
    } else {
        s.push(x)
    }
}

/// Named values in the order of their names.
pub open spec fn named_sorted(s: Seq<NamedV>) -> Seq<NamedV>
    decreases s.len(),
{
    if s.len() == 0 {
        Seq::empty()
    } else {
        named_inserted(named_sorted(s.drop_last()), s.last())
    }
}

/// How many stay in front of a named value put in its place.
spec fn named_rank(s: Seq<NamedV>, x: NamedV) -> int
    decreases s.len(),
{
    if s.len() > 0 && before(x.name, s.last().name, 0) {
        named_rank(s.drop_last(), x)
    } else {
        s.len() as int
    }
}

proof fn lemma_named_rank(s: Seq<NamedV>, x: NamedV)
    ensures
        0 <= named_rank(s, x) <= s.len(),
        named_inserted(s, x) == s.insert(named_rank(s, x), x),
        forall|i: int| named_rank(s, x) <= i < s.len() ==> before(x.name, #[trigger] s[i].name, 0),
    decreases s.len(),
{
    if s.len() > 0 && before(x.name, s.last().name, 0) {
        lemma_named_rank(s.drop_last(), x);
        assert(s.drop_last().insert(named_rank(s, x), x).push(s.last()) =~= s.insert(
            named_rank(s, x),
            x,
        ));
        assert forall|i: int| named_rank(s, x) <= i < s.len() implies before(
            x.name,
            #[trigger] s[i].name,
            0,
        ) by {
            if i < s.len() - 1 {
                assert(s.drop_last()[i] == s[i]);
            }
        }
    } else {
        assert(s.push(x) =~= s.insert(s.len() as int, x));
    }
}

fn insert_named(s: &mut Vec<Named>, x: Named)
    ensures
        nameds_v(final(s)@) == named_inserted(nameds_v(old(s)@), x@),
{
    let ghost all = nameds_v(s@);
    let ghost model = x@;
    let mut i: usize = s.len();
    assert(all.take(i as int) =~= all);
    while i > 0 && comes_before(x.name.as_str(), s[i - 1].name.as_str())
        invariant
            i <= s@.len(),
            all == nameds_v(s@),
            model == x@,
            named_rank(all, model) == named_rank(all.take(i as int), model),
        decreases i,
    {
        assert(all.take(i as int).drop_last() =~= all.take(i - 1));
        i -= 1;
    }
    proof {
        lemma_named_rank(all, model);
        if i > 0 {
            assert(all.take(i as int).last() == s@[i - 1]@);
        }
        assert(named_rank(all, model) == i);
    }
    s.insert(i, x);
    assert(nameds_v(s@) =~= all.insert(i as int, model));
}

fn sort_named(s: &Vec<Named>) -> (r: Vec<Named>)
    ensures
        nameds_v(r@) == named_sorted(nameds_v(s@)),
{
    let ghost all = nameds_v(s@);
    let mut r: Vec<Named> = Vec::new();
    let mut i: usize = 0;
    assert(nameds_v(r@) =~= named_sorted(all.take(0)));
    while i < s.len()
        invariant
            i <= s@.len(),
            all == nameds_v(s@),
            nameds_v(r@) == named_sorted(all.take(i as int)),
        decreases s@.len() - i,
    {
        insert_named(&mut r, Named { name: s[i].name.clone(), value: s[i].value });
        proof {
            let longer = all.take(i + 1);
            assert(longer.drop_last() =~= all.take(i as int));
            assert(longer.last() == s@[i as int]@);
        }
        i += 1;
    }
    assert(all.take(i as int) =~= all);
    r
}

// -- listing ------------------------------------------------------------------------------------

/// Named values with those from `i` on added whose names are not there yet.
pub open spec fn with_unseen(found: Seq<NamedV>, more: Seq<NamedV>, i: int) -> Seq<NamedV>
    decreases more.len() - i,
{
    if i < 0 || i >= more.len() {
        found
    } else if place(found, more[i].name, 0) is Some {
        with_unseen(found, more, i + 1)
    } else {
        with_unseen(found.push(more[i]), more, i + 1)
    }
}

/// The methods classes from `i` on declare, the nearest first.
pub open spec fn declared_methods(h: HeapV, classes: Seq<ObjId>, i: int, found: Seq<NamedV>) -> Seq<NamedV>
    decreases classes.len() - i,
{
    if i < 0 || i >= classes.len() {
        found
    } else {
        declared_methods(
            h,
            classes,
            i + 1,
            with_unseen(found, named_sorted(h.class(classes[i]).methods), 0),
        )
    }
}

/// The methods the first `n` extensions add to a class.
pub open spec fn extensions_of(s: Seq<ExtensionV>, class: ObjId, n: int) -> Seq<NamedV>
    decreases n,
{
    if n <= 0 || n > s.len() {
        Seq::empty()
    } else if s[n - 1].class == class {
        extensions_of(s, class, n - 1).push(
            NamedV { name: s[n - 1].name, value: s[n - 1].method },
        )
    } else {
        extensions_of(s, class, n - 1)
    }
}

/// The methods `extend` blocks add to classes from `i` on.
pub open spec fn added_methods(s: Seq<ExtensionV>, classes: Seq<ObjId>, i: int, found: Seq<NamedV>) -> Seq<
    NamedV,
>
    decreases classes.len() - i,
{
    if i < 0 || i >= classes.len() {
        found
    } else {
        added_methods(
            s,
            classes,
            i + 1,
            with_unseen(found, named_sorted(extensions_of(s, classes[i], s.len() as int)), 0),
        )
    }
}

/// Every method callable on a value of a class, with what it resolves to.
pub open spec fn all_methods(st: St, id: ObjId) -> Seq<NamedV> {
    let classes = lineage(st.heap, id, st.heap.cells.len());
    added_methods(
        st.extensions,
        classes,
        0,
        declared_methods(st.heap, classes, 0, Seq::empty()),
    )
}

pub open spec fn pairs_named(s: Seq<(String, Value)>) -> Seq<NamedV> {
    Seq::new(s.len(), |i: int| NamedV { name: s[i].0@, value: s[i].1 })
}

fn add_unseen(found: &mut Vec<Named>, more: &Vec<Named>)
    ensures
        nameds_v(final(found)@) == with_unseen(nameds_v(old(found)@), nameds_v(more@), 0),
{
    let ghost goal = with_unseen(nameds_v(found@), nameds_v(more@), 0);
    let mut i: usize = 0;
    while i < more.len()
        invariant
            i <= more@.len(),
            goal == with_unseen(nameds_v(found@), nameds_v(more@), i as int),
        decreases more@.len() - i,
    {
        if place_of(found, more[i].name.as_str()).is_none() {
            let ghost before = nameds_v(found@);
            found.push(Named { name: more[i].name.clone(), value: more[i].value });
            assert(nameds_v(found@) =~= before.push(nameds_v(more@)[i as int]));
        }
        i += 1;
    }
}

impl Interp {
    fn own_methods(&self, class: ObjId) -> (r: Vec<Named>)
        ensures
            nameds_v(r@) == named_sorted(self@.heap.class(class).methods),
    {
        match self.heap.object(class) {
            Some(Object::Class(c)) => sort_named(&c.methods),
            _ => {
                let r: Vec<Named> = Vec::new();
                assert(nameds_v(r@) =~= named_sorted(self@.heap.class(class).methods));
                r
            },
        }
    }

    fn own_extensions(&self, class: ObjId) -> (r: Vec<Named>)
        ensures
            nameds_v(r@) == named_sorted(
                extensions_of(self@.extensions, class, self@.extensions.len() as int),
            ),
    {
        let mut found: Vec<Named> = Vec::new();
        let mut i: usize = 0;
        assert(nameds_v(found@) =~= Seq::empty());
        while i < self.extensions.len()
            invariant
                i <= self.extensions@.len(),
                nameds_v(found@) == extensions_of(self@.extensions, class, i as int),
            decreases self.extensions@.len() - i,
        {
            if self.extensions[i].class == class {
                let ghost before = nameds_v(found@);
                found.push(
                    Named {
                        name: self.extensions[i].name.clone(),
                        value: self.extensions[i].method,
                    },
                );
                assert(nameds_v(found@) =~= before.push(
                    NamedV {
                        name: self@.extensions[i as int].name,
                        value: self@.extensions[i as int].method,
                    },
                ));
            }
            i += 1;
        }
        sort_named(&found)
    }

    /// Every method callable on a value of a class, with what it resolves to: the class
    /// and its ancestors first, then the extensions beside them, each by name.
    pub fn methods_of(&self, id: ObjId) -> (r: Vec<(String, Value)>)
        ensures
            pairs_named(r@) == all_methods(self@, id),
    {
        let classes = self.heap.lineage(id);
        let mut found: Vec<Named> = Vec::new();
        assert(nameds_v(found@) =~= Seq::empty());
        let ghost declared = declared_methods(self@.heap, classes@, 0, Seq::empty());
        let mut i: usize = 0;
        while i < classes.len()
            invariant
                i <= classes@.len(),
                declared == declared_methods(self@.heap, classes@, i as int, nameds_v(found@)),
            decreases classes@.len() - i,
        {
            let more = self.own_methods(classes[i]);
            add_unseen(&mut found, &more);
            i += 1;
        }
        let ghost goal = added_methods(self@.extensions, classes@, 0, declared);
        let mut j: usize = 0;
        while j < classes.len()
            invariant
                j <= classes@.len(),
                goal == added_methods(self@.extensions, classes@, j as int, nameds_v(found@)),
            decreases classes@.len() - j,
        {
            let more = self.own_extensions(classes[j]);
            add_unseen(&mut found, &more);
            j += 1;
        }
        let mut r: Vec<(String, Value)> = Vec::new();
        let mut k: usize = 0;
        while k < found.len()
            invariant
                k <= found@.len(),
                pairs_named(r@) == nameds_v(found@).take(k as int),
            decreases found@.len() - k,
        {
            let ghost before = pairs_named(r@);
            r.push((found[k].name.clone(), found[k].value));
            assert(pairs_named(r@) =~= before.push(nameds_v(found@)[k as int]));
            assert(pairs_named(r@) =~= nameds_v(found@).take(k + 1));
            k += 1;
        }
        assert(pairs_named(r@) =~= nameds_v(found@));
        r
    }
}

// -- laws -----------------------------------------------------------------------------------------

proof fn lemma_place(s: Seq<NamedV>, name: Seq<char>, from: int)
    requires
        0 <= from,
    ensures
        match place(s, name, from) {
            Some(i) => from <= i < s.len() && s[i].name == name && forall|j: int|
                from <= j < i ==> (#[trigger] s[j]).name != name,
            None => forall|j: int| from <= j < s.len() ==> (#[trigger] s[j]).name != name,
        },
    decreases s.len() - from,
{
    if from < s.len() && s[from].name != name {
        lemma_place(s, name, from + 1);
    }
}

/// Where a name first stands is where nothing before it has the name.
proof fn lemma_lookup_is(s: Seq<NamedV>, name: Seq<char>, i: int)
    requires
        0 <= i < s.len(),
        s[i].name == name,
        forall|j: int| 0 <= j < i ==> (#[trigger] s[j]).name != name,
    ensures
        lookup(s, name) == Some(s[i].value),
{
    lemma_place(s, name, 0);
}

proof fn lemma_lookup_none(s: Seq<NamedV>, name: Seq<char>)
    requires
        forall|j: int| 0 <= j < s.len() ==> (#[trigger] s[j]).name != name,
    ensures
        lookup(s, name) is None,
{
    lemma_place(s, name, 0);
}

proof fn lemma_lookup_push(s: Seq<NamedV>, x: NamedV, name: Seq<char>)
    ensures
        lookup(s.push(x), name) == match lookup(s, name) {
            Some(v) => Some(v),
            None => if x.name == name {
                Some(x.value)
            } else {
                None
            },
        },
{
    lemma_place(s, name, 0);
    match place(s, name, 0) {
        Some(i) => {
            assert forall|j: int| 0 <= j < i implies (#[trigger] s.push(x)[j]).name != name by {
                assert(s[j].name != name);
            }
            lemma_lookup_is(s.push(x), name, i);
        },
        None => {
            assert forall|j: int| 0 <= j < s.len() implies (#[trigger] s.push(x)[j]).name
                != name by {
                assert(s[j].name != name);
            }
            if x.name == name {
                lemma_lookup_is(s.push(x), name, s.len() as int);
            } else {
                lemma_lookup_none(s.push(x), name);
            }
        },
    }
}

proof fn lemma_before_irreflexive(a: Seq<char>, i: int)
    ensures
        !before(a, a, i),
    decreases a.len() - i,
{
    if 0 <= i < a.len() {
        lemma_before_irreflexive(a, i + 1);
    }
}

proof fn lemma_lookup_inserted(s: Seq<NamedV>, x: NamedV, name: Seq<char>)
    ensures
        lookup(named_inserted(s, x), name) == lookup(s.push(x), name),
    decreases s.len(),
{
    if s.len() > 0 && before(x.name, s.last().name, 0) {
        let rest = s.drop_last();
        let y = s.last();
        lemma_lookup_inserted(rest, x, name);
        lemma_before_irreflexive(x.name, 0);
        assert(x.name != y.name);
        lemma_lookup_push(named_inserted(rest, x), y, name);
        lemma_lookup_push(rest, x, name);
        lemma_lookup_push(rest, y, name);
        assert(rest.push(y) =~= s);
        lemma_lookup_push(s, x, name);
    }
}

proof fn lemma_lookup_sorted(s: Seq<NamedV>, name: Seq<char>)
    ensures
        lookup(named_sorted(s), name) == lookup(s, name),
    decreases s.len(),
{
    if s.len() > 0 {
        let rest = s.drop_last();
        lemma_lookup_sorted(rest, name);
        lemma_lookup_inserted(named_sorted(rest), s.last(), name);
        lemma_lookup_push(named_sorted(rest), s.last(), name);
        lemma_lookup_push(rest, s.last(), name);
        assert(rest.push(s.last()) =~= s);
    } else {
        assert(named_sorted(s) =~= s);
    }
}

/// What named values hold under a name, those of `more` from `i` on counting where the
/// first do not.
proof fn lemma_lookup_unseen(found: Seq<NamedV>, more: Seq<NamedV>, i: int, name: Seq<char>)
    requires
        0 <= i <= more.len(),
    ensures
        lookup(with_unseen(found, more, i), name) == match lookup(found, name) {
            Some(v) => Some(v),
            None => lookup(more.skip(i), name),
        },
    decreases more.len() - i,
{
    if i < more.len() {
        let next = if place(found, more[i].name, 0) is Some {
            found
        } else {
            found.push(more[i])
        };
        lemma_lookup_unseen(next, more, i + 1, name);
        lemma_lookup_push(found, more[i], name);
        let tail = more.skip(i);
        assert(tail.skip(1) =~= more.skip(i + 1));
        lemma_lookup_front(tail, name);
        lemma_place(found, name, 0);
    } else {
        assert(more.skip(i) =~= Seq::empty());
        lemma_lookup_none(more.skip(i), name);
    }
}

proof fn lemma_lookup_front(s: Seq<NamedV>, name: Seq<char>)
    requires
        s.len() > 0,
    ensures
        lookup(s, name) == if s[0].name == name {
            Some(s[0].value)
        } else {
            lookup(s.skip(1), name)
        },
{
    if s[0].name == name {
        lemma_lookup_is(s, name, 0);
    } else {
        lemma_place(s.skip(1), name, 0);
        match place(s.skip(1), name, 0) {
            Some(i) => {
                assert forall|j: int| 0 <= j < i + 1 implies (#[trigger] s[j]).name != name by {
                    if j > 0 {
                        assert(s.skip(1)[j - 1].name != name);
                    }
                }
                assert(s.skip(1)[i] == s[i + 1]);
                lemma_lookup_is(s, name, i + 1);
            },
            None => {
                assert forall|j: int| 0 <= j < s.len() implies (#[trigger] s[j]).name != name by {
                    if j > 0 {
                        assert(s.skip(1)[j - 1].name != name);
                    }
                }
                lemma_lookup_none(s, name);
            },
        }
    }
}

/// The first of several classes that declares a method, and the method.
spec fn first_declared(h: HeapV, classes: Seq<ObjId>, i: int, name: Seq<char>) -> Option<Value>
    decreases classes.len() - i,
{
    if i < 0 || i >= classes.len() {
        None
    } else {
        match lookup(h.class(classes[i]).methods, name) {
            Some(v) => Some(v),
            None => first_declared(h, classes, i + 1, name),
        }
    }
}

spec fn first_added(s: Seq<ExtensionV>, classes: Seq<ObjId>, i: int, name: Seq<char>) -> Option<Value>
    decreases classes.len() - i,
{
    if i < 0 || i >= classes.len() {
        None
    } else {
        match extension(s, classes[i], name, 0) {
            Some(v) => Some(v),
            None => first_added(s, classes, i + 1, name),
        }
    }
}

proof fn lemma_declared(h: HeapV, classes: Seq<ObjId>, i: int, found: Seq<NamedV>, name: Seq<char>)
    requires
        0 <= i <= classes.len(),
    ensures
        lookup(declared_methods(h, classes, i, found), name) == match lookup(found, name) {
            Some(v) => Some(v),
            None => first_declared(h, classes, i, name),
        },
    decreases classes.len() - i,
{
    if i < classes.len() {
        let own = h.class(classes[i]).methods;
        let more = named_sorted(own);
        lemma_lookup_unseen(found, more, 0, name);
        assert(more.skip(0) =~= more);
        lemma_lookup_sorted(own, name);
        lemma_declared(h, classes, i + 1, with_unseen(found, more, 0), name);
    }
}

proof fn lemma_extensions_of(s: Seq<ExtensionV>, class: ObjId, name: Seq<char>, n: int)
    requires
        0 <= n <= s.len(),
    ensures
        lookup(extensions_of(s, class, n), name) == extension(s.take(n), class, name, 0),
    decreases n,
{
    if n > 0 {
        lemma_extensions_of(s, class, name, n - 1);
        assert(s.take(n) =~= s.take(n - 1).push(s[n - 1]));
        lemma_extension_push(s.take(n - 1), s[n - 1], class, name, 0);
        lemma_lookup_push(
            extensions_of(s, class, n - 1),
            NamedV { name: s[n - 1].name, value: s[n - 1].method },
            name,
        );
    } else {
        lemma_lookup_none(extensions_of(s, class, n), name);
    }
}

proof fn lemma_extension_push(
    s: Seq<ExtensionV>,
    x: ExtensionV,
    class: ObjId,
    name: Seq<char>,
    from: int,
)
    requires
        0 <= from <= s.len(),
    ensures
        extension(s.push(x), class, name, from) == match extension(s, class, name, from) {
            Some(v) => Some(v),
            None => if x.class == class && x.name == name {
                Some(x.method)
            } else {
                None
            },
        },
    decreases s.len() - from,
{
    if from < s.len() {
        assert(s.push(x)[from] == s[from]);
        lemma_extension_push(s, x, class, name, from + 1);
    } else {
        assert(s.push(x)[from] == x);
        assert(extension(s.push(x), class, name, from + 1) is None);
    }
}

proof fn lemma_added(
    s: Seq<ExtensionV>,
    classes: Seq<ObjId>,
    i: int,
    found: Seq<NamedV>,
    name: Seq<char>,
)
    requires
        0 <= i <= classes.len(),
    ensures
        lookup(added_methods(s, classes, i, found), name) == match lookup(found, name) {
            Some(v) => Some(v),
            None => first_added(s, classes, i, name),
        },
    decreases classes.len() - i,
{
    if i < classes.len() {
        let own = extensions_of(s, classes[i], s.len() as int);
        let more = named_sorted(own);
        lemma_lookup_unseen(found, more, 0, name);
        assert(more.skip(0) =~= more);
        lemma_lookup_sorted(own, name);
        lemma_extensions_of(s, classes[i], name, s.len() as int);
        assert(s.take(s.len() as int) =~= s);
        lemma_added(s, classes, i + 1, with_unseen(found, more, 0), name);
    }
}

proof fn lemma_lineage_methods(h: HeapV, id: ObjId, name: Seq<char>, n: nat)
    ensures
        first_declared(h, lineage(h, id, n), 0, name) == method_in(h, id, name, n),
    decreases n,
{
    let chain = lineage(h, id, n);
    if n > 0 {
        if let Some(parent) = h.class(id).parent {
            let rest = lineage(h, parent, (n - 1) as nat);
            lemma_lineage_methods(h, parent, name, (n - 1) as nat);
            assert(chain =~= seq![id] + rest);
            lemma_first_declared_shift(h, seq![id], rest, 0, name);
        } else {
            assert(chain =~= seq![id]);
            assert(first_declared(h, chain, 1, name) is None);
        }
    }
}

proof fn lemma_first_declared_shift(
    h: HeapV,
    front: Seq<ObjId>,
    rest: Seq<ObjId>,
    i: int,
    name: Seq<char>,
)
    requires
        front.len() == 1,
        0 <= i <= rest.len(),
    ensures
        first_declared(h, front + rest, i + 1, name) == first_declared(h, rest, i, name),
    decreases rest.len() - i,
{
    if i < rest.len() {
        assert((front + rest)[i + 1] == rest[i]);
        lemma_first_declared_shift(h, front, rest, i + 1, name);
    }
}

proof fn lemma_lineage_extensions(st: St, id: ObjId, name: Seq<char>, n: nat)
    ensures
        first_added(st.extensions, lineage(st.heap, id, n), 0, name) == extension_in(
            st,
            id,
            name,
            n,
        ),
    decreases n,
{
    let chain = lineage(st.heap, id, n);
    if n > 0 {
        if let Some(parent) = st.heap.class(id).parent {
            let rest = lineage(st.heap, parent, (n - 1) as nat);
            lemma_lineage_extensions(st, parent, name, (n - 1) as nat);
            assert(chain =~= seq![id] + rest);
            lemma_first_added_shift(st.extensions, seq![id], rest, 0, name);
        } else {
            assert(chain =~= seq![id]);
            assert(first_added(st.extensions, chain, 1, name) is None);
        }
    }
}

proof fn lemma_first_added_shift(
    s: Seq<ExtensionV>,
    front: Seq<ObjId>,
    rest: Seq<ObjId>,
    i: int,
    name: Seq<char>,
)
    requires
        front.len() == 1,
        0 <= i <= rest.len(),
    ensures
        first_added(s, front + rest, i + 1, name) == first_added(s, rest, i, name),
    decreases rest.len() - i,
{
    if i < rest.len() {
        assert((front + rest)[i + 1] == rest[i]);
        lemma_first_added_shift(s, front, rest, i + 1, name);
    }
}

/// What is listed under a name is exactly what a call of it would reach, and every name
/// a call would reach is listed.
pub proof fn law_what_is_listed_is_what_a_call_reaches(st: St, id: ObjId, name: Seq<char>)
    ensures
        lookup(all_methods(st, id), name) == s_find_method(st, id, name),
{
    let classes = lineage(st.heap, id, st.heap.cells.len());
    let declared = declared_methods(st.heap, classes, 0, Seq::empty());
    lemma_lookup_none(Seq::empty(), name);
    lemma_declared(st.heap, classes, 0, Seq::empty(), name);
    lemma_added(st.extensions, classes, 0, declared, name);
    lemma_lineage_methods(st.heap, id, name, st.heap.cells.len());
    lemma_lineage_extensions(st, id, name, st.heap.cells.len());
}

/// Whether no two of some named values have one name.
pub open spec fn distinct_names(s: Seq<NamedV>) -> bool {
    forall|i: int, j: int| 0 <= i < j < s.len() ==> (#[trigger] s[i]).name != (#[trigger] s[j]).name
}

proof fn lemma_not_there(s: Seq<NamedV>, name: Seq<char>, from: int)
    requires
        0 <= from,
        place(s, name, from) is None,
    ensures
        forall|i: int| from <= i < s.len() ==> (#[trigger] s[i]).name != name,
    decreases s.len() - from,
{
    if from < s.len() {
        lemma_not_there(s, name, from + 1);
    }
}

proof fn lemma_unseen_distinct(found: Seq<NamedV>, more: Seq<NamedV>, i: int)
    requires
        distinct_names(found),
    ensures
        distinct_names(with_unseen(found, more, i)),
    decreases more.len() - i,
{
    if 0 <= i < more.len() {
        if place(found, more[i].name, 0) is Some {
            lemma_unseen_distinct(found, more, i + 1);
        } else {
            lemma_not_there(found, more[i].name, 0);
            lemma_unseen_distinct(found.push(more[i]), more, i + 1);
        }
    }
}

proof fn lemma_declared_distinct(h: HeapV, classes: Seq<ObjId>, i: int, found: Seq<NamedV>)
    requires
        distinct_names(found),
    ensures
        distinct_names(declared_methods(h, classes, i, found)),
    decreases classes.len() - i,
{
    if 0 <= i < classes.len() {
        let more = named_sorted(h.class(classes[i]).methods);
        lemma_unseen_distinct(found, more, 0);
        lemma_declared_distinct(h, classes, i + 1, with_unseen(found, more, 0));
    }
}

proof fn lemma_added_distinct(s: Seq<ExtensionV>, classes: Seq<ObjId>, i: int, found: Seq<NamedV>)
    requires
        distinct_names(found),
    ensures
        distinct_names(added_methods(s, classes, i, found)),
    decreases classes.len() - i,
{
    if 0 <= i < classes.len() {
        let more = named_sorted(extensions_of(s, classes[i], s.len() as int));
        lemma_unseen_distinct(found, more, 0);
        lemma_added_distinct(s, classes, i + 1, with_unseen(found, more, 0));
    }
}

/// No method of a class is listed twice, however many classes and extensions declare it.
pub proof fn law_each_method_is_listed_once(st: St, id: ObjId)
    ensures
        distinct_names(all_methods(st, id)),
{
    let classes = lineage(st.heap, id, st.heap.cells.len());
    lemma_declared_distinct(st.heap, classes, 0, Seq::empty());
    lemma_added_distinct(
        st.extensions,
        classes,
        0,
        declared_methods(st.heap, classes, 0, Seq::empty()),
    );
}

} // verus!
