//! Types as annotations write them, and what it takes for a value to hold one.

use crate::runtime::class::{base, is_a, type_text};
use crate::runtime::heap::{Heap, HeapV};
use crate::runtime::value::{handle_of, ObjId, Value};
use crate::syntax::ast::{
    group_models, type_exprs_v, ConstArg, ConstArgV, TypeExpr, TypeExprV, TypeName, TypeNameV,
};
use crate::syntax::token::Span;
use crate::text::{decimal, decimal_of, join, joined, same, strs};
use vstd::prelude::*;

verus! {

broadcast use group_models;

// -- how a type reads ----------------------------------------------------------------

pub open spec fn const_text(c: ConstArgV) -> Seq<char> {
    match c {
        ConstArgV::Int(n) => decimal(n as int),
        ConstArgV::Bool(b) => if b {
            "true"@
        } else {
            "false"@
        },
        ConstArgV::Str(s) => "\""@ + s + "\""@,
    }
}

pub open spec fn name_text(name: TypeNameV) -> Seq<char> {
    match name {
        TypeNameV::Named(s) => s,
        TypeNameV::Any => "any"@,
        TypeNameV::Const(c) => const_text(c),
        TypeNameV::Pack(s) => s + "..."@,
    }
}

/// A type as a program would write it.
pub open spec fn written(ty: TypeExprV) -> Seq<char>
    decreases ty,
{
    let front = if ty.frozen {
        "const "@
    } else {
        ""@
    };
    let args = if ty.args.len() == 0 {
        ""@
    } else {
        "["@ + joined(all_written(ty.args), ", "@) + "]"@
    };
    let back = if ty.nullable {
        "?"@
    } else {
        ""@
    };
    front + name_text(ty.name) + args + back
}

pub open spec fn all_written(tys: Seq<TypeExprV>) -> Seq<Seq<char>>
    decreases tys,
{
    Seq::new(
        tys.len(),
        |i: int|
            if 0 <= i < tys.len() {
                written(tys[i])
            } else {
                Seq::empty()
            },
    )
}

fn const_word(c: &ConstArg) -> (r: String)
    ensures
        r@ == const_text(c@),
{
    match c {
        ConstArg::Int(n) => decimal_of(*n),
        ConstArg::Bool(b) => if *b {
            "true".to_owned()
        } else {
            "false".to_owned()
        },
        ConstArg::Str(s) => {
            let mut r = String::from_str("\"");
            r.append(s.as_str());
            r.append("\"");
            r
        },
    }
}

fn name_word(name: &TypeName) -> (r: String)
    ensures
        r@ == name_text(name@),
{
    match name {
        TypeName::Named(s) => s.clone(),
        TypeName::Any => "any".to_owned(),
        TypeName::Const(c) => const_word(c),
        TypeName::Pack(s) => {
            let mut r = s.clone();
            r.append("...");
            r
        },
    }
}

impl TypeExpr {
    /// The type as a program would write it.
    pub fn written(&self) -> (r: String)
        ensures
            r@ == written(self@),
        decreases self,
    {
        let mut r = String::from_str(
            if self.frozen {
                "const "
            } else {
                ""
            },
        );
        let name = name_word(&self.name);
        r.append(name.as_str());
        if self.args.len() == 0 {
            r.append("");
        } else {
            let mut parts: Vec<String> = Vec::new();
            let mut i: usize = 0;
            while i < self.args.len()
                invariant
                    i <= self.args@.len(),
                    strs(parts@) == all_written(type_exprs_v(self.args@)).take(i as int),
                decreases self.args@.len() - i,
            {
                let ghost before = strs(parts@);
                let one = self.args[i].written();
                parts.push(one);
                assert(strs(parts@) =~= before.push(one@));
                assert(strs(parts@) =~= all_written(type_exprs_v(self.args@)).take(i + 1));
                i += 1;
            }
            assert(strs(parts@) =~= all_written(type_exprs_v(self.args@)));
            let mut args = String::from_str("[");
            let inner = join(&parts, ", ");
            args.append(inner.as_str());
            args.append("]");
            r.append(args.as_str());
        }
        r.append(
            if self.nullable {
                "?"
            } else {
                ""
            },
        );
        r
    }

    pub open spec fn takes_nil(&self) -> bool {
        self.nullable
    }

    /// Whether the type admits `nil`.
    pub fn admits_nil(&self) -> (r: bool)
        ensures
            r == self.takes_nil(),
    {
        self.nullable
    }

    /// A copy of the type.
    pub fn copied(&self) -> (r: TypeExpr)
        ensures
            r@ == self@,
        decreases self,
    {
        let mut args: Vec<TypeExpr> = Vec::new();
        let mut i: usize = 0;
        while i < self.args.len()
            invariant
                i <= self.args@.len(),
                type_exprs_v(args@) == type_exprs_v(self.args@).take(i as int),
            decreases self.args@.len() - i,
        {
            let one = self.args[i].copied();
            args.push(one);
            assert(type_exprs_v(args@) =~= type_exprs_v(self.args@).take(i + 1));
            i += 1;
        }
        assert(type_exprs_v(args@) =~= type_exprs_v(self.args@));
        TypeExpr {
            name: self.name.copied(),
            args,
            applied: self.applied,
            nullable: self.nullable,
            frozen: self.frozen,
            span: self.span,
        }
    }
}

impl TypeName {
    /// A copy of the name.
    pub fn copied(&self) -> (r: TypeName)
        ensures
            r@ == self@,
    {
        match self {
            TypeName::Named(s) => TypeName::Named(s.clone()),
            TypeName::Any => TypeName::Any,
            TypeName::Const(c) => TypeName::Const(c.copied()),
            TypeName::Pack(s) => TypeName::Pack(s.clone()),
        }
    }

    /// Whether two names are the same.
    pub fn is(&self, other: &TypeName) -> (r: bool)
        ensures
            r == (self@ == other@),
    {
        match (self, other) {
            (TypeName::Named(a), TypeName::Named(b)) => *a == *b,
            (TypeName::Any, TypeName::Any) => true,
            (TypeName::Const(a), TypeName::Const(b)) => a.is(b),
            (TypeName::Pack(a), TypeName::Pack(b)) => *a == *b,
            _ => false,
        }
    }
}

impl ConstArg {
    /// A copy of the value.
    pub fn copied(&self) -> (r: ConstArg)
        ensures
            r@ == self@,
    {
        match self {
            ConstArg::Int(n) => ConstArg::Int(*n),
            ConstArg::Bool(b) => ConstArg::Bool(*b),
            ConstArg::Str(s) => ConstArg::Str(s.clone()),
        }
    }

    /// Whether two values are the same.
    pub fn is(&self, other: &ConstArg) -> (r: bool)
        ensures
            r == (self@ == other@),
    {
        match (self, other) {
            (ConstArg::Int(a), ConstArg::Int(b)) => *a == *b,
            (ConstArg::Bool(a), ConstArg::Bool(b)) => *a == *b,
            (ConstArg::Str(a), ConstArg::Str(b)) => *a == *b,
            _ => false,
        }
    }
}

// -- which types admit which ------------------------------------------------------------

/// The top type, which an argument nobody wrote stands for.
pub open spec fn top() -> TypeExprV {
    TypeExprV {
        name: TypeNameV::Any,
        args: Seq::empty(),
        applied: false,
        nullable: true,
        frozen: false,
        span: Span { start: 0, end: 0 },
    }
}

/// The argument at a position, or the top type where there is none.
pub open spec fn arg_at(args: Seq<TypeExprV>, i: int) -> TypeExprV {
    if 0 <= i < args.len() {
        args[i]
    } else {
        top()
    }
}

/// Whether two types are the same, however many of their arguments were left out.
pub open spec fn same_type(a: TypeExprV, b: TypeExprV) -> bool
    decreases a,
{
    &&& a.name == b.name
    &&& a.nullable == b.nullable
    &&& same_types(a.args, b.args)
    &&& forall|i: int| a.args.len() <= i < b.args.len() ==> is_top(#[trigger] b.args[i])
}

pub open spec fn is_top(ty: TypeExprV) -> bool {
    ty.name == TypeNameV::Any && ty.nullable && ty.args.len() == 0
}

/// Whether the types at each position of `a` are those at the same position of `b`.
pub open spec fn same_types(a: Seq<TypeExprV>, b: Seq<TypeExprV>) -> bool
    decreases a,
{
    forall|i: int| 0 <= i < a.len() ==> same_type(#[trigger] a[i], arg_at(b, i))
}

/// Whether a type takes everything another does. Only the top type widens, and it
/// takes `nil` only where it says so; every other type takes itself alone.
pub open spec fn admits(wanted: TypeExprV, held: TypeExprV) -> bool {
    if wanted.name == TypeNameV::Any {
        wanted.nullable || !held.nullable
    } else {
        same_type(wanted, held)
    }
}

/// Whether a type's arguments admit those a value is described by.
pub open spec fn arguments_admit(ty: TypeExprV, held: Seq<TypeExprV>) -> bool {
    forall|i: int| 0 <= i < ty.args.len() ==> admits(#[trigger] ty.args[i], arg_at(held, i))
}

/// Whether a type's arguments are exactly those a value is described by.
pub open spec fn same_args(ty: TypeExprV, held: Seq<TypeExprV>) -> bool {
    &&& same_types(ty.args, held)
    &&& forall|i: int| ty.args.len() <= i < held.len() ==> is_top(#[trigger] held[i])
}

pub(crate) fn top_type() -> (r: TypeExpr)
    ensures
        r@ == top(),
{
    let r = TypeExpr {
        name: TypeName::Any,
        args: Vec::new(),
        applied: false,
        nullable: true,
        frozen: false,
        span: Span { start: 0, end: 0 },
    };
    assert(r@.args == type_exprs_v(r.args@));
    r
}

fn top_is(ty: &TypeExpr) -> (r: bool)
    ensures
        r == is_top(ty@),
{
    match &ty.name {
        TypeName::Any => ty.nullable && ty.args.len() == 0,
        _ => false,
    }
}

fn rest_top(tys: &Vec<TypeExpr>, from: usize) -> (r: bool)
    ensures
        r == (forall|i: int|
            from <= i < type_exprs_v(tys@).len() ==> is_top(#[trigger] type_exprs_v(tys@)[i])),
{
    let mut i: usize = from;
    while i < tys.len()
        invariant
            from <= i,
            forall|k: int| from <= k < i ==> is_top(#[trigger] type_exprs_v(tys@)[k]),
        decreases tys@.len() - i,
    {
        if !top_is(&tys[i]) {
            assert(!is_top(type_exprs_v(tys@)[i as int]));
            return false;
        }
        i += 1;
    }
    true
}

/// [`same_type`], decided.
fn types_same(a: &TypeExpr, b: &TypeExpr) -> (r: bool)
    ensures
        r == same_type(a@, b@),
    decreases a,
{
    assert(a@.args == type_exprs_v(a.args@));
    assert(b@.args == type_exprs_v(b.args@));
    if !a.name.is(&b.name) || a.nullable != b.nullable {
        return false;
    }
    let mut i: usize = 0;
    while i < a.args.len()
        invariant
            i <= a.args@.len(),
            forall|k: int|
                0 <= k < i ==> same_type(
                    #[trigger] type_exprs_v(a.args@)[k],
                    arg_at(type_exprs_v(b.args@), k),
                ),
        decreases a.args@.len() - i,
    {
        let ok = if i < b.args.len() {
            types_same(&a.args[i], &b.args[i])
        } else {
            let missing = top_type();
            types_same(&a.args[i], &missing)
        };
        if !ok {
            assert(!same_type(
                type_exprs_v(a.args@)[i as int],
                arg_at(type_exprs_v(b.args@), i as int),
            ));
            return false;
        }
        i += 1;
    }
    rest_top(&b.args, a.args.len())
}

fn is_admitted(wanted: &TypeExpr, held: &TypeExpr) -> (r: bool)
    ensures
        r == admits(wanted@, held@),
{
    match &wanted.name {
        TypeName::Any => wanted.nullable || !held.nullable,
        _ => types_same(wanted, held),
    }
}

/// [`arguments_admit`], decided.
pub fn args_admit(ty: &TypeExpr, held: &Vec<TypeExpr>) -> (r: bool)
    ensures
        r == arguments_admit(ty@, type_exprs_v(held@)),
{
    assert(ty@.args == type_exprs_v(ty.args@));
    let mut i: usize = 0;
    while i < ty.args.len()
        invariant
            i <= ty.args@.len(),
            ty@.args == type_exprs_v(ty.args@),
            forall|k: int|
                0 <= k < i ==> admits(
                    #[trigger] type_exprs_v(ty.args@)[k],
                    arg_at(type_exprs_v(held@), k),
                ),
        decreases ty.args@.len() - i,
    {
        let ok = if i < held.len() {
            is_admitted(&ty.args[i], &held[i])
        } else {
            let missing = top_type();
            is_admitted(&ty.args[i], &missing)
        };
        if !ok {
            assert(!admits(
                type_exprs_v(ty.args@)[i as int],
                arg_at(type_exprs_v(held@), i as int),
            ));
            return false;
        }
        i += 1;
    }
    true
}

/// [`same_args`], decided.
pub fn args_same(ty: &TypeExpr, held: &Vec<TypeExpr>) -> (r: bool)
    ensures
        r == same_args(ty@, type_exprs_v(held@)),
{
    assert(ty@.args == type_exprs_v(ty.args@));
    let mut i: usize = 0;
    while i < ty.args.len()
        invariant
            i <= ty.args@.len(),
            forall|k: int|
                0 <= k < i ==> same_type(
                    #[trigger] type_exprs_v(ty.args@)[k],
                    arg_at(type_exprs_v(held@), k),
                ),
        decreases ty.args@.len() - i,
    {
        let ok = if i < held.len() {
            types_same(&ty.args[i], &held[i])
        } else {
            let missing = top_type();
            types_same(&ty.args[i], &missing)
        };
        if !ok {
            assert(!same_type(
                type_exprs_v(ty.args@)[i as int],
                arg_at(type_exprs_v(held@), i as int),
            ));
            return false;
        }
        i += 1;
    }
    rest_top(held, ty.args.len())
}

// -- what holds --------------------------------------------------------------------------

/// Whether a value may become one of a type at a boundary: `nil` where the type admits
/// it, an int as a float, a described container by its description, and one nothing
/// described by its elements.
pub open spec fn holds(h: HeapV, ty: TypeExprV, v: Value) -> bool
    decreases ty,
{
    if v == Value::Nil {
        ty.nullable
    } else {
        match ty.name {
            TypeNameV::Any => true,
            TypeNameV::Named(name) => (name == "float"@ && v is Int) || (is_a(h, v, name)
                && args_hold(h, ty, base(h, v))),
            _ => false,
        }
    }
}

/// Whether what a value holds is what a type's arguments ask for.
pub open spec fn args_hold(h: HeapV, ty: TypeExprV, v: Value) -> bool
    decreases ty, 0int,
{
    if ty.args.len() == 0 {
        true
    } else {
        match handle_of(v) {
            None => true,
            Some(id) => match h.descriptor(id) {
                Some(d) => arguments_admit(ty, d.args),
                None => match v {
                    Value::List(id) => forall|i: int|
                        0 <= i < h.list(id).len() ==> holds(
                            h,
                            ty.args[0],
                            #[trigger] h.list(id)[i],
                        ),
                    Value::Dict(id) => forall|i: int|
                        0 <= i < h.dict(id).len() ==> holds(
                            h,
                            ty.args[0],
                            (#[trigger] h.dict(id)[i]).key,
                        ) && (ty.args.len() >= 2 ==> holds(h, ty.args[1], h.dict(id)[i].value)),
                    _ => true,
                },
            },
        }
    }
}

impl Heap {
    /// [`holds`], decided.
    pub fn holds(&self, ty: &TypeExpr, v: Value) -> (r: bool)
        ensures
            r == holds(self@, ty@, v),
        decreases ty, 2int, 0int,
    {
        if v == Value::Nil {
            return ty.nullable;
        }
        match &ty.name {
            TypeName::Any => true,
            TypeName::Named(name) => {
                let widens = match v {
                    Value::Int(_) => same(name.as_str(), "float"),
                    _ => false,
                };
                widens || (self.is_a(v, name.as_str()) && self.args_hold(ty, self.base(v)))
            },
            _ => false,
        }
    }

    fn args_hold(&self, ty: &TypeExpr, v: Value) -> (r: bool)
        ensures
            r == args_hold(self@, ty@, v),
        decreases ty, 1int, 0int,
    {
        assert(ty@.args == type_exprs_v(ty.args@));
        if ty.args.len() == 0 {
            return true;
        }
        let id = match v.handle() {
            None => {
                return true;
            },
            Some(id) => id,
        };
        if let Some(d) = self.descriptor(id) {
            assert((*d)@.args == type_exprs_v(d.args@));
            return args_admit(ty, &d.args);
        }
        match v {
            Value::List(id) => self.list_holds(ty, id),
            Value::Dict(id) => self.dict_holds(ty, id),
            _ => true,
        }
    }

    fn list_holds(&self, ty: &TypeExpr, id: ObjId) -> (r: bool)
        requires
            ty.args@.len() > 0,
        ensures
            r == (forall|i: int|
                0 <= i < self@.list(id).len() ==> holds(
                    self@,
                    ty@.args[0],
                    #[trigger] self@.list(id)[i],
                )),
        decreases ty, 0int, 0int,
    {
        let items = self.list(id);
        let mut i: usize = 0;
        assert(ty@.args == type_exprs_v(ty.args@));
        while i < items.len()
            invariant
                i <= items@.len(),
                items@ == self@.list(id),
                ty.args@.len() > 0,
                ty@.args == type_exprs_v(ty.args@),
                forall|k: int|
                    0 <= k < i ==> holds(self@, ty@.args[0], #[trigger] self@.list(id)[k]),
            decreases items@.len() - i,
        {
            if !self.holds(&ty.args[0], items[i]) {
                assert(!holds(self@, ty@.args[0], self@.list(id)[i as int]));
                return false;
            }
            i += 1;
        }
        true
    }

    fn dict_holds(&self, ty: &TypeExpr, id: ObjId) -> (r: bool)
        requires
            ty.args@.len() > 0,
        ensures
            r == (forall|i: int|
                0 <= i < self@.dict(id).len() ==> holds(
                    self@,
                    ty@.args[0],
                    (#[trigger] self@.dict(id)[i]).key,
                ) && (ty@.args.len() >= 2 ==> holds(self@, ty@.args[1], self@.dict(id)[i].value))),
        decreases ty, 0int, 0int,
    {
        let items = self.dict(id);
        let mut i: usize = 0;
        assert(ty@.args == type_exprs_v(ty.args@));
        while i < items.len()
            invariant
                i <= items@.len(),
                items@ == self@.dict(id),
                ty.args@.len() > 0,
                ty@.args == type_exprs_v(ty.args@),
                forall|k: int|
                    0 <= k < i ==> holds(self@, ty@.args[0], (#[trigger] self@.dict(id)[k]).key)
                        && (ty@.args.len() >= 2 ==> holds(
                        self@,
                        ty@.args[1],
                        self@.dict(id)[k].value,
                    )),
            decreases items@.len() - i,
        {
            let entry = items[i];
            if !self.holds(&ty.args[0], entry.key) {
                assert(!holds(self@, ty@.args[0], self@.dict(id)[i as int].key));
                return false;
            }
            if ty.args.len() >= 2 && !self.holds(&ty.args[1], entry.value) {
                assert(!holds(self@, ty@.args[1], self@.dict(id)[i as int].value));
                return false;
            }
            i += 1;
        }
        true
    }
}

// -- refusing -------------------------------------------------------------------------------

/// A noun with its article. `nil` takes none.
pub open spec fn an(noun: Seq<char>) -> Seq<char> {
    if noun == "nil"@ {
        noun
    } else if noun.len() > 0 && (noun[0] == 'a' || noun[0] == 'e' || noun[0] == 'i' || noun[0]
        == 'o' || noun[0] == 'u') {
        "an "@ + noun
    } else {
        "a "@ + noun
    }
}

/// [`an`], computed.
pub fn with_article(noun: &str) -> (r: String)
    ensures
        r@ == an(noun@),
{
    if same(noun, "nil") {
        return noun.to_owned();
    }
    let vowel = if noun.unicode_len() > 0 {
        let c: char = noun.get_char(0);
        c == 'a' || c == 'e' || c == 'i' || c == 'o' || c == 'u'
    } else {
        false
    };
    let mut r = String::from_str(
        if vowel {
            "an "
        } else {
            "a "
        },
    );
    r.append(noun);
    r
}

/// What a refused value is called: by its description where that is what was wrong
/// with it, and by its type otherwise.
pub open spec fn called(h: HeapV, ty: TypeExprV, v: Value) -> Seq<char> {
    match handle_of(base(h, v)) {
        Some(id) => match h.descriptor(id) {
            Some(d) => if ty.name == TypeNameV::Named(type_text(h, v)) {
                "`"@ + written(d) + "`"@
            } else {
                an(type_text(h, v))
            },
            None => an(type_text(h, v)),
        },
        None => an(type_text(h, v)),
    }
}

/// The sentence for a value that does not hold a type.
pub open spec fn refusal(h: HeapV, ty: TypeExprV, v: Value, what: Seq<char>) -> Seq<char> {
    what + " is `"@ + written(ty) + "`, but this is "@ + called(h, ty, v)
}

/// What helps where `nil` was refused.
pub open spec fn refusal_help(ty: TypeExprV, v: Value) -> Option<Seq<char>> {
    if v == Value::Nil {
        Some("write `"@ + written(ty) + "?` if it may be absent"@)
    } else {
        None
    }
}

impl Heap {
    fn called(&self, ty: &TypeExpr, v: Value) -> (r: String)
        ensures
            r@ == called(self@, ty@, v),
    {
        let kind = self.type_text(v);
        if let Some(id) = self.base(v).handle() {
            if let Some(d) = self.descriptor(id) {
                let named = match &ty.name {
                    TypeName::Named(name) => *name == kind,
                    _ => false,
                };
                if named {
                    let mut r = String::from_str("`");
                    let text = d.written();
                    r.append(text.as_str());
                    r.append("`");
                    return r;
                }
            }
        }
        with_article(kind.as_str())
    }

    /// [`refusal`], computed.
    pub fn refusal(&self, ty: &TypeExpr, v: Value, what: &str) -> (r: String)
        ensures
            r@ == refusal(self@, ty@, v, what@),
    {
        let mut r = String::from_str(what);
        r.append(" is `");
        let wanted = ty.written();
        r.append(wanted.as_str());
        r.append("`, but this is ");
        let found = self.called(ty, v);
        r.append(found.as_str());
        r
    }
}

// -- laws ------------------------------------------------------------------------------------

/// A type is the same as itself.
pub proof fn law_a_type_is_itself(ty: TypeExprV)
    ensures
        same_type(ty, ty),
    decreases ty,
{
    assert forall|i: int| 0 <= i < ty.args.len() implies same_type(
        #[trigger] ty.args[i],
        arg_at(ty.args, i),
    ) by {
        law_a_type_is_itself(ty.args[i]);
    }
}

/// The top type that says `?` admits every type, and leaving an argument out says
/// the same as writing it.
pub proof fn law_the_top_type_admits_everything(held: TypeExprV)
    ensures
        admits(top(), held),
        arg_at(Seq::empty(), 0) == top(),
{
}

/// Every value holds the top type that admits `nil`.
pub proof fn law_everything_holds_the_top_type(h: HeapV, v: Value)
    ensures
        holds(h, top(), v),
{
}

/// A value a type admits as `nil` is admitted exactly when the type says `?`.
pub proof fn law_nil_needs_a_question_mark(h: HeapV, ty: TypeExprV)
    ensures
        holds(h, ty, Value::Nil) == ty.nullable,
{
}

} // verus!
