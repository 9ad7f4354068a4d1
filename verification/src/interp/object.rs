//! Reaching a member of a value: field or method, declared, inherited or added by an
//! `extend` block, and who may.

use crate::error::{err, err_help, res, ErrV, ErrorKind, LabelV, QuinceError};
use crate::interp::error::helped_type_error;
use crate::interp::state::{ExtensionV, Interp, St, WithheldV};
use crate::runtime::class::{builtin_base, class_of, descends, lineage, method_in, type_text};
use crate::runtime::heap::HeapV;
use crate::runtime::object::{lookup, nameds_v, Named, NamedV};
use crate::runtime::scope::var_of;
use crate::runtime::types::{an, with_article};
use crate::runtime::value::{Builtin, ObjId, Value};
use crate::syntax::ast::{
    field_decls_v, group_models, FieldDecl, FieldDeclV, FnDecl, FnDeclV, Op, Visibility,
};
use crate::syntax::token::Span;
use crate::text::{cat2, cat3, cat4, cat5, cat7, join, joined, same, sort, sorted, strs};
use vstd::prelude::*;

verus! {

broadcast use group_models;

/// What a dot found. A method is handed the receiver when it is called; a field is not.
#[derive(Clone, Copy, Debug, PartialEq, Eq, Structural)]
pub enum Attr {
    Field(Value),
    Method(Value),
}

impl Attr {
    pub open spec fn found(self) -> Value {
        match self {
            Attr::Field(v) => v,
            Attr::Method(v) => v,
        }
    }

    pub fn value(self) -> (r: Value)
        ensures
            r == self.found(),
    {
        match self {
            Attr::Field(v) => v,
            Attr::Method(v) => v,
        }
    }
}

// -- extensions ------------------------------------------------------------------------

/// The method added to a class under a name.
pub open spec fn extension(s: Seq<ExtensionV>, class: ObjId, name: Seq<char>, from: int) -> Option<
    Value,
>
    decreases s.len() - from,
{
    if from < 0 || from >= s.len() {
        None
    } else if s[from].class == class && s[from].name == name {
        Some(s[from].method)
    } else {
        extension(s, class, name, from + 1)
    }
}

/// The method added to a class or to one it extends.
pub open spec fn extension_in(st: St, id: ObjId, name: Seq<char>, n: nat) -> Option<Value>
    decreases n,
{
    if n == 0 {
        None
    } else {
        match extension(st.extensions, id, name, 0) {
            Some(v) => Some(v),
            None => match st.heap.class(id).parent {
                Some(parent) => extension_in(st, parent, name, (n - 1) as nat),
                None => None,
            },
        }
    }
}

/// The method a class answers to under a name. A declared method, however far up,
/// comes before an added one.
pub open spec fn s_find_method(st: St, id: ObjId, name: Seq<char>) -> Option<Value> {
    match method_in(st.heap, id, name, st.heap.cells.len()) {
        Some(v) => Some(v),
        None => extension_in(st, id, name, st.heap.cells.len()),
    }
}

// -- visibility --------------------------------------------------------------------------

/// What a field was declared with.
pub open spec fn field_visibility(s: Seq<FieldDeclV>, name: Seq<char>, from: int) -> Option<
    Visibility,
>
    decreases s.len() - from,
{
    if from < 0 || from >= s.len() {
        None
    } else if s[from].name == name {
        Some(s[from].visibility)
    } else {
        field_visibility(s, name, from + 1)
    }
}

pub open spec fn own_field_visibility(h: HeapV, id: ObjId, name: Seq<char>) -> Option<Visibility> {
    match h.class(id).decl {
        Some(decl) => field_visibility(decl.fields, name, 0),
        None => None,
    }
}

pub open spec fn own_method_visibility(h: HeapV, id: ObjId, name: Seq<char>) -> Option<Visibility> {
    match lookup(h.class(id).methods, name) {
        Some(Value::Function(f)) => match h.function(f) {
            Some(f) => Some(f.decl.visibility),
            None => None,
        },
        _ => None,
    }
}

/// What a member was declared with, and the class that declares it.
pub open spec fn declared_reach(h: HeapV, id: ObjId, name: Seq<char>, n: nat) -> Option<
    (Visibility, ObjId),
>
    decreases n,
{
    if n == 0 {
        None
    } else {
        match own_field_visibility(h, id, name) {
            Some(v) => Some((v, id)),
            None => match own_method_visibility(h, id, name) {
                Some(v) => Some((v, id)),
                None => match h.class(id).parent {
                    Some(parent) => declared_reach(h, parent, name, (n - 1) as nat),
                    None => None,
                },
            },
        }
    }
}

/// Whether code running in the methods of `from` may reach a member of `owner`.
pub open spec fn admitted_inside(h: HeapV, from: Option<ObjId>, visibility: Visibility, owner: ObjId) -> bool {
    match from {
        Some(from) => from == owner || (!visibility.is_closed_to_subclass() && descends(
            h,
            from,
            owner,
            h.cells.len(),
        )),
        None => false,
    }
}

pub open spec fn innermost(s: Seq<Option<ObjId>>) -> Option<ObjId> {
    if s.len() > 0 {
        s.last()
    } else {
        None
    }
}

pub open spec fn closed_word(visibility: Visibility) -> Seq<char> {
    if visibility == Visibility::Private {
        "private"@
    } else {
        "protected"@
    }
}

pub open spec fn unreachable_member(
    whose: Seq<char>,
    name: Seq<char>,
    visibility: Visibility,
    span: Span,
) -> ErrV {
    err_help(
        ErrorKind::Visibility,
        "`"@ + name + "` is "@ + closed_word(visibility) + " to `"@ + whose + "`"@,
        span,
        if visibility == Visibility::Private {
            "only methods declared inside `"@ + whose
                + "` may reach it — a method on a subclass is outside, and so is an `extend` block"@
        } else {
            "only methods of `"@ + whose + "` and of the classes extending it may reach it"@
        },
    )
}

/// Whether the code that is running may reach a member.
pub open spec fn s_may_reach(st: St, class: ObjId, name: Seq<char>, span: Span) -> Result<(), ErrV> {
    match declared_reach(st.heap, class, name, st.heap.cells.len()) {
        None => Ok(()),
        Some((visibility, owner)) => if !visibility.is_closed_outside() || admitted_inside(
            st.heap,
            innermost(st.reaching),
            visibility,
            owner,
        ) {
            Ok(())
        } else {
            Err(unreachable_member(st.heap.class(owner).name, name, visibility, span))
        },
    }
}

// -- modules ------------------------------------------------------------------------------

pub open spec fn is_withheld(s: Seq<WithheldV>, scope: ObjId, name: Seq<char>, from: int) -> bool
    decreases s.len() - from,
{
    if from < 0 || from >= s.len() {
        false
    } else if s[from].scope == scope && s[from].name == name {
        true
    } else {
        is_withheld(s, scope, name, from + 1)
    }
}

pub open spec fn module_word(h: HeapV, id: ObjId) -> Seq<char> {
    match h.scope(id).name {
        Some(name) => name,
        None => "module"@,
    }
}

/// Whether a module exports a name it declares.
pub open spec fn s_may_import(st: St, id: ObjId, name: Seq<char>, span: Span) -> Result<(), ErrV> {
    if is_withheld(st.withheld, id, name, 0) {
        let module = module_word(st.heap, id);
        Err(
            err_help(
                ErrorKind::Visibility,
                "`"@ + module + "` does not export `"@ + name + "`"@,
                span,
                "it is declared, and declared `private` — write `public` in front of it in `"@
                    + module + "` for other files to reach it"@,
            ),
        )
    } else {
        Ok(())
    }
}

pub open spec fn not_in_module(module: Seq<char>, name: Seq<char>, span: Span) -> ErrV {
    err(ErrorKind::Attr, "`"@ + module + "` declares nothing called `"@ + name + "`"@, span)
}

/// The value a module declares under a name.
pub open spec fn module_value(h: HeapV, id: ObjId, name: Seq<char>) -> Option<Value> {
    match var_of(h, id, name) {
        Some(var) => var.value,
        None => None,
    }
}

// -- members ------------------------------------------------------------------------------

/// The names of named values.
pub open spec fn names_of(s: Seq<NamedV>) -> Seq<Seq<char>> {
    Seq::new(s.len(), |i: int| s[i].name)
}

/// The names of the methods classes declare, class by class.
pub open spec fn method_names(h: HeapV, classes: Seq<ObjId>) -> Seq<Seq<char>>
    decreases classes.len(),
{
    if classes.len() == 0 {
        Seq::empty()
    } else {
        method_names(h, classes.drop_last()) + names_of(h.class(classes.last()).methods)
    }
}

/// Everything a dot could have found on a value.
pub open spec fn member_names(h: HeapV, v: Value) -> Seq<Seq<char>> {
    let class = match v {
        Value::Class(id) => id,
        _ => class_of(h, v),
    };
    let fields = match v {
        Value::Instance(id) => names_of(h.instance(id).fields),
        _ => Seq::empty(),
    };
    fields + method_names(h, lineage(h, class, h.cells.len()))
}

/// Where a member access stands: what it is reached on, its name, and the whole.
#[derive(Clone, Copy, PartialEq, Eq, Structural)]
pub struct DotSpans {
    pub target: Span,
    pub name: Span,
    pub whole: Span,
}

pub open spec fn labelled(span: Span, text: Seq<char>) -> Seq<LabelV> {
    if span.start < span.end {
        seq![LabelV { span, text }]
    } else {
        Seq::empty()
    }
}

/// The report for a member that is not there.
pub open spec fn no_attr(h: HeapV, v: Value, name: Seq<char>, at: DotSpans) -> ErrV {
    let kind = type_text(h, v);
    let members = member_names(h, v);
    ErrV {
        labels: labelled(at.target, kind) + labelled(
            at.name,
            "no field or method `"@ + name + "`"@,
        ),
        ..err_help(
            ErrorKind::Attr,
            kind + " has "@ + (if v is Instance {
                "no field or method"@
            } else {
                "no method"@
            }) + " `"@ + name + "`"@,
            at.whole,
            if members.len() == 0 {
                kind + " has no members to reach"@
            } else {
                "it has: "@ + joined(sorted(members), ", "@)
            },
        )
    }
}

/// What `v.name` is. Fields come before methods, and a module and a class hand out
/// what they hold as it is.
pub open spec fn s_attr(st: St, v: Value, name: Seq<char>, at: DotSpans) -> Result<Attr, ErrV> {
    match v {
        Value::Module(id) => match module_value(st.heap, id, name) {
            Some(value) => match s_may_import(st, id, name, at.name) {
                Ok(_) => Ok(Attr::Field(value)),
                Err(e) => Err(e),
            },
            None => Err(not_in_module(module_word(st.heap, id), name, at.name)),
        },
        Value::Class(id) => match s_find_method(st, id, name) {
            Some(method) => Ok(Attr::Field(method)),
            None => Err(no_attr(st.heap, v, name, at)),
        },
        _ => match own_field(st.heap, v, name) {
            Some(value) => match s_may_reach(st, class_of(st.heap, v), name, at.name) {
                Ok(_) => Ok(Attr::Field(value)),
                Err(e) => Err(e),
            },
            None => match s_find_method(st, class_of(st.heap, v), name) {
                Some(method) => match s_may_reach(st, class_of(st.heap, v), name, at.name) {
                    Ok(_) => Ok(Attr::Method(method)),
                    Err(e) => Err(e),
                },
                None => Err(no_attr(st.heap, v, name, at)),
            },
        },
    }
}

/// The field an instance holds under a name.
pub open spec fn own_field(h: HeapV, v: Value, name: Seq<char>) -> Option<Value> {
    match v {
        Value::Instance(id) => lookup(h.instance(id).fields, name),
        _ => None,
    }
}

impl Interp {
    pub(crate) fn find_extension(&self, class: ObjId, name: &str) -> (r: Option<Value>)
        ensures
            r == extension(self@.extensions, class, name@, 0),
    {
        let mut i: usize = 0;
        while i < self.extensions.len()
            invariant
                i <= self.extensions@.len(),
                extension(self@.extensions, class, name@, 0) == extension(
                    self@.extensions,
                    class,
                    name@,
                    i as int,
                ),
            decreases self.extensions@.len() - i,
        {
            if self.extensions[i].class == class && same(self.extensions[i].name.as_str(), name) {
                return Some(self.extensions[i].method);
            }
            i += 1;
        }
        None
    }

    fn extension_in(&self, id: ObjId, name: &str) -> (r: Option<Value>)
        ensures
            r == extension_in(self@, id, name@, self@.heap.cells.len()),
    {
        let mut n: usize = self.heap.cells.len();
        let mut at: ObjId = id;
        while n > 0
            invariant
                extension_in(self@, id, name@, self@.heap.cells.len()) == extension_in(
                    self@,
                    at,
                    name@,
                    n as nat,
                ),
            decreases n,
        {
            if let Some(v) = self.find_extension(at, name) {
                return Some(v);
            }
            match self.heap.class_parent(at) {
                Some(parent) => {
                    at = parent;
                },
                None => {
                    return None;
                },
            }
            n -= 1;
        }
        None
    }

    /// The method a class answers to under a name.
    pub(crate) fn find_method(&self, id: ObjId, name: &str) -> (r: Option<Value>)
        ensures
            r == s_find_method(self@, id, name@),
    {
        match self.heap.method_in(id, name) {
            Some(v) => Some(v),
            None => self.extension_in(id, name),
        }
    }

    fn own_field_visibility(&self, id: ObjId, name: &str) -> (r: Option<Visibility>)
        ensures
            r == own_field_visibility(self@.heap, id, name@),
    {
        match self.heap.class_decl(id) {
            Some(decl) => {
                let fields: &Vec<FieldDecl> = &decl.fields;
                let mut i: usize = 0;
                while i < fields.len()
                    invariant
                        i <= fields@.len(),
                        *fields == decl.fields,
                        self@.heap.class(id).decl matches Some(d) && d.fields == field_decls_v(
                            fields@,
                        ),
                        field_visibility(field_decls_v(fields@), name@, 0) == field_visibility(
                            field_decls_v(fields@),
                            name@,
                            i as int,
                        ),
                    decreases fields@.len() - i,
                {
                    if same(fields[i].name.as_str(), name) {
                        return Some(fields[i].visibility);
                    }
                    i += 1;
                }
                None
            },
            None => None,
        }
    }

    fn own_method_visibility(&self, id: ObjId, name: &str) -> (r: Option<Visibility>)
        ensures
            r == own_method_visibility(self@.heap, id, name@),
    {
        match self.heap.own_method(id, name) {
            Some(Value::Function(f)) => match self.heap.function(f) {
                Some((decl, _env, _owner)) => Some(decl.visibility),
                None => None,
            },
            _ => None,
        }
    }

    fn declared_reach(&self, id: ObjId, name: &str) -> (r: Option<(Visibility, ObjId)>)
        ensures
            r == declared_reach(self@.heap, id, name@, self@.heap.cells.len()),
    {
        let mut n: usize = self.heap.cells.len();
        let mut at: ObjId = id;
        while n > 0
            invariant
                declared_reach(self@.heap, id, name@, self@.heap.cells.len()) == declared_reach(
                    self@.heap,
                    at,
                    name@,
                    n as nat,
                ),
            decreases n,
        {
            if let Some(v) = self.own_field_visibility(at, name) {
                return Some((v, at));
            }
            if let Some(v) = self.own_method_visibility(at, name) {
                return Some((v, at));
            }
            match self.heap.class_parent(at) {
                Some(parent) => {
                    at = parent;
                },
                None => {
                    return None;
                },
            }
            n -= 1;
        }
        None
    }

    /// Whether the code that is running may reach a member.
    pub(crate) fn may_reach(&self, class: ObjId, name: &str, span: Span) -> (r: Result<
        (),
        QuinceError,
    >)
        ensures
            res(r) == s_may_reach(self@, class, name@, span),
    {
        let (visibility, owner) = match self.declared_reach(class, name) {
            None => {
                return Ok(());
            },
            Some(found) => found,
        };
        if !visibility.closes_outside() {
            return Ok(());
        }
        let from: Option<ObjId> = if self.reaching.len() > 0 {
            self.reaching[self.reaching.len() - 1]
        } else {
            None
        };
        let allowed = match from {
            Some(from) => from == owner || (!visibility.closes_subclass() && self.heap.descends(
                from,
                owner,
            )),
            None => false,
        };
        if allowed {
            return Ok(());
        }
        let whose = self.heap.class_name(owner);
        let private = visibility == Visibility::Private;
        let word = if private {
            "private"
        } else {
            "protected"
        };
        let message = cat7("`", name, "` is ", word, " to `", whose.as_str(), "`");
        let help = if private {
            cat3(
                "only methods declared inside `",
                whose.as_str(),
                "` may reach it — a method on a subclass is outside, and so is an `extend` block",
            )
        } else {
            cat3(
                "only methods of `",
                whose.as_str(),
                "` and of the classes extending it may reach it",
            )
        };
        Err(QuinceError::new(ErrorKind::Visibility, message, span).with_help(help))
    }

    fn is_withheld(&self, scope: ObjId, name: &str) -> (r: bool)
        ensures
            r == is_withheld(self@.withheld, scope, name@, 0),
    {
        let mut i: usize = 0;
        while i < self.withheld.len()
            invariant
                i <= self.withheld@.len(),
                is_withheld(self@.withheld, scope, name@, 0) == is_withheld(
                    self@.withheld,
                    scope,
                    name@,
                    i as int,
                ),
            decreases self.withheld@.len() - i,
        {
            if self.withheld[i].scope == scope && same(self.withheld[i].name.as_str(), name) {
                return true;
            }
            i += 1;
        }
        false
    }

    pub(crate) fn module_word(&self, id: ObjId) -> (r: String)
        ensures
            r@ == module_word(self@.heap, id),
    {
        match self.heap.scope_name(id) {
            Some(name) => name,
            None => "module".to_owned(),
        }
    }

    /// Whether a module exports a name it declares.
    pub(crate) fn may_import(&self, id: ObjId, name: &str, span: Span) -> (r: Result<
        (),
        QuinceError,
    >)
        ensures
            res(r) == s_may_import(self@, id, name@, span),
    {
        if !self.is_withheld(id, name) {
            return Ok(());
        }
        let module = self.module_word(id);
        let message = cat5("`", module.as_str(), "` does not export `", name, "`");
        let help = cat3(
            "it is declared, and declared `private` — write `public` in front of it in `",
            module.as_str(),
            "` for other files to reach it",
        );
        Err(QuinceError::new(ErrorKind::Visibility, message, span).with_help(help))
    }

    pub(crate) fn module_value(&self, id: ObjId, name: &str) -> (r: Option<Value>)
        ensures
            r == module_value(self@.heap, id, name@),
    {
        match self.heap.var(id, name) {
            Some((value, _bind, _ty)) => value,
            None => None,
        }
    }

    fn method_names(&self, classes: &Vec<ObjId>) -> (r: Vec<String>)
        ensures
            strs(r@) == method_names(self@.heap, classes@),
    {
        let mut r: Vec<String> = Vec::new();
        let mut i: usize = 0;
        assert(strs(r@) =~= method_names(self@.heap, classes@.take(0)));
        while i < classes.len()
            invariant
                i <= classes@.len(),
                strs(r@) == method_names(self@.heap, classes@.take(i as int)),
            decreases classes@.len() - i,
        {
            self.push_method_names(classes[i], &mut r);
            proof {
                let longer = classes@.take(i + 1);
                assert(longer.drop_last() =~= classes@.take(i as int));
                assert(longer.last() == classes@[i as int]);
            }
            i += 1;
        }
        assert(classes@.take(i as int) =~= classes@);
        r
    }

    fn push_method_names(&self, class: ObjId, out: &mut Vec<String>)
        ensures
            strs(final(out)@) == strs(old(out)@) + names_of(self@.heap.class(class).methods),
    {
        let ghost before = strs(out@);
        match self.heap.object(class) {
            Some(crate::runtime::object::Object::Class(c)) => {
                push_names(&c.methods, out);
            },
            _ => {
                assert(strs(out@) =~= before + names_of(self@.heap.class(class).methods));
            },
        }
    }

    fn member_names(&self, v: Value) -> (r: Vec<String>)
        ensures
            strs(r@) == member_names(self@.heap, v),
    {
        let class = match v {
            Value::Class(id) => id,
            _ => self.heap.class_of(v),
        };
        let mut r: Vec<String> = Vec::new();
        assert(strs(r@) =~= Seq::empty());
        if let Value::Instance(id) = v {
            match self.heap.object(id) {
                Some(crate::runtime::object::Object::Instance(x)) => {
                    push_names(&x.fields, &mut r);
                },
                _ => {},
            }
        }
        assert(strs(r@) =~= match v {
            Value::Instance(id) => names_of(self@.heap.instance(id).fields),
            _ => Seq::empty(),
        });
        let classes = self.heap.lineage(class);
        let mut methods = self.method_names(&classes);
        let ghost fields = strs(r@);
        let ghost more = strs(methods@);
        r.append(&mut methods);
        assert(strs(r@) =~= fields + more);
        r
    }

    pub(crate) fn no_attr(&self, v: Value, name: &str, at: DotSpans) -> (r: QuinceError)
        ensures
            r@ == no_attr(self@.heap, v, name@, at),
    {
        let kind = self.heap.type_text(v);
        let what = match v {
            Value::Instance(_) => "no field or method",
            _ => "no method",
        };
        let mut message = cat3(kind.as_str(), " has ", what);
        message.append(" `");
        message.append(name);
        message.append("`");
        let members = self.member_names(v);
        let help = if members.len() == 0 {
            cat2(kind.as_str(), " has no members to reach")
        } else {
            let ordered = sort(&members);
            let list = join(&ordered, ", ");
            cat2("it has: ", list.as_str())
        };
        let mut r = QuinceError::new(ErrorKind::Attr, message, at.whole).with_help(help);
        if at.target.start < at.target.end {
            r = r.with_label(at.target, kind);
        }
        if at.name.start < at.name.end {
            r = r.with_label(at.name, cat3("no field or method `", name, "`"));
        }
        assert(r@.labels =~= no_attr(self@.heap, v, name@, at).labels);
        r
    }

    /// What `v.name` is.
    pub(crate) fn attr(&self, v: Value, name: &str, at: DotSpans) -> (r: Result<Attr, QuinceError>)
        ensures
            res(r) == s_attr(self@, v, name@, at),
    {
        match v {
            Value::Module(id) => match self.module_value(id, name) {
                Some(value) => {
                    self.may_import(id, name, at.name)?;
                    Ok(Attr::Field(value))
                },
                None => {
                    let module = self.module_word(id);
                    Err(
                        QuinceError::new(
                            ErrorKind::Attr,
                            cat5("`", module.as_str(), "` declares nothing called `", name, "`"),
                            at.name,
                        ),
                    )
                },
            },
            Value::Class(id) => match self.find_method(id, name) {
                Some(method) => Ok(Attr::Field(method)),
                None => Err(self.no_attr(v, name, at)),
            },
            _ => {
                let class = self.heap.class_of(v);
                let field = match v {
                    Value::Instance(id) => self.heap.field(id, name),
                    _ => None,
                };
                if let Some(value) = field {
                    self.may_reach(class, name, at.name)?;
                    return Ok(Attr::Field(value));
                }
                match self.find_method(class, name) {
                    Some(method) => {
                        self.may_reach(class, name, at.name)?;
                        Ok(Attr::Method(method))
                    },
                    None => Err(self.no_attr(v, name, at)),
                }
            },
        }
    }
}

fn push_names(s: &Vec<Named>, out: &mut Vec<String>)
    ensures
        strs(final(out)@) == strs(old(out)@) + names_of(nameds_v(s@)),
{
    let ghost before = strs(out@);
    let ghost all = names_of(nameds_v(s@));
    let mut i: usize = 0;
    assert(strs(out@) =~= before + all.take(0));
    while i < s.len()
        invariant
            i <= s@.len(),
            all == names_of(nameds_v(s@)),
            strs(out@) == before + all.take(i as int),
        decreases s@.len() - i,
    {
        let ghost so_far = strs(out@);
        out.push(s[i].name.clone());
        assert(strs(out@) =~= so_far.push(all[i as int]));
        assert(strs(out@) =~= before + all.take(i + 1));
        i += 1;
    }
    assert(all.take(i as int) =~= all);
}

// -- super ----------------------------------------------------------------------------------

/// The method `super.name` reaches.
pub open spec fn s_super_method(st: St, id: ObjId, name: Seq<char>, span: Span) -> Result<Value, ErrV> {
    match s_find_method(st, id, name) {
        Some(m) => Ok(m),
        None => {
            let parent = st.heap.class(id).name;
            let names = method_names(st.heap, lineage(st.heap, id, st.heap.cells.len()));
            Err(
                err_help(
                    ErrorKind::Attr,
                    parent + " has no method `"@ + name + "`"@,
                    span,
                    if names.len() == 0 {
                        "`"@ + parent + "` declares no methods, so `super` reaches nothing here"@
                    } else {
                        "`"@ + parent + "` has: "@ + joined(sorted(names), ", "@)
                    },
                ),
            )
        },
    }
}

/// The report for a value whose class extends a builtin and was never given one.
pub open spec fn no_payload(st: St, id: ObjId, span: Span) -> ErrV {
    let class = st.heap.instance(id).class;
    let name = st.heap.class(class).name;
    let kind = match builtin_base(st.heap, class, st.heap.cells.len()) {
        Some(b) => b.spelled(),
        None => "value"@,
    };
    err_help(
        ErrorKind::Type,
        "`"@ + name + "` was never given "@ + an(kind),
        span,
        "`"@ + name + "` extends `"@ + kind
            + "`, so its `op init` must call `super.init` before it is used"@,
    )
}

impl Interp {
    pub(crate) fn super_method(&self, id: ObjId, name: &str, span: Span) -> (r: Result<
        Value,
        QuinceError,
    >)
        ensures
            res(r) == s_super_method(self@, id, name@, span),
    {
        if let Some(m) = self.find_method(id, name) {
            return Ok(m);
        }
        let parent = self.heap.class_name(id);
        let classes = self.heap.lineage(id);
        let names = self.method_names(&classes);
        let help = if names.len() == 0 {
            cat3(
                "`",
                parent.as_str(),
                "` declares no methods, so `super` reaches nothing here",
            )
        } else {
            let ordered = sort(&names);
            let list = join(&ordered, ", ");
            cat4("`", parent.as_str(), "` has: ", list.as_str())
        };
        let message = cat4(parent.as_str(), " has no method `", name, "`");
        Err(QuinceError::new(ErrorKind::Attr, message, span).with_help(help))
    }

    pub(crate) fn no_payload(&self, id: ObjId, span: Span) -> (r: QuinceError)
        ensures
            r@ == no_payload(self@, id, span),
    {
        let class = self.heap.instance_class(id);
        let name = self.heap.class_name(class);
        let kind = match self.heap.builtin_base(class) {
            Some(b) => b.name(),
            None => "value",
        };
        let noun = with_article(kind);
        let help = cat5(
            "`",
            name.as_str(),
            "` extends `",
            kind,
            "`, so its `op init` must call `super.init` before it is used",
        );
        QuinceError::new(
            ErrorKind::Type,
            cat4("`", name.as_str(), "` was never given ", noun.as_str()),
            span,
        ).with_help(help)
    }
}

// -- extending --------------------------------------------------------------------------------

/// Whether a builtin type already means something by an op.
pub open spec fn natively(builtin: Builtin, op: Op) -> bool {
    match op {
        Op::Init | Op::Eq | Op::Bool | Op::Str => true,
        Op::Add => builtin == Builtin::Int || builtin == Builtin::Float || builtin == Builtin::Str
            || builtin == Builtin::List,
        Op::Sub | Op::Mul | Op::Div | Op::FloorDiv | Op::Rem | Op::Pow | Op::Neg | Op::Int
        | Op::Float => builtin == Builtin::Int || builtin == Builtin::Float,
        Op::Lt | Op::Gt | Op::Cmp => builtin == Builtin::Int || builtin == Builtin::Float || builtin
            == Builtin::Str,
        Op::BitNot | Op::BitAnd | Op::BitOr | Op::BitXor | Op::BitShl | Op::BitShr => builtin
            == Builtin::Int,
        Op::Contains | Op::Get => builtin == Builtin::Str || builtin == Builtin::List || builtin
            == Builtin::Dict,
        Op::Put | Op::Iter => builtin == Builtin::List || builtin == Builtin::Dict,
        Op::List => builtin == Builtin::List,
        Op::Dict => builtin == Builtin::Dict,
    }
}

fn natively_supports(builtin: Builtin, op: Op) -> (r: bool)
    ensures
        r == natively(builtin, op),
{
    let number = builtin == Builtin::Int || builtin == Builtin::Float;
    let container = builtin == Builtin::List || builtin == Builtin::Dict;
    match op {
        Op::Init => true,
        Op::Eq => true,
        Op::Bool => true,
        Op::Str => true,
        Op::Add => number || builtin == Builtin::Str || builtin == Builtin::List,
        Op::Sub => number,
        Op::Mul => number,
        Op::Div => number,
        Op::FloorDiv => number,
        Op::Rem => number,
        Op::Pow => number,
        Op::Neg => number,
        Op::Int => number,
        Op::Float => number,
        Op::Lt => number || builtin == Builtin::Str,
        Op::Gt => number || builtin == Builtin::Str,
        Op::Cmp => number || builtin == Builtin::Str,
        Op::BitNot => builtin == Builtin::Int,
        Op::BitAnd => builtin == Builtin::Int,
        Op::BitOr => builtin == Builtin::Int,
        Op::BitXor => builtin == Builtin::Int,
        Op::BitShl => builtin == Builtin::Int,
        Op::BitShr => builtin == Builtin::Int,
        Op::Contains => container || builtin == Builtin::Str,
        Op::Get => container || builtin == Builtin::Str,
        Op::Put => container,
        Op::Iter => container,
        Op::List => builtin == Builtin::List,
        Op::Dict => builtin == Builtin::Dict,
    }
}

pub open spec fn has_op(h: HeapV, id: ObjId, op: Op) -> bool {
    h.class_slot(id, op) is Some || match h.class(id).builtin {
        Some(b) => natively(b, op),
        None => false,
    }
}

/// Whether a class may be given a method from outside: it has to be open to that, and
/// nothing it already means may be replaced.
pub open spec fn s_may_extend(st: St, id: ObjId, decl: FnDeclV, span: Span) -> Result<(), ErrV> {
    let name = st.heap.class(id).name;
    if st.heap.class(id).openness.is_closed_to_extension() {
        Err(
            err_help(
                ErrorKind::Type,
                name + " cannot be extended"@,
                span,
                "`"@ + name + "` is declared `"@ + st.heap.class(id).openness.spelled()
                    + "`, and a method added from outside is exactly what that closes — declare this one in the class body"@,
            ),
        )
    } else if decl.op is Some && has_op(st.heap, id, decl.op->0) {
        Err(
            err_help(
                ErrorKind::Type,
                "`"@ + name + "` natively supports `op "@ + decl.op->0.spelled()
                    + "` and cannot be overridden by an extension"@,
                span,
                "an extension may only add ops that the type does not already natively support"@,
            ),
        )
    } else if decl.op is None && method_in(st.heap, id, decl.name, st.heap.cells.len()) is Some {
        Err(
            err_help(
                ErrorKind::Type,
                name + " already has a method `"@ + decl.name + "`"@,
                span,
                "an extension adds to a type and never replaces part of it, because every existing call would quietly start meaning something else — give this one another name"@,
            ),
        )
    } else if extension(st.extensions, id, decl.name, 0) is Some {
        Err(
            err_help(
                ErrorKind::Type,
                name + " has already been extended with `"@ + decl.name + "`"@,
                span,
                "the first `extend` won, and this one would replace it just as silently"@,
            ),
        )
    } else {
        Ok(())
    }
}

impl Interp {
    /// [`s_may_extend`], decided.
    pub(crate) fn may_extend(&self, id: ObjId, decl: &FnDecl, span: Span) -> (r: Result<
        (),
        QuinceError,
    >)
        ensures
            res(r) == s_may_extend(self@, id, decl@, span),
    {
        let name = self.heap.class_name(id);
        let openness = self.heap.class_openness(id);
        if openness.closes_extension() {
            let help = cat5(
                "`",
                name.as_str(),
                "` is declared `",
                openness.word(),
                "`, and a method added from outside is exactly what that closes — declare this one in the class body",
            );
            return Err(
                helped_type_error(
                    cat2(name.as_str(), " cannot be extended"),
                    span,
                    help.as_str(),
                ),
            );
        }
        if let Some(op) = decl.op {
            let native = match self.heap.class_builtin(id) {
                Some(b) => natively_supports(b, op),
                None => false,
            };
            if native || self.heap.class_slot(id, op).is_some() {
                return Err(
                    helped_type_error(
                        cat5(
                            "`",
                            name.as_str(),
                            "` natively supports `op ",
                            op.name(),
                            "` and cannot be overridden by an extension",
                        ),
                        span,
                        "an extension may only add ops that the type does not already natively support",
                    ),
                );
            }
        } else if self.heap.method_in(id, decl.name.as_str()).is_some() {
            return Err(
                helped_type_error(
                    cat4(name.as_str(), " already has a method `", decl.name.as_str(), "`"),
                    span,
                    "an extension adds to a type and never replaces part of it, because every existing call would quietly start meaning something else — give this one another name",
                ),
            );
        }
        if self.find_extension(id, decl.name.as_str()).is_some() {
            return Err(
                helped_type_error(
                    cat4(
                        name.as_str(),
                        " has already been extended with `",
                        decl.name.as_str(),
                        "`",
                    ),
                    span,
                    "the first `extend` won, and this one would replace it just as silently",
                ),
            );
        }
        Ok(())
    }
}

// -- laws ----------------------------------------------------------------------------------------

/// A declared method comes before one an `extend` block added, whichever class in the
/// chain either belongs to.
pub proof fn law_a_declared_method_beats_an_extension(st: St, id: ObjId, name: Seq<char>)
    requires
        method_in(st.heap, id, name, st.heap.cells.len()) is Some,
    ensures
        s_find_method(st, id, name) == method_in(st.heap, id, name, st.heap.cells.len()),
{
}

/// A field hides a method of the same name.
pub proof fn law_a_field_hides_a_method(st: St, v: Value, name: Seq<char>, at: DotSpans)
    requires
        v is Instance,
        own_field(st.heap, v, name) is Some,
        s_may_reach(st, class_of(st.heap, v), name, at.name) is Ok,
    ensures
        s_attr(st, v, name, at) == Ok::<Attr, ErrV>(Attr::Field(own_field(st.heap, v, name)->0)),
{
}

/// Code outside every class reaches no private and no protected member.
pub proof fn law_outsiders_reach_nothing_closed(st: St, class: ObjId, name: Seq<char>, span: Span)
    requires
        innermost(st.reaching) is None,
        declared_reach(st.heap, class, name, st.heap.cells.len()) matches Some(found)
            && found.0.is_closed_outside(),
    ensures
        s_may_reach(st, class, name, span) is Err,
{
}

/// A class closed to extension is never given a method.
pub proof fn law_a_closed_class_is_never_extended(st: St, id: ObjId, decl: FnDeclV, span: Span)
    requires
        st.heap.class(id).openness.is_closed_to_extension(),
    ensures
        s_may_extend(st, id, decl, span) is Err,
{
}

} // verus!
