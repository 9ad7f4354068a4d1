//! The reports the evaluator raises itself, and what catching one gives.

use crate::error::{class_name_of, err, err_help, ErrV, ErrorKind, LabelV, QuinceError};
use crate::interp::state::{with_heap, ErrorClass, Interp, St};
use crate::runtime::class::{descends, type_text};
use crate::runtime::heap::{law_a_new_object_moves_nothing, Heap, HeapV};
use crate::runtime::object::{lookup, place, Instance, InstanceV, Named, NamedV, ObjV, Object};
use crate::runtime::types::{refusal, refusal_help, written};
use crate::runtime::value::{ObjId, Value};
use crate::syntax::ast::{BinaryOp, TypeExpr, TypeExprV};
use crate::syntax::token::Span;
use crate::text::{cat2, cat3, cat5, cat6, cat7, digits, digits_of};
use crate::interp::plain::plain_display;
use crate::interp::sound::sound;
use vstd::prelude::*;

verus! {

// -- shared sentences ------------------------------------------------------------------

/// The error for evaluation that nests further than it is followed.
pub open spec fn too_far(span: Span) -> ErrV {
    err(ErrorKind::Budget, "this takes more steps than an evaluation may"@, span)
}

pub fn too_far_error(span: Span) -> (r: QuinceError)
    ensures
        r@ == too_far(span),
{
    QuinceError::new(
        ErrorKind::Budget,
        "this takes more steps than an evaluation may".to_owned(),
        span,
    )
}

/// A number of things, in words that agree with it.
pub open spec fn plural(n: nat) -> Seq<char> {
    if n == 1 {
        ""@
    } else {
        "s"@
    }
}

pub fn plural_of(n: usize) -> (r: &'static str)
    ensures
        r@ == plural(n as nat),
{
    if n == 1 {
        ""
    } else {
        "s"
    }
}

pub open spec fn arity_error(name: Seq<char>, expected: nat, found: nat, span: Span) -> ErrV {
    let diff = if found > expected {
        (found - expected) as nat
    } else {
        (expected - found) as nat
    };
    let verb = if found > expected {
        "remove "@
    } else {
        "add "@
    };
    err_help(
        ErrorKind::Type,
        "`"@ + name + "` takes "@ + digits(expected) + " argument"@ + plural(expected) + ", but "@
            + digits(found) + " were given"@,
        span,
        verb + digits(diff) + " argument"@ + plural(diff) + " to match `"@ + name
            + "`'s signature"@,
    )
}

/// Whether a call passes as many arguments as are taken.
pub open spec fn s_check_arity(name: Seq<char>, expected: nat, found: nat, span: Span) -> Result<
    (),
    ErrV,
> {
    if expected == found {
        Ok(())
    } else {
        Err(arity_error(name, expected, found, span))
    }
}

/// [`s_check_arity`], decided.
pub fn check_arity(name: &str, expected: usize, found: usize, span: Span) -> (r: Result<
    (),
    QuinceError,
>)
    ensures
        crate::error::res(r) == s_check_arity(name@, expected as nat, found as nat, span),
{
    if expected == found {
        return Ok(());
    }
    let diff: usize = if found > expected {
        found - expected
    } else {
        expected - found
    };
    let verb = if found > expected {
        "remove "
    } else {
        "add "
    };
    let wanted = digits_of(expected as u64);
    let given = digits_of(found as u64);
    let by = digits_of(diff as u64);
    let mut message = cat6(
        "`",
        name,
        "` takes ",
        wanted.as_str(),
        " argument",
        plural_of(expected),
    );
    message.append(", but ");
    message.append(given.as_str());
    message.append(" were given");
    let help = cat7(
        verb,
        by.as_str(),
        " argument",
        plural_of(diff),
        " to match `",
        name,
        "`'s signature",
    );
    Err(QuinceError::new(ErrorKind::Type, message, span).with_help(help))
}

pub open spec fn frozen_error(h: HeapV, v: Value, span: Span) -> ErrV {
    err_help(
        ErrorKind::Frozen,
        "cannot modify `const` "@ + type_text(h, v),
        span,
        "`const` freezes a value deeply, and through every other name that already reaches it — bind it with `final` to fix the name and leave the value writable"@,
    )
}

/// The report for a write to a frozen value.
pub fn frozen(heap: &Heap, v: Value, span: Span) -> (r: QuinceError)
    ensures
        r@ == frozen_error(heap@, v, span),
{
    let what = heap.type_text(v);
    QuinceError::new(ErrorKind::Frozen, cat2("cannot modify `const` ", what.as_str()), span)
        .with_help(
        "`const` freezes a value deeply, and through every other name that already reaches it — bind it with `final` to fix the name and leave the value writable".to_owned(),
    )
}

/// What an operator does to its operands, as a verb.
pub open spec fn verb_of(op: BinaryOp) -> Seq<char> {
    match op {
        BinaryOp::Add => "add"@,
        BinaryOp::Sub => "subtract"@,
        BinaryOp::Mul => "multiply"@,
        BinaryOp::Div | BinaryOp::FloorDiv => "divide"@,
        BinaryOp::Rem => "take the remainder of"@,
        BinaryOp::Pow => "raise"@,
        BinaryOp::BitAnd | BinaryOp::BitOr | BinaryOp::BitXor => "combine the bits of"@,
        BinaryOp::Shl | BinaryOp::Shr => "shift"@,
        _ => "compare"@,
    }
}

fn verb(op: BinaryOp) -> (r: &'static str)
    ensures
        r@ == verb_of(op),
{
    match op {
        BinaryOp::Add => "add",
        BinaryOp::Sub => "subtract",
        BinaryOp::Mul => "multiply",
        BinaryOp::Div => "divide",
        BinaryOp::FloorDiv => "divide",
        BinaryOp::Rem => "take the remainder of",
        BinaryOp::Pow => "raise",
        BinaryOp::BitAnd => "combine the bits of",
        BinaryOp::BitOr => "combine the bits of",
        BinaryOp::BitXor => "combine the bits of",
        BinaryOp::Shl => "shift",
        BinaryOp::Shr => "shift",
        _ => "compare",
    }
}

/// Where the operands of a binary operator stand, and the whole of it.
#[derive(Clone, Copy, PartialEq, Eq, Structural)]
pub struct Spans {
    pub lhs: Span,
    pub rhs: Span,
    pub whole: Span,
}

/// Where the operator itself stands: between its operands.
pub open spec fn op_span(s: Spans) -> Span {
    if s.lhs.end <= s.rhs.start {
        Span { start: s.lhs.end, end: s.rhs.start }
    } else {
        s.whole
    }
}

/// The report for an operator neither operand's type takes.
pub open spec fn type_error(h: HeapV, op: BinaryOp, lhs: Value, rhs: Value, s: Spans) -> ErrV {
    ErrV {
        labels: seq![
            LabelV { span: s.lhs, text: type_text(h, lhs) },
            LabelV { span: op_span(s), text: "doesn't support these values"@ },
            LabelV { span: s.rhs, text: type_text(h, rhs) },
        ],
        ..err_help(
            ErrorKind::Type,
            "cannot "@ + verb_of(op) + " "@ + type_text(h, lhs) + " and "@ + type_text(h, rhs),
            s.whole,
            "Change "@ + type_text(h, lhs) + " or "@ + type_text(h, rhs)
                + " to be compatible types and try again"@,
        )
    }
}

/// [`type_error`], built.
pub fn make_type_error(heap: &Heap, op: BinaryOp, lhs: Value, rhs: Value, s: Spans) -> (r:
    QuinceError)
    ensures
        r@ == type_error(heap@, op, lhs, rhs, s),
{
    let left = heap.type_text(lhs);
    let right = heap.type_text(rhs);
    let between = if s.lhs.end <= s.rhs.start {
        Span { start: s.lhs.end, end: s.rhs.start }
    } else {
        s.whole
    };
    let message = cat6("cannot ", verb(op), " ", left.as_str(), " and ", right.as_str());
    let help = cat5(
        "Change ",
        left.as_str(),
        " or ",
        right.as_str(),
        " to be compatible types and try again",
    );
    let r = QuinceError::new(ErrorKind::Type, message, s.whole).with_label(
        s.lhs,
        left.clone(),
    ).with_label(between, "doesn't support these values".to_owned()).with_label(
        s.rhs,
        right.clone(),
    ).with_help(help);
    assert(r@.labels =~= type_error(heap@, op, lhs, rhs, s).labels);
    r
}

/// The report for a value that does not hold a type. The annotation is marked beside
/// the value where both stand in the same text.
pub open spec fn not_held(
    h: HeapV,
    ty: TypeExprV,
    v: Value,
    what: Seq<char>,
    span: Span,
    here: bool,
) -> ErrV {
    ErrV {
        help: refusal_help(ty, v),
        labels: if here && ty.span != span && ty.span.end > ty.span.start {
            seq![
                LabelV { span, text: ""@ },
                LabelV { span: ty.span, text: "declared `"@ + written(ty) + "` here"@ },
            ]
        } else {
            Seq::empty()
        },
        ..err(ErrorKind::Type, refusal(h, ty, v, what), span)
    }
}

/// [`not_held`], built.
pub fn does_not_hold(heap: &Heap, ty: &TypeExpr, v: Value, what: &str, span: Span, here: bool) -> (r:
    QuinceError)
    ensures
        r@ == not_held(heap@, ty@, v, what@, span, here),
{
    let message = heap.refusal(ty, v, what);
    let mut r = QuinceError::new(ErrorKind::Type, message, span);
    let wanted = ty.written();
    if here && ty.span != span && ty.span.end > ty.span.start {
        let text = cat3("declared `", wanted.as_str(), "` here");
        r = r.with_label(span, "".to_owned()).with_label(ty.span, text);
    }
    if v == Value::Nil {
        let help = cat3("write `", wanted.as_str(), "?` if it may be absent");
        r = r.with_help(help);
    }
    assert(r@.labels =~= not_held(heap@, ty@, v, what@, span, here).labels);
    r
}

pub open spec fn used_before(name: Seq<char>, span: Span) -> ErrV {
    err(ErrorKind::Name, "`"@ + name + "` is used before it is declared"@, span)
}

pub fn used_before_error(name: &str, span: Span) -> (r: QuinceError)
    ensures
        r@ == used_before(name@, span),
{
    QuinceError::new(ErrorKind::Name, cat3("`", name, "` is used before it is declared"), span)
}

pub open spec fn undefined(name: Seq<char>, span: Span) -> ErrV {
    err(ErrorKind::Name, "undefined variable `"@ + name + "`"@, span)
}

pub fn undefined_error(name: &str, span: Span) -> (r: QuinceError)
    ensures
        r@ == undefined(name@, span),
{
    QuinceError::new(ErrorKind::Name, cat3("undefined variable `", name, "`"), span)
}

/// A type error with this sentence and no help.
pub fn plain_type_error(message: String, span: Span) -> (r: QuinceError)
    ensures
        r@ == err(ErrorKind::Type, message@, span),
{
    QuinceError::new(ErrorKind::Type, message, span)
}

/// A type error with this sentence and this help.
pub fn helped_type_error(message: String, span: Span, help: &str) -> (r: QuinceError)
    ensures
        r@ == err_help(ErrorKind::Type, message@, span, help@),
{
    QuinceError::new(ErrorKind::Type, message, span).with_help(help.to_owned())
}

// -- throwing and catching ------------------------------------------------------------------

/// The class errors of a kind are caught as.
pub open spec fn error_class(s: Seq<ErrorClass>, kind: ErrorKind, from: int) -> Option<ObjId>
    decreases s.len() - from,
{
    if from < 0 || from >= s.len() {
        None
    } else if s[from].kind == kind {
        Some(s[from].class)
    } else {
        error_class(s, kind, from + 1)
    }
}

/// Whether a class is `Error` or extends it.
pub open spec fn descends_from_error(st: St, class: ObjId) -> bool {
    match error_class(st.error_classes, ErrorKind::Runtime, 0) {
        Some(root) => descends(st.heap, class, root, st.heap.cells.len()),
        None => false,
    }
}

/// An instance of a class, thrown with a message.
pub open spec fn thrown(id: ObjId, name: Seq<char>, message: Seq<char>, span: Span) -> ErrV {
    ErrV { payload: Some(id), class: Some(name), ..err(ErrorKind::Thrown, message, span) }
}

/// What `throw` raises: the instance it was given, with its class's name and its message as
/// plain text, or a refusal of anything that does not extend `Error`.
pub open spec fn s_throw(st: St, v: Value, span: Span) -> ErrV {
    match v {
        Value::Instance(id) => {
            let class = st.heap.instance(id).class;
            let name = st.heap.class(class).name;
            if !descends_from_error(st, class) {
                err_help(
                    ErrorKind::Type,
                    "`throw` needs an instance of `Error`, but `"@ + name + "` does not extend it"@,
                    span,
                    "write `extends Error` on it, so a handler binding it finds the `message` and `kind` every caught value has"@,
                )
            } else {
                match lookup(st.heap.instance(id).fields, "message"@) {
                    None => thrown(id, name, name, span),
                    Some(Value::Str(text)) => thrown(id, name, st.heap.text(text), span),
                    Some(other) => thrown(
                        id,
                        name,
                        plain_display(st.heap, other, false, st.heap.cells.len()),
                        span,
                    ),
                }
            }
        },
        _ => err_help(
            ErrorKind::Type,
            "`throw` needs an instance of `Error`, but was given "@ + type_text(st.heap, v),
            span,
            "everything a `catch` binds has a `message` and a `kind`, because everything it binds extends `Error` — wrap the value in one"@,
        ),
    }
}

/// The class an error is caught as: that of its kind, or `Error` itself.
pub open spec fn caught_class(st: St, kind: ErrorKind) -> ObjId {
    match error_class(st.error_classes, kind, 0) {
        Some(id) => id,
        None => match error_class(st.error_classes, ErrorKind::Runtime, 0) {
            Some(id) => id,
            None => 0,
        },
    }
}

pub open spec fn caught_name(kind: ErrorKind) -> Seq<char> {
    match class_name_of(kind) {
        Some(name) => name,
        None => "Error"@,
    }
}

/// The value a handler binds: the instance that was thrown, or one made for the
/// error, with its message and its kind.
pub open spec fn s_reify(st: St, e: ErrV) -> (St, Value) {
    match e.payload {
        Some(id) => (st, Value::Instance(id)),
        None => {
            let h1 = st.heap.with_new(ObjV::Str(e.message));
            let h2 = h1.with_new(ObjV::Str(caught_name(e.kind)));
            let made = ObjV::Instance(
                InstanceV {
                    class: caught_class(st, e.kind),
                    fields: seq![
                        NamedV { name: "message"@, value: Value::Str(st.heap.next_id()) },
                        NamedV { name: "kind"@, value: Value::Str(h1.next_id()) },
                    ],
                    payload: None,
                },
            );
            (with_heap(st, h2.with_new(made)), Value::Instance(h2.next_id()))
        },
    }
}

impl Interp {
    fn find_error_class(&self, kind: ErrorKind) -> (r: Option<ObjId>)
        ensures
            r == error_class(self@.error_classes, kind, 0),
    {
        let mut i: usize = 0;
        while i < self.error_classes.len()
            invariant
                i <= self.error_classes@.len(),
                error_class(self@.error_classes, kind, 0) == error_class(
                    self@.error_classes,
                    kind,
                    i as int,
                ),
            decreases self.error_classes@.len() - i,
        {
            if self.error_classes[i].kind == kind {
                return Some(self.error_classes[i].class);
            }
            i += 1;
        }
        None
    }

    pub(crate) fn descends_from_error(&self, class: ObjId) -> (r: bool)
        ensures
            r == descends_from_error(self@, class),
    {
        match self.find_error_class(ErrorKind::Runtime) {
            Some(root) => self.heap.descends(class, root),
            None => false,
        }
    }

    pub(crate) fn throw(&self, v: Value, span: Span) -> (r: QuinceError)
        ensures
            r@ == s_throw(self@, v, span),
    {
        match v {
            Value::Instance(id) => {
                let class = self.heap.instance_class(id);
                let name = self.heap.class_name(class);
                if !self.descends_from_error(class) {
                    return helped_type_error(
                        cat3(
                            "`throw` needs an instance of `Error`, but `",
                            name.as_str(),
                            "` does not extend it",
                        ),
                        span,
                        "write `extends Error` on it, so a handler binding it finds the `message` and `kind` every caught value has",
                    );
                }
                let message = match self.heap.field(id, "message") {
                    None => name.as_str().to_owned(),
                    Some(Value::Str(text)) => self.heap.text(text),
                    Some(other) => other.display_base(&self.heap),
                };
                let plain = QuinceError::new(ErrorKind::Thrown, message, span);
                QuinceError { payload: Some(id), class: Some(name), ..plain }
            },
            _ => {
                let kind = self.heap.type_text(v);
                helped_type_error(
                    cat2("`throw` needs an instance of `Error`, but was given ", kind.as_str()),
                    span,
                    "everything a `catch` binds has a `message` and a `kind`, because everything it binds extends `Error` — wrap the value in one",
                )
            },
        }
    }

    fn caught_class(&self, kind: ErrorKind) -> (r: ObjId)
        ensures
            r == caught_class(self@, kind),
    {
        match self.find_error_class(kind) {
            Some(id) => id,
            None => match self.find_error_class(ErrorKind::Runtime) {
                Some(id) => id,
                None => 0,
            },
        }
    }

    pub(crate) fn reify(&mut self, e: &QuinceError) -> (v: Value)
        ensures
            (final(self)@, v) == s_reify(old(self)@, e@),
    {
        if let Some(id) = e.payload {
            return Value::Instance(id);
        }
        let class = self.caught_class(e.kind);
        let message = self.heap.add_object(Object::Str(e.message.clone()));
        let name = match e.kind.class_name() {
            Some(name) => name,
            None => "Error",
        };
        let kind = self.heap.add_object(Object::Str(name.to_owned()));
        let mut fields: Vec<Named> = Vec::new();
        fields.push(Named { name: "message".to_owned(), value: Value::Str(message) });
        fields.push(Named { name: "kind".to_owned(), value: Value::Str(kind) });
        assert(crate::runtime::object::nameds_v(fields@) =~= seq![
            NamedV { name: "message"@, value: Value::Str(message) },
            NamedV { name: "kind"@, value: Value::Str(kind) },
        ]);
        let made = Object::Instance(Instance { class, fields, payload: None });
        Value::Instance(self.heap.add_object(made))
    }
}

/// A thrown instance is what a handler binds, unchanged, and neither throwing it nor binding it
/// changes anything else.
pub proof fn law_what_is_thrown_is_what_is_caught(st: St, id: ObjId, span: Span)
    requires
        descends_from_error(st, st.heap.instance(id).class),
    ensures
        ({
            let e = s_throw(st, Value::Instance(id), span);
            &&& s_reify(st, e) == (st, Value::Instance(id))
            &&& e.class == Some(st.heap.class(st.heap.instance(id).class).name)
        }),
{
}

/// An error the language raises is caught as an instance of its kind's class, whose
/// `message` is what the error said and whose `kind` is the name of that class.
pub proof fn law_a_caught_error_says_what_it_is(st: St, e: ErrV)
    requires
        e.payload is None,
        class_name_of(e.kind) is Some,
        sound(st.heap, st.globals),
        st.heap.cells.len() + 3 <= usize::MAX,
    ensures
        ({
            let (st1, v) = s_reify(st, e);
            let made = st1.heap.instance(v->Instance_0);
            &&& v is Instance
            &&& made.class == caught_class(st, e.kind)
            &&& lookup(made.fields, "message"@) is Some
            &&& lookup(made.fields, "message"@)->0 is Str
            &&& st1.heap.text(lookup(made.fields, "message"@)->0->Str_0) == e.message
            &&& lookup(made.fields, "kind"@) is Some
            &&& lookup(made.fields, "kind"@)->0 is Str
            &&& Some(st1.heap.text(lookup(made.fields, "kind"@)->0->Str_0)) == class_name_of(e.kind)
        }),
{
    let h1 = st.heap.with_new(ObjV::Str(e.message));
    let h2 = h1.with_new(ObjV::Str(caught_name(e.kind)));
    law_a_new_object_moves_nothing(st.heap, ObjV::Str(e.message));
    law_a_new_object_moves_nothing(h1, ObjV::Str(caught_name(e.kind)));
    let (st1, v) = s_reify(st, e);
    let made = st1.heap.instance(v->Instance_0);
    let object = ObjV::Instance(
        InstanceV {
            class: caught_class(st, e.kind),
            fields: seq![
                NamedV { name: "message"@, value: Value::Str(st.heap.next_id()) },
                NamedV { name: "kind"@, value: Value::Str(h1.next_id()) },
            ],
            payload: None,
        },
    );
    law_a_new_object_moves_nothing(h2, object);
    reveal_strlit("message");
    reveal_strlit("kind");
    assert("message"@.len() == 7 && "kind"@.len() == 4);
    assert(made.fields[0].name == "message"@ && made.fields[1].name == "kind"@);
    reveal_with_fuel(place, 3);
}

} // verus!
