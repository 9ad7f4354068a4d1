//! How values read: what is shown of one that holds no others, and its colour.

use crate::float::{show, shown};
use crate::interp::dispatch::{callable_name, function_name, plain_name};
use crate::runtime::class::type_text;
use crate::runtime::heap::{Heap, HeapV};
use crate::runtime::value::Value;
use crate::text::{cat3, cat5, decimal, decimal_of, digits, digits_of};
use vstd::prelude::*;

verus! {

/// A terminal style.
#[derive(Clone, Copy, Debug, PartialEq, Eq, Structural)]
pub enum Style {
    Bold,
    Dim,
    Green,
    Yellow,
    Magenta,
    Cyan,
}

impl Style {
    /// The number that selects a style.
    pub open spec fn code(self) -> Seq<char> {
        match self {
            Style::Bold => "1"@,
            Style::Dim => "2"@,
            Style::Green => "32"@,
            Style::Yellow => "33"@,
            Style::Magenta => "35"@,
            Style::Cyan => "36"@,
        }
    }

    /// A text in a style, or as it is where there is no colour.
    pub open spec fn painted(self, text: Seq<char>, color: bool) -> Seq<char> {
        if color {
            "\u{1b}["@ + self.code() + "m"@ + text + "\u{1b}[0m"@
        } else {
            text
        }
    }

    fn number(self) -> (r: &'static str)
        ensures
            r@ == self.code(),
    {
        match self {
            Style::Bold => "1",
            Style::Dim => "2",
            Style::Green => "32",
            Style::Yellow => "33",
            Style::Magenta => "35",
            Style::Cyan => "36",
        }
    }

    /// A text in a style, or as it is where there is no colour.
    pub fn paint(self, text: &str, color: bool) -> (r: String)
        ensures
            r@ == self.painted(text@, color),
    {
        if color {
            cat5("\u{1b}[", self.number(), "m", text, "\u{1b}[0m")
        } else {
            text.to_owned()
        }
    }
}

/// The style a value is shown in.
pub open spec fn style_of(v: Value) -> Style {
    match v {
        Value::Nil => Style::Dim,
        Value::Bool(_) => Style::Yellow,
        Value::Int(_) | Value::Float(_) => Style::Cyan,
        Value::Str(_) => Style::Green,
        _ => Style::Magenta,
    }
}

/// What is shown of a value that holds no others. `whole` is the value as it was, where
/// `v` is what it extends.
pub open spec fn bare_text(h: HeapV, v: Value, whole: Value) -> Seq<char> {
    match v {
        Value::Nil => "nil"@,
        Value::Bool(b) => if b {
            "true"@
        } else {
            "false"@
        },
        Value::Int(n) => decimal(n as int),
        Value::Float(bits) => shown(bits),
        Value::Str(id) => h.text(id),
        Value::Function(id) => "<fn "@ + function_name(h, id) + ">"@,
        Value::Overload(id) => "<fn "@ + plain_name(h, v) + " and "@ + digits(
            if h.overload(id).len() > 0 {
                (h.overload(id).len() - 1) as nat
            } else {
                0
            },
        ) + " more>"@,
        Value::Native(native) => "<builtin "@ + native.spelled() + ">"@,
        Value::BoundMethod(id) => "<method "@ + callable_name(h, h.bound(id).1) + " of "@
            + type_text(h, h.bound(id).0) + ">"@,
        Value::Class(id) => "<class "@ + h.class(id).name + ">"@,
        Value::Module(id) => match h.scope(id).name {
            Some(name) => "<module "@ + name + ">"@,
            None => "<module>"@,
        },
        _ => "<"@ + type_text(h, whole) + " instance>"@,
    }
}

impl Heap {
    fn callable_text(&self, v: Value, whole: Value) -> (r: String)
        requires
            !(v is Nil || v is Bool || v is Int || v is Float || v is Str),
        ensures
            r@ == bare_text(self@, v, whole),
    {
        match v {
            Value::Function(id) => {
                let name = self.function_name(id);
                cat3("<fn ", name.as_str(), ">")
            },
            Value::Overload(id) => {
                let name = self.plain_name(v);
                let count: usize = self.overload(id).len();
                let more = digits_of(
                    if count > 0 {
                        (count - 1) as u64
                    } else {
                        0
                    },
                );
                cat5("<fn ", name.as_str(), " and ", more.as_str(), " more>")
            },
            Value::Native(native) => cat3("<builtin ", native.name(), ">"),
            Value::BoundMethod(id) => {
                let (receiver, method) = self.bound(id);
                let name = self.callable_name(method);
                let kind = self.type_text(receiver);
                cat5("<method ", name.as_str(), " of ", kind.as_str(), ">")
            },
            Value::Class(id) => {
                let name = self.class_name(id);
                cat3("<class ", name.as_str(), ">")
            },
            Value::Module(id) => match self.scope_name(id) {
                Some(name) => cat3("<module ", name.as_str(), ">"),
                None => "<module>".to_owned(),
            },
            _ => {
                let kind = self.type_text(whole);
                cat3("<", kind.as_str(), " instance>")
            },
        }
    }

    /// [`bare_text`], computed.
    pub(crate) fn bare_text(&self, v: Value, whole: Value) -> (r: String)
        ensures
            r@ == bare_text(self@, v, whole),
    {
        match v {
            Value::Nil => "nil".to_owned(),
            Value::Bool(b) => if b {
                "true".to_owned()
            } else {
                "false".to_owned()
            },
            Value::Int(n) => decimal_of(n),
            Value::Float(bits) => show(bits),
            Value::Str(id) => self.text(id),
            _ => self.callable_text(v, whole),
        }
    }
}

/// [`style_of`], decided.
pub(crate) fn style_for(v: Value) -> (r: Style)
    ensures
        r == style_of(v),
{
    match v {
        Value::Nil => Style::Dim,
        Value::Bool(_) => Style::Yellow,
        Value::Int(_) => Style::Cyan,
        Value::Float(_) => Style::Cyan,
        Value::Str(_) => Style::Green,
        _ => Style::Magenta,
    }
}

/// Without colour, painting leaves a text as it is.
pub proof fn law_no_colour_changes_nothing(style: Style, text: Seq<char>)
    ensures
        style.painted(text, false) == text,
{
}

} // verus!
