//! Values, and the types and functions the language is born with.

use crate::text::same;
use vstd::prelude::*;

verus! {

/// A handle to an object on the heap.
pub type ObjId = usize;

/// What a program computes with. Everything larger than a word is a handle.
#[derive(Clone, Copy, Debug, PartialEq, Eq, Structural)]
pub enum Value {
    Nil,
    Bool(bool),
    Int(i64),
    /// The bits of a binary64 number.
    Float(u64),
    Str(ObjId),
    List(ObjId),
    Tuple(ObjId),
    Dict(ObjId),
    Function(ObjId),
    /// Several functions under one name.
    Overload(ObjId),
    Native(Native),
    BoundMethod(ObjId),
    Class(ObjId),
    Instance(ObjId),
    Module(ObjId),
}

/// The handle a value carries, if it carries one.
pub open spec fn handle_of(v: Value) -> Option<ObjId> {
    match v {
        Value::Str(id) | Value::List(id) | Value::Tuple(id) | Value::Dict(id) | Value::Function(id)
        | Value::Overload(id) | Value::BoundMethod(id) | Value::Class(id) | Value::Instance(id)
        | Value::Module(id) => Some(id),
        _ => None,
    }
}

impl Value {
    pub fn handle(self) -> (r: Option<ObjId>)
        ensures
            r == handle_of(self),
    {
        match self {
            Value::Str(id) => Some(id),
            Value::List(id) => Some(id),
            Value::Tuple(id) => Some(id),
            Value::Dict(id) => Some(id),
            Value::Function(id) => Some(id),
            Value::Overload(id) => Some(id),
            Value::BoundMethod(id) => Some(id),
            Value::Class(id) => Some(id),
            Value::Instance(id) => Some(id),
            Value::Module(id) => Some(id),
            _ => None,
        }
    }
}

/// A type the language is born with.
#[derive(Clone, Copy, Debug, PartialEq, Eq, Structural)]
pub enum Builtin {
    Nil,
    Bool,
    Int,
    Float,
    Str,
    List,
    Tuple,
    Dict,
    Function,
    Class,
    Module,
}

/// How many builtin types there are.
pub const BUILTIN_COUNT: usize = 11;

impl Builtin {
    pub open spec fn position(self) -> int {
        match self {
            Builtin::Nil => 0,
            Builtin::Bool => 1,
            Builtin::Int => 2,
            Builtin::Float => 3,
            Builtin::Str => 4,
            Builtin::List => 5,
            Builtin::Tuple => 6,
            Builtin::Dict => 7,
            Builtin::Function => 8,
            Builtin::Class => 9,
            Builtin::Module => 10,
        }
    }

    pub fn index(self) -> (r: usize)
        ensures
            r == self.position(),
            r < BUILTIN_COUNT,
    {
        match self {
            Builtin::Nil => 0,
            Builtin::Bool => 1,
            Builtin::Int => 2,
            Builtin::Float => 3,
            Builtin::Str => 4,
            Builtin::List => 5,
            Builtin::Tuple => 6,
            Builtin::Dict => 7,
            Builtin::Function => 8,
            Builtin::Class => 9,
            Builtin::Module => 10,
        }
    }

    /// The name a program knows the type by.
    pub open spec fn spelled(self) -> Seq<char> {
        match self {
            Builtin::Nil => "nil"@,
            Builtin::Bool => "bool"@,
            Builtin::Int => "int"@,
            Builtin::Float => "float"@,
            Builtin::Str => "string"@,
            Builtin::List => "list"@,
            Builtin::Tuple => "tuple"@,
            Builtin::Dict => "dict"@,
            Builtin::Function => "function"@,
            Builtin::Class => "class"@,
            Builtin::Module => "module"@,
        }
    }

    pub fn name(self) -> (r: &'static str)
        ensures
            r@ == self.spelled(),
    {
        match self {
            Builtin::Nil => "nil",
            Builtin::Bool => "bool",
            Builtin::Int => "int",
            Builtin::Float => "float",
            Builtin::Str => "string",
            Builtin::List => "list",
            Builtin::Tuple => "tuple",
            Builtin::Dict => "dict",
            Builtin::Function => "function",
            Builtin::Class => "class",
            Builtin::Module => "module",
        }
    }

    /// The native that makes one from another value, where there is one.
    pub open spec fn converter(self) -> Option<Native> {
        match self {
            Builtin::Bool => Some(Native::ToBool),
            Builtin::Int => Some(Native::ToInt),
            Builtin::Float => Some(Native::ToFloat),
            Builtin::Str => Some(Native::ToStr),
            Builtin::List => Some(Native::ToList),
            Builtin::Dict => Some(Native::ToDict),
            _ => None,
        }
    }

    pub fn init(self) -> (r: Option<Native>)
        ensures
            r == self.converter(),
    {
        match self {
            Builtin::Bool => Some(Native::ToBool),
            Builtin::Int => Some(Native::ToInt),
            Builtin::Float => Some(Native::ToFloat),
            Builtin::Str => Some(Native::ToStr),
            Builtin::List => Some(Native::ToList),
            Builtin::Dict => Some(Native::ToDict),
            _ => None,
        }
    }
}

/// Every builtin type.
pub open spec fn all_builtins() -> Seq<Builtin> {
    seq![Builtin::Nil, Builtin::Bool, Builtin::Int, Builtin::Float, Builtin::Str, Builtin::List, Builtin::Tuple, Builtin::Dict, Builtin::Function, Builtin::Class, Builtin::Module]
}

/// [`all_builtins`], computed.
pub fn builtin_types() -> (r: Vec<Builtin>)
    ensures
        r@ == all_builtins(),
{
    let r: Vec<Builtin> = vec![Builtin::Nil, Builtin::Bool, Builtin::Int, Builtin::Float, Builtin::Str, Builtin::List, Builtin::Tuple, Builtin::Dict, Builtin::Function, Builtin::Class, Builtin::Module];
    assert(r@ =~= all_builtins());
    r
}

/// A function the language is born with.
#[derive(Clone, Copy, Debug, PartialEq, Eq, Structural)]
pub enum Native {
    Print,
    Len,
    Type,
    ToInt,
    ToFloat,
    ToStr,
    ToBool,
    ToList,
    ToDict,
    Push,
    Pop,
    MapList,
    Keys,
    Values,
    Remove,
    Upper,
    Lower,
    Split,
    Join,
    Abs,
    Floor,
    Append,
    Exists,
    Line,
    Lines,
    Read,
    Write,
    Next,
    Seed,
}

impl Native {
    pub open spec fn spelled(self) -> Seq<char> {
        match self {
            Native::Print => "print"@,
            Native::Len => "len"@,
            Native::Type => "type"@,
            Native::ToInt => "int"@,
            Native::ToFloat => "float"@,
            Native::ToStr => "string"@,
            Native::ToBool => "bool"@,
            Native::ToList => "list"@,
            Native::ToDict => "dict"@,
            Native::Push => "push"@,
            Native::Pop => "pop"@,
            Native::MapList => "map"@,
            Native::Keys => "keys"@,
            Native::Values => "values"@,
            Native::Remove => "remove"@,
            Native::Upper => "upper"@,
            Native::Lower => "lower"@,
            Native::Split => "split"@,
            Native::Join => "join"@,
            Native::Abs => "abs"@,
            Native::Floor => "floor"@,
            Native::Append => "append"@,
            Native::Exists => "exists"@,
            Native::Line => "line"@,
            Native::Lines => "lines"@,
            Native::Read => "read"@,
            Native::Write => "write"@,
            Native::Next => "next"@,
            Native::Seed => "seed"@,
        }
    }

    pub fn name(self) -> (r: &'static str)
        ensures
            r@ == self.spelled(),
    {
        match self {
            Native::Print => "print",
            Native::Len => "len",
            Native::Type => "type",
            Native::ToInt => "int",
            Native::ToFloat => "float",
            Native::ToStr => "string",
            Native::ToBool => "bool",
            Native::ToList => "list",
            Native::ToDict => "dict",
            Native::Push => "push",
            Native::Pop => "pop",
            Native::MapList => "map",
            Native::Keys => "keys",
            Native::Values => "values",
            Native::Remove => "remove",
            Native::Upper => "upper",
            Native::Lower => "lower",
            Native::Split => "split",
            Native::Join => "join",
            Native::Abs => "abs",
            Native::Floor => "floor",
            Native::Append => "append",
            Native::Exists => "exists",
            Native::Line => "line",
            Native::Lines => "lines",
            Native::Read => "read",
            Native::Write => "write",
            Native::Next => "next",
            Native::Seed => "seed",
        }
    }

    /// How many arguments a native takes, the receiver counted; `None` for those that
    /// take none or one.
    pub open spec fn takes(self) -> Option<nat> {
        match self {
            Native::Print => Some(1),
            Native::Len => Some(1),
            Native::Type => Some(1),
            Native::ToInt => Some(1),
            Native::ToFloat => Some(1),
            Native::ToStr => Some(1),
            Native::ToBool => Some(1),
            Native::ToList => None,
            Native::ToDict => None,
            Native::Push => Some(2),
            Native::Pop => Some(1),
            Native::MapList => Some(2),
            Native::Keys => Some(1),
            Native::Values => Some(1),
            Native::Remove => Some(2),
            Native::Upper => Some(1),
            Native::Lower => Some(1),
            Native::Split => Some(2),
            Native::Join => Some(2),
            Native::Abs => Some(1),
            Native::Floor => Some(1),
            Native::Append => Some(2),
            Native::Exists => Some(1),
            Native::Line => Some(0),
            Native::Lines => Some(1),
            Native::Read => Some(1),
            Native::Write => Some(2),
            Native::Next => Some(0),
            Native::Seed => Some(1),
        }
    }

    pub fn arity(self) -> (r: Option<usize>)
        ensures
            match r {
                Some(n) => self.takes() == Some(n as nat),
                None => self.takes() is None,
            },
    {
        match self {
            Native::Print => Some(1),
            Native::Len => Some(1),
            Native::Type => Some(1),
            Native::ToInt => Some(1),
            Native::ToFloat => Some(1),
            Native::ToStr => Some(1),
            Native::ToBool => Some(1),
            Native::ToList => None,
            Native::ToDict => None,
            Native::Push => Some(2),
            Native::Pop => Some(1),
            Native::MapList => Some(2),
            Native::Keys => Some(1),
            Native::Values => Some(1),
            Native::Remove => Some(2),
            Native::Upper => Some(1),
            Native::Lower => Some(1),
            Native::Split => Some(2),
            Native::Join => Some(2),
            Native::Abs => Some(1),
            Native::Floor => Some(1),
            Native::Append => Some(2),
            Native::Exists => Some(1),
            Native::Line => Some(0),
            Native::Lines => Some(1),
            Native::Read => Some(1),
            Native::Write => Some(2),
            Native::Next => Some(0),
            Native::Seed => Some(1),
        }
    }
}

/// The natives bound as globals.
pub open spec fn global_natives() -> Seq<Native> {
    seq![Native::Print, Native::Len, Native::Type]
}

/// The methods a builtin type is born with, by name.
pub open spec fn native_methods(builtin: Builtin) -> Seq<Native> {
    match builtin {
        Builtin::Str => seq![Native::Upper, Native::Lower, Native::Split, Native::Join],
        Builtin::List => seq![Native::Push, Native::Pop, Native::MapList],
        Builtin::Dict => seq![Native::Keys, Native::Values, Native::Remove],
        _ => Seq::empty(),
    }
}

/// [`global_natives`], computed.
pub fn globals_born() -> (r: Vec<Native>)
    ensures
        r@ == global_natives(),
{
    let r: Vec<Native> = vec![Native::Print, Native::Len, Native::Type];
    assert(r@ =~= global_natives());
    r
}

/// [`native_methods`], computed.
pub fn methods_born(builtin: Builtin) -> (r: Vec<Native>)
    ensures
        r@ == native_methods(builtin),
{
    let r: Vec<Native> = match builtin {
        Builtin::Str => vec![Native::Upper, Native::Lower, Native::Split, Native::Join],
        Builtin::List => vec![Native::Push, Native::Pop, Native::MapList],
        Builtin::Dict => vec![Native::Keys, Native::Values, Native::Remove],
        _ => Vec::new(),
    };
    assert(r@ =~= native_methods(builtin));
    r
}

/// The names of the modules the language ships.
pub open spec fn shipped_modules() -> Seq<Seq<char>> {
    seq!["io"@, "math"@, "random"@]
}

/// Whether the language ships a module of a name.
pub open spec fn is_shipped(name: Seq<char>) -> bool {
    name == "io"@ || name == "math"@ || name == "random"@
}

/// The functions of a module the language ships.
pub open spec fn shipped_natives(name: Seq<char>) -> Seq<Native> {
    if name == "math"@ {
        seq![Native::Abs, Native::Floor]
    } else if name == "io"@ {
        seq![Native::Append, Native::Exists, Native::Line, Native::Lines, Native::Read, Native::Write]
    } else if name == "random"@ {
        seq![Native::Next, Native::Seed]
    } else {
        Seq::empty()
    }
}

/// The float nearest to pi, as its bits.
pub const PI: u64 = 0x4009_21fb_5444_2d18;

/// [`is_shipped`], decided.
pub fn ships(name: &str) -> (r: bool)
    ensures
        r == is_shipped(name@),
{
    same(name, "io") || same(name, "math") || same(name, "random")
}

/// [`shipped_natives`], computed.
pub fn natives_shipped(name: &str) -> (r: Vec<Native>)
    ensures
        r@ == shipped_natives(name@),
{
    let r: Vec<Native> = if same(name, "math") {
        vec![Native::Abs, Native::Floor]
    } else if same(name, "io") {
        vec![
            Native::Append,
            Native::Exists,
            Native::Line,
            Native::Lines,
            Native::Read,
            Native::Write,
        ]
    } else if same(name, "random") {
        vec![Native::Next, Native::Seed]
    } else {
        Vec::new()
    };
    assert(r@ =~= shipped_natives(name@));
    r
}

} // verus!
