//! What a name stands for, as far as an editor tells of it.

use crate::error::{catchable, error_kinds};
use crate::lsp::names::error_name;
use crate::lsp::position::opt_text;
use crate::lsp::rows::{text, trim, trimmed};
use crate::runtime::value::{
    global_natives, globals_born, natives_shipped, shipped_modules, shipped_natives, Builtin,
    Native,
};
use crate::syntax::ast::{Bind, Visibility};
use crate::text::{cat2, cat4, cat6, chars_of, join, joined, lemma_strs_push, same, strs};
use vstd::prelude::*;

verus! {

// -- types -----------------------------------------------------------------------------------------------

/// What is known of a value.
#[derive(Debug)]
pub enum Type {
    Unknown,
    Class(String),
    Module(String),
}

/// The model of a [`Type`].
pub enum TypeV {
    Unknown,
    Class(Seq<char>),
    Module(Seq<char>),
}

impl View for Type {
    type V = TypeV;

    open spec fn view(&self) -> TypeV {
        match self {
            Type::Unknown => TypeV::Unknown,
            Type::Class(name) => TypeV::Class(name@),
            Type::Module(name) => TypeV::Module(name@),
        }
    }
}

impl TypeV {
    /// Whether anything is known at all.
    pub open spec fn known(self) -> bool {
        !(self is Unknown)
    }

    /// How a type is written.
    pub open spec fn spelled(self) -> Seq<char> {
        match self {
            TypeV::Unknown => "_"@,
            TypeV::Class(name) => name,
            TypeV::Module(name) => "module "@ + name,
        }
    }
}

impl Type {
    pub fn is_known(&self) -> (r: bool)
        ensures
            r == self@.known(),
    {
        match self {
            Type::Unknown => false,
            _ => true,
        }
    }

    /// The class of a value, where it is known.
    pub fn class_name(&self) -> (r: Option<&str>)
        ensures
            match r {
                Some(name) => self@ == TypeV::Class(name@),
                None => !(self@ is Class),
            },
    {
        match self {
            Type::Class(name) => Some(name.as_str()),
            _ => None,
        }
    }

    /// How a type is written.
    pub fn show(&self) -> (r: String)
        ensures
            r@ == self@.spelled(),
    {
        match self {
            Type::Unknown => "_".to_owned(),
            Type::Class(name) => name.as_str().to_owned(),
            Type::Module(name) => cat2("module ", name.as_str()),
        }
    }

    pub fn copy(&self) -> (r: Type)
        ensures
            r@ == self@,
    {
        match self {
            Type::Unknown => Type::Unknown,
            Type::Class(name) => Type::Class(name.as_str().to_owned()),
            Type::Module(name) => Type::Module(name.as_str().to_owned()),
        }
    }
}

pub(crate) fn class_type(name: &str) -> (r: Type)
    ensures
        r@ == TypeV::Class(name@),
{
    Type::Class(name.to_owned())
}

// -- documentation ------------------------------------------------------------------------------------------

/// What is said of one name.
#[derive(Debug)]
pub struct Note {
    pub name: String,
    pub text: String,
}

/// The model of a [`Note`].
pub struct NoteV {
    pub name: Seq<char>,
    pub text: Seq<char>,
}

impl View for Note {
    type V = NoteV;

    open spec fn view(&self) -> NoteV {
        NoteV { name: self.name@, text: self.text@ }
    }
}

pub open spec fn notes_v(s: Seq<Note>) -> Seq<NoteV> {
    Seq::new(s.len(), |i: int| s[i]@)
}

/// What is said of a declaration.
#[derive(Debug)]
pub struct Doc {
    pub summary: String,
    pub params: Vec<Note>,
    pub result: Option<String>,
    pub throws: Vec<Note>,
}

/// The model of a [`Doc`].
pub struct DocV {
    pub summary: Seq<char>,
    pub params: Seq<NoteV>,
    pub result: Option<Seq<char>>,
    pub throws: Seq<NoteV>,
}

impl View for Doc {
    type V = DocV;

    open spec fn view(&self) -> DocV {
        DocV {
            summary: self.summary@,
            params: notes_v(self.params@),
            result: opt_text(self.result),
            throws: notes_v(self.throws@),
        }
    }
}

fn copy_text(s: &Option<String>) -> (r: Option<String>)
    ensures
        opt_text(r) == opt_text(*s),
{
    match s {
        Some(s) => Some(s.as_str().to_owned()),
        None => None,
    }
}

fn copy_notes(notes: &Vec<Note>) -> (r: Vec<Note>)
    ensures
        notes_v(r@) == notes_v(notes@),
{
    let mut out: Vec<Note> = Vec::new();
    let mut i: usize = 0;
    while i < notes.len()
        invariant
            i <= notes@.len(),
            notes_v(out@) =~= notes_v(notes@).take(i as int),
        decreases notes@.len() - i,
    {
        let ghost before = notes_v(out@);
        let note = &notes[i];
        out.push(Note { name: note.name.as_str().to_owned(), text: note.text.as_str().to_owned() });
        assert(notes_v(out@) =~= before.push(notes_v(notes@)[i as int]));
        i += 1;
    }
    assert(notes_v(out@) =~= notes_v(notes@));
    out
}

impl Doc {
    pub fn copy(&self) -> (r: Doc)
        ensures
            r@ == self@,
    {
        Doc {
            summary: self.summary.as_str().to_owned(),
            params: copy_notes(&self.params),
            result: copy_text(&self.result),
            throws: copy_notes(&self.throws),
        }
    }
}

/// What is said of the first `n` parameters.
pub open spec fn param_notes(notes: Seq<NoteV>, n: int) -> Seq<char>
    decreases n,
{
    if 0 < n <= notes.len() {
        param_notes(notes, n - 1) + "\n\n`"@ + notes[n - 1].name + "` — "@ + notes[n - 1].text
    } else {
        Seq::empty()
    }
}

/// What is said of the first `n` errors.
pub open spec fn throw_notes(notes: Seq<NoteV>, n: int) -> Seq<char>
    decreases n,
{
    if 0 < n <= notes.len() {
        throw_notes(notes, n - 1) + "\n\nRaises `"@ + notes[n - 1].name + "` "@ + notes[n - 1].text
    } else {
        Seq::empty()
    }
}

/// Documentation as an editor shows it.
pub open spec fn rendered(doc: DocV) -> Seq<char> {
    trim(
        doc.summary + param_notes(doc.params, doc.params.len() as int) + (match doc.result {
            Some(text) => "\n\nReturns "@ + text,
            None => Seq::empty(),
        }) + throw_notes(doc.throws, doc.throws.len() as int),
    )
}

/// Documentation as an editor shows it.
pub fn rendered_doc(doc: &Doc) -> (r: String)
    ensures
        r@ == rendered(doc@),
{
    let ghost d = doc@;
    let mut out = doc.summary.as_str().to_owned();
    let mut i: usize = 0;
    assert(out@ =~= d.summary + param_notes(d.params, 0));
    while i < doc.params.len()
        invariant
            i <= doc.params@.len(),
            d == doc@,
            out@ == d.summary + param_notes(d.params, i as int),
        decreases doc.params@.len() - i,
    {
        let note = &doc.params[i];
        assert(d.params[i as int] == note@);
        out.append("\n\n`");
        out.append(note.name.as_str());
        out.append("` — ");
        out.append(note.text.as_str());
        i += 1;
        assert(out@ =~= d.summary + param_notes(d.params, i as int));
    }
    if let Some(text) = &doc.result {
        out.append("\n\nReturns ");
        out.append(text.as_str());
    }
    let ghost middle = d.summary + param_notes(d.params, d.params.len() as int) + (match d.result {
        Some(text) => "\n\nReturns "@ + text,
        None => Seq::empty(),
    });
    assert(out@ =~= middle);
    let mut k: usize = 0;
    assert(out@ =~= middle + throw_notes(d.throws, 0));
    while k < doc.throws.len()
        invariant
            k <= doc.throws@.len(),
            d == doc@,
            out@ == middle + throw_notes(d.throws, k as int),
        decreases doc.throws@.len() - k,
    {
        let note = &doc.throws[k];
        assert(d.throws[k as int] == note@);
        out.append("\n\nRaises `");
        out.append(note.name.as_str());
        out.append("` ");
        out.append(note.text.as_str());
        k += 1;
        assert(out@ =~= middle + throw_notes(d.throws, k as int));
    }
    let cs = chars_of(out.as_str());
    text(&trimmed(&cs))
}

// -- symbols -------------------------------------------------------------------------------------------------

/// What kind of thing a name stands for.
#[derive(Clone, Copy, Debug, PartialEq, Eq, Structural)]
pub enum Kind {
    Class,
    Function,
    Method,
    Field,
    Variable,
    Parameter,
    Module,
}

/// A name and what is known of it. `ty` is what a variable holds, or what a call returns.
#[derive(Debug)]
pub struct Symbol {
    pub name: String,
    pub kind: Kind,
    pub params: Vec<String>,
    pub ty: Type,
    pub bind: Option<Bind>,
    pub visibility: Visibility,
    pub doc: Option<Doc>,
}

/// The model of a [`Symbol`].
pub struct SymbolV {
    pub name: Seq<char>,
    pub kind: Kind,
    pub params: Seq<Seq<char>>,
    pub ty: TypeV,
    pub bind: Option<Bind>,
    pub visibility: Visibility,
    pub doc: Option<DocV>,
}

impl View for Symbol {
    type V = SymbolV;

    open spec fn view(&self) -> SymbolV {
        SymbolV {
            name: self.name@,
            kind: self.kind,
            params: strs(self.params@),
            ty: self.ty@,
            bind: self.bind,
            visibility: self.visibility,
            doc: match self.doc {
                Some(doc) => Some(doc@),
                None => None,
            },
        }
    }
}

pub open spec fn symbols_v(s: Seq<Symbol>) -> Seq<SymbolV> {
    Seq::new(s.len(), |i: int| s[i]@)
}

pub open spec fn opt_symbol(s: Option<Symbol>) -> Option<SymbolV> {
    match s {
        Some(s) => Some(s@),
        None => None,
    }
}

impl SymbolV {
    /// What follows a name whose type is known.
    pub open spec fn suffix(self) -> Seq<char> {
        match self.ty {
            TypeV::Class(name) => ": "@ + name,
            _ => Seq::empty(),
        }
    }

    /// How a symbol is declared, as an editor shows it.
    pub open spec fn signature(self) -> Seq<char> {
        match self.kind {
            Kind::Class => "class "@ + self.name,
            Kind::Module => "module "@ + self.name,
            Kind::Function | Kind::Method => "fn "@ + self.name + "("@ + joined(self.params, ", "@) + ")"@
                + self.suffix(),
            _ => (match self.bind {
                Some(bind) => bind.spelled() + " "@ + self.name,
                None => self.name,
            }) + self.suffix(),
        }
    }
}

pub(crate) fn copy_texts(s: &Vec<String>) -> (r: Vec<String>)
    ensures
        strs(r@) == strs(s@),
{
    broadcast use lemma_strs_push;

    let mut out: Vec<String> = Vec::new();
    let mut i: usize = 0;
    while i < s.len()
        invariant
            i <= s@.len(),
            strs(out@) =~= strs(s@).take(i as int),
        decreases s@.len() - i,
    {
        let ghost before = strs(out@);
        out.push(s[i].as_str().to_owned());
        assert(strs(out@) == before.push(strs(s@)[i as int]));
        i += 1;
    }
    assert(strs(out@) =~= strs(s@));
    out
}

impl Symbol {
    pub fn copy(&self) -> (r: Symbol)
        ensures
            r@ == self@,
    {
        Symbol {
            name: self.name.as_str().to_owned(),
            kind: self.kind,
            params: copy_texts(&self.params),
            ty: self.ty.copy(),
            bind: self.bind,
            visibility: self.visibility,
            doc: match &self.doc {
                Some(doc) => Some(doc.copy()),
                None => None,
            },
        }
    }

    /// How a symbol is declared, as an editor shows it.
    pub fn signature(&self) -> (r: String)
        ensures
            r@ == self@.signature(),
    {
        let suffix = match &self.ty {
            Type::Class(name) => cat2(": ", name.as_str()),
            _ => String::new(),
        };
        assert(suffix@ =~= self@.suffix());
        match self.kind {
            Kind::Class => cat2("class ", self.name.as_str()),
            Kind::Module => cat2("module ", self.name.as_str()),
            Kind::Function | Kind::Method => {
                let inside = join(&self.params, ", ");
                cat6("fn ", self.name.as_str(), "(", inside.as_str(), ")", suffix.as_str())
            },
            _ => match self.bind {
                Some(bind) => cat4(bind.word(), " ", self.name.as_str(), suffix.as_str()),
                None => cat2(self.name.as_str(), suffix.as_str()),
            },
        }
    }
}

/// The first symbol of a name, from `i` on.
pub open spec fn named(s: Seq<SymbolV>, name: Seq<char>, i: int) -> Option<SymbolV>
    decreases s.len() - i,
{
    if i < 0 || i >= s.len() {
        None
    } else if s[i].name == name {
        Some(s[i])
    } else {
        named(s, name, i + 1)
    }
}

pub(crate) fn find_named(s: &Vec<Symbol>, name: &str) -> (r: Option<usize>)
    ensures
        match r {
            Some(k) => k < s@.len() && named(symbols_v(s@), name@, 0) == Some(s@[k as int]@),
            None => named(symbols_v(s@), name@, 0) is None,
        },
{
    let mut i: usize = 0;
    while i < s.len()
        invariant
            i <= s@.len(),
            named(symbols_v(s@), name@, 0) == named(symbols_v(s@), name@, i as int),
        decreases s@.len() - i,
    {
        assert(symbols_v(s@)[i as int] == s@[i as int]@);
        if same(s[i].name.as_str(), name) {
            return Some(i);
        }
        i += 1;
    }
    None
}

/// Takes the first symbol of a name.
pub(crate) fn take_named(s: Vec<Symbol>, name: &str) -> (r: Option<Symbol>)
    ensures
        opt_symbol(r) == named(symbols_v(s@), name@, 0),
{
    let mut s = s;
    match find_named(&s, name) {
        Some(k) => Some(s.swap_remove(k)),
        None => None,
    }
}

// -- what is born with the language --------------------------------------------------------------------------------

/// A function or method born with the language.
pub open spec fn born(kind: Kind, name: Seq<char>, params: Seq<Seq<char>>, ty: TypeV, doc: Option<DocV>) -> SymbolV {
    SymbolV { name, kind, params, ty, bind: None, visibility: Visibility::Unsaid, doc }
}

/// Documentation that is a summary alone.
pub open spec fn summary(text: Seq<char>) -> Option<DocV> {
    Some(DocV { summary: text, params: Seq::empty(), result: None, throws: Seq::empty() })
}

pub(crate) fn summary_of(text: &str) -> (r: Option<Doc>)
    ensures
        r is Some,
        Some(r->0@) == summary(text@),
{
    let doc = Doc { summary: text.to_owned(), params: Vec::new(), result: None, throws: Vec::new() };
    assert(notes_v(doc.params@) =~= Seq::empty());
    assert(notes_v(doc.throws@) =~= Seq::empty());
    Some(doc)
}

/// The names of what a native takes, besides the receiver of a method.
pub open spec fn native_names(native: Native) -> Seq<Seq<char>> {
    match native {
        Native::Print => seq!["value"@],
        Native::Len => seq!["value"@],
        Native::Type => seq!["value"@],
        Native::Push => seq!["item"@],
        Native::MapList => seq!["f"@],
        Native::Remove => seq!["key"@],
        Native::Split => seq!["separator"@],
        Native::Join => seq!["items"@],
        Native::Abs | Native::Floor | Native::Seed => seq!["n"@],
        Native::Exists | Native::Lines | Native::Read => seq!["path"@],
        Native::Append | Native::Write => seq!["path"@, "text"@],
        Native::ToInt | Native::ToFloat | Native::ToStr | Native::ToBool | Native::ToList | Native::ToDict => seq![
            "value"@,
        ],
        Native::Pop | Native::Keys | Native::Values | Native::Upper | Native::Lower | Native::Line | Native::Next => {
            Seq::empty()
        },
    }
}

/// What a call of a native returns, where it is always of one class.
pub open spec fn native_result(native: Native) -> TypeV {
    match native {
        Native::Print | Native::Push | Native::Append | Native::Write | Native::Seed => {
            TypeV::Class("nil"@)
        },
        Native::Len | Native::ToInt | Native::Floor | Native::Next => TypeV::Class("int"@),
        Native::Type => TypeV::Class("class"@),
        Native::ToFloat => TypeV::Class("float"@),
        Native::ToStr | Native::Upper | Native::Lower | Native::Join | Native::Read => {
            TypeV::Class("string"@)
        },
        Native::ToBool | Native::Exists => TypeV::Class("bool"@),
        Native::ToList | Native::MapList | Native::Keys | Native::Values | Native::Split | Native::Lines => {
            TypeV::Class("list"@)
        },
        Native::ToDict => TypeV::Class("dict"@),
        Native::Pop | Native::Remove | Native::Abs | Native::Line => TypeV::Unknown,
    }
}

/// What a native is for.
pub open spec fn native_doc(native: Native) -> Seq<char> {
    match native {
        Native::Print => "Writes a value and a line break."@,
        Native::Len => "How many characters, items or entries a value has."@,
        Native::Type => "The type of a value."@,
        Native::ToInt => "A value as an int."@,
        Native::ToFloat => "A value as a float."@,
        Native::ToStr => "A value as a string."@,
        Native::ToBool => "A value as a bool."@,
        Native::ToList => "A value as a list."@,
        Native::ToDict => "A value as a dict."@,
        Native::Push => "Adds an item at the end."@,
        Native::Pop => "Takes the last item away."@,
        Native::MapList => "The results of a function for each item."@,
        Native::Keys => "The keys, in order."@,
        Native::Values => "The values, in the order of their keys."@,
        Native::Remove => "Takes an entry away."@,
        Native::Upper => "The text in upper case."@,
        Native::Lower => "The text in lower case."@,
        Native::Split => "The parts of the text between separators."@,
        Native::Join => "The items as one text, with this between each two."@,
        Native::Abs => "A number without its sign."@,
        Native::Floor => "The greatest int that is not above a number."@,
        Native::Append => "Adds a text at the end of a file."@,
        Native::Exists => "Whether there is a file."@,
        Native::Line => "The next line of the input, or nil at its end."@,
        Native::Lines => "The lines of a file."@,
        Native::Read => "The text of a file."@,
        Native::Write => "Makes a text all that a file holds."@,
        Native::Next => "The next random number."@,
        Native::Seed => "Starts the random numbers again from a number."@,
    }
}

/// The symbol of a native.
pub open spec fn native_symbol(kind: Kind, native: Native) -> SymbolV {
    born(kind, native.spelled(), native_names(native), native_result(native), summary(native_doc(native)))
}

fn native_names_of(native: Native) -> (r: Vec<String>)
    ensures
        strs(r@) == native_names(native),
{
    let r: Vec<String> = match native {
        Native::Print => vec!["value".to_owned()],
        Native::Len => vec!["value".to_owned()],
        Native::Type => vec!["value".to_owned()],
        Native::Push => vec!["item".to_owned()],
        Native::MapList => vec!["f".to_owned()],
        Native::Remove => vec!["key".to_owned()],
        Native::Split => vec!["separator".to_owned()],
        Native::Join => vec!["items".to_owned()],
        Native::Abs | Native::Floor | Native::Seed => vec!["n".to_owned()],
        Native::Exists | Native::Lines | Native::Read => vec!["path".to_owned()],
        Native::Append | Native::Write => vec!["path".to_owned(), "text".to_owned()],
        Native::ToInt | Native::ToFloat | Native::ToStr | Native::ToBool | Native::ToList | Native::ToDict => vec![
            "value".to_owned(),
        ],
        Native::Pop | Native::Keys | Native::Values | Native::Upper | Native::Lower | Native::Line | Native::Next => {
            Vec::new()
        },
    };
    assert(strs(r@) =~= native_names(native));
    r
}

pub(crate) fn native_result_of(native: Native) -> (r: Type)
    ensures
        r@ == native_result(native),
{
    match native {
        Native::Print | Native::Push | Native::Append | Native::Write | Native::Seed => {
            class_type("nil")
        },
        Native::Len | Native::ToInt | Native::Floor | Native::Next => class_type("int"),
        Native::Type => class_type("class"),
        Native::ToFloat => class_type("float"),
        Native::ToStr | Native::Upper | Native::Lower | Native::Join | Native::Read => {
            class_type("string")
        },
        Native::ToBool | Native::Exists => class_type("bool"),
        Native::ToList | Native::MapList | Native::Keys | Native::Values | Native::Split | Native::Lines => {
            class_type("list")
        },
        Native::ToDict => class_type("dict"),
        Native::Pop | Native::Remove | Native::Abs | Native::Line => Type::Unknown,
    }
}

fn native_doc_of(native: Native) -> (r: &'static str)
    ensures
        r@ == native_doc(native),
{
    match native {
        Native::Print => "Writes a value and a line break.",
        Native::Len => "How many characters, items or entries a value has.",
        Native::Type => "The type of a value.",
        Native::ToInt => "A value as an int.",
        Native::ToFloat => "A value as a float.",
        Native::ToStr => "A value as a string.",
        Native::ToBool => "A value as a bool.",
        Native::ToList => "A value as a list.",
        Native::ToDict => "A value as a dict.",
        Native::Push => "Adds an item at the end.",
        Native::Pop => "Takes the last item away.",
        Native::MapList => "The results of a function for each item.",
        Native::Keys => "The keys, in order.",
        Native::Values => "The values, in the order of their keys.",
        Native::Remove => "Takes an entry away.",
        Native::Upper => "The text in upper case.",
        Native::Lower => "The text in lower case.",
        Native::Split => "The parts of the text between separators.",
        Native::Join => "The items as one text, with this between each two.",
        Native::Abs => "A number without its sign.",
        Native::Floor => "The greatest int that is not above a number.",
        Native::Append => "Adds a text at the end of a file.",
        Native::Exists => "Whether there is a file.",
        Native::Line => "The next line of the input, or nil at its end.",
        Native::Lines => "The lines of a file.",
        Native::Read => "The text of a file.",
        Native::Write => "Makes a text all that a file holds.",
        Native::Next => "The next random number.",
        Native::Seed => "Starts the random numbers again from a number.",
    }
}

pub(crate) fn native_symbol_of(kind: Kind, native: Native) -> (r: Symbol)
    ensures
        r@ == native_symbol(kind, native),
{
    Symbol {
        name: native.name().to_owned(),
        kind,
        params: native_names_of(native),
        ty: native_result_of(native),
        bind: None,
        visibility: Visibility::Unsaid,
        doc: summary_of(native_doc_of(native)),
    }
}

/// A class that nothing more is said of.
pub open spec fn class_symbol(name: Seq<char>, params: Seq<Seq<char>>) -> SymbolV {
    born(Kind::Class, name, params, TypeV::Class(name), None)
}

pub(crate) fn class_symbol_of(name: &str, params: Vec<String>) -> (r: Symbol)
    ensures
        r@ == class_symbol(name@, strs(params@)),
{
    Symbol {
        name: name.to_owned(),
        kind: Kind::Class,
        params,
        ty: class_type(name),
        bind: None,
        visibility: Visibility::Unsaid,
        doc: None,
    }
}

/// The types that a program can name and call.
pub open spec fn callable_types() -> Seq<Builtin> {
    seq![Builtin::Bool, Builtin::Int, Builtin::Float, Builtin::Str, Builtin::List, Builtin::Dict]
}

/// Every name born with the language: its functions, its types and its errors.
pub open spec fn global_symbols() -> Seq<SymbolV> {
    Seq::new(global_natives().len(), |i: int| native_symbol(Kind::Function, global_natives()[i])) + Seq::new(
        callable_types().len(),
        |i: int| class_symbol(callable_types()[i].spelled(), seq!["value"@]),
    ) + Seq::new(catchable().len(), |i: int| class_symbol(error_name(catchable()[i]), seq!["message"@]))
}

fn one_param(name: &str) -> (r: Vec<String>)
    ensures
        strs(r@) == seq![name@],
{
    let r: Vec<String> = vec![name.to_owned()];
    assert(strs(r@) =~= seq![name@]);
    r
}

/// Every name born with the language.
pub fn globals() -> (r: Vec<Symbol>)
    ensures
        symbols_v(r@) == global_symbols(),
{
    let mut out: Vec<Symbol> = Vec::new();
    let ghost goal = global_symbols();
    let natives = globals_born();
    let mut i: usize = 0;
    assert(symbols_v(out@) =~= goal.take(0));
    while i < natives.len()
        invariant
            i <= natives@.len(),
            natives@ == global_natives(),
            goal == global_symbols(),
            symbols_v(out@) == goal.take(i as int),
        decreases natives@.len() - i,
    {
        let ghost before = symbols_v(out@);
        out.push(native_symbol_of(Kind::Function, natives[i]));
        assert(symbols_v(out@) =~= before.push(goal[i as int]));
        i += 1;
        assert(symbols_v(out@) =~= goal.take(i as int));
    }
    let types: Vec<Builtin> = vec![
        Builtin::Bool,
        Builtin::Int,
        Builtin::Float,
        Builtin::Str,
        Builtin::List,
        Builtin::Dict,
    ];
    assert(types@ =~= callable_types());
    let n: usize = natives.len();
    let mut k: usize = 0;
    while k < types.len()
        invariant
            k <= types@.len(),
            n == global_natives().len(),
            types@ == callable_types(),
            goal == global_symbols(),
            symbols_v(out@) == goal.take(n + k),
        decreases types@.len() - k,
    {
        let ghost before = symbols_v(out@);
        out.push(class_symbol_of(types[k].name(), one_param("value")));
        assert(symbols_v(out@) =~= before.push(goal[n + k]));
        k += 1;
        assert(symbols_v(out@) =~= goal.take(n + k));
    }
    let kinds = error_kinds();
    let m: usize = types.len();
    let mut j: usize = 0;
    while j < kinds.len()
        invariant
            j <= kinds@.len(),
            n == global_natives().len(),
            m == callable_types().len(),
            kinds@ == catchable(),
            goal == global_symbols(),
            symbols_v(out@) == goal.take(n + m + j),
        decreases kinds@.len() - j,
    {
        let ghost before = symbols_v(out@);
        let name = match kinds[j].class_name() {
            Some(name) => name,
            None => {
                assert(false);
                ""
            },
        };
        out.push(class_symbol_of(name, one_param("message")));
        assert(symbols_v(out@) =~= before.push(goal[n + m + j]));
        j += 1;
        assert(symbols_v(out@) =~= goal.take(n + m + j));
    }
    assert(symbols_v(out@) =~= goal);
    out
}

// -- modules born with the language -----------------------------------------------------------------------------

/// The constants of a module the language ships.
pub open spec fn module_constants(name: Seq<char>) -> Seq<SymbolV> {
    if name == "math"@ {
        seq![
            SymbolV {
                bind: Some(Bind::Const),
                ..born(Kind::Variable, "pi"@, Seq::empty(), TypeV::Class("float"@), None)
            },
        ]
    } else {
        Seq::empty()
    }
}

/// What a module the language ships holds: its functions, then its constants.
pub open spec fn module_members(name: Seq<char>) -> Seq<SymbolV> {
    Seq::new(shipped_natives(name).len(), |i: int| native_symbol(Kind::Function, shipped_natives(name)[i]))
        + module_constants(name)
}

/// The names of the modules the language ships.
pub fn modules() -> (r: Vec<&'static str>)
    ensures
        Seq::new(r@.len(), |i: int| r@[i]@) == shipped_modules(),
{
    let r: Vec<&'static str> = vec!["io", "math", "random"];
    assert(Seq::new(r@.len(), |i: int| r@[i]@) =~= shipped_modules());
    r
}

/// What a module the language ships holds.
pub fn module_symbols(name: &str) -> (r: Vec<Symbol>)
    ensures
        symbols_v(r@) == module_members(name@),
{
    let natives = natives_shipped(name);
    let ghost goal = module_members(name@);
    let mut out: Vec<Symbol> = Vec::new();
    let mut i: usize = 0;
    while i < natives.len()
        invariant
            i <= natives@.len(),
            natives@ == shipped_natives(name@),
            goal == module_members(name@),
            symbols_v(out@) =~= goal.take(i as int),
        decreases natives@.len() - i,
    {
        let ghost before = symbols_v(out@);
        out.push(native_symbol_of(Kind::Function, natives[i]));
        assert(symbols_v(out@) =~= before.push(goal[i as int]));
        i += 1;
    }
    if same(name, "math") {
        let ghost before = symbols_v(out@);
        let none: Vec<String> = Vec::new();
        assert(strs(none@) =~= Seq::empty());
        out.push(
            Symbol {
                name: "pi".to_owned(),
                kind: Kind::Variable,
                params: none,
                ty: class_type("float"),
                bind: Some(Bind::Const),
                visibility: Visibility::Unsaid,
                doc: None,
            },
        );
        assert(symbols_v(out@) =~= before.push(module_constants(name@)[0]));
    }
    assert(symbols_v(out@) =~= goal);
    out
}

} // verus!
