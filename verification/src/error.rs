//! What any stage of the language raises.

use crate::syntax::token::Span;
use vstd::prelude::*;

verus! {

/// What kind of mistake an error reports.
#[derive(Clone, Copy, Debug, PartialEq, Eq, Structural)]
pub enum ErrorKind {
    /// A text that is not a program.
    Syntax,
    /// A declaration that is refused, or a use of one, before anything runs.
    Declaration,
    /// More steps than an evaluation may take, which nothing catches.
    Budget,
    /// A `throw`, which carries the instance it raised.
    Thrown,
    Runtime,
    Type,
    Name,
    Value,
    Overflow,
    ZeroDivision,
    Index,
    Key,
    Attr,
    Frozen,
    Recursion,
    Import,
    Io,
    Visibility,
}

/// The class a caught error of this kind is an instance of. The kinds that
/// name none are never caught as one of their own.
pub open spec fn class_name_of(kind: ErrorKind) -> Option<Seq<char>> {
    match kind {
        ErrorKind::Runtime => Some("Error"@),
        ErrorKind::Type => Some("TypeError"@),
        ErrorKind::Name => Some("NameError"@),
        ErrorKind::Value => Some("ValueError"@),
        ErrorKind::Overflow => Some("OverflowError"@),
        ErrorKind::ZeroDivision => Some("ZeroDivisionError"@),
        ErrorKind::Index => Some("IndexError"@),
        ErrorKind::Key => Some("KeyError"@),
        ErrorKind::Attr => Some("AttrError"@),
        ErrorKind::Frozen => Some("FrozenError"@),
        ErrorKind::Recursion => Some("RecursionError"@),
        ErrorKind::Import => Some("ImportError"@),
        ErrorKind::Io => Some("IoError"@),
        ErrorKind::Visibility => Some("VisibilityError"@),
        ErrorKind::Syntax | ErrorKind::Declaration | ErrorKind::Budget | ErrorKind::Thrown => None,
    }
}

impl ErrorKind {
    /// The class a caught error of this kind is an instance of.
    pub fn class_name(&self) -> (r: Option<&'static str>)
        ensures
            match r {
                Some(name) => class_name_of(*self) == Some(name@),
                None => class_name_of(*self) is None,
            },
    {
        match self {
            ErrorKind::Runtime => Some("Error"),
            ErrorKind::Type => Some("TypeError"),
            ErrorKind::Name => Some("NameError"),
            ErrorKind::Value => Some("ValueError"),
            ErrorKind::Overflow => Some("OverflowError"),
            ErrorKind::ZeroDivision => Some("ZeroDivisionError"),
            ErrorKind::Index => Some("IndexError"),
            ErrorKind::Key => Some("KeyError"),
            ErrorKind::Attr => Some("AttrError"),
            ErrorKind::Frozen => Some("FrozenError"),
            ErrorKind::Recursion => Some("RecursionError"),
            ErrorKind::Import => Some("ImportError"),
            ErrorKind::Io => Some("IoError"),
            ErrorKind::Visibility => Some("VisibilityError"),
            ErrorKind::Syntax | ErrorKind::Declaration | ErrorKind::Budget | ErrorKind::Thrown => None,
        }
    }
}

/// The kinds a program can catch, the base class first.
pub open spec fn catchable() -> Seq<ErrorKind> {
    seq![
        ErrorKind::Runtime,
        ErrorKind::Type,
        ErrorKind::Name,
        ErrorKind::Value,
        ErrorKind::Overflow,
        ErrorKind::ZeroDivision,
        ErrorKind::Index,
        ErrorKind::Key,
        ErrorKind::Attr,
        ErrorKind::Frozen,
        ErrorKind::Recursion,
        ErrorKind::Import,
        ErrorKind::Io,
        ErrorKind::Visibility,
    ]
}

/// [`catchable`], computed.
pub fn error_kinds() -> (r: Vec<ErrorKind>)
    ensures
        r@ == catchable(),
{
    let r: Vec<ErrorKind> = vec![
        ErrorKind::Runtime,
        ErrorKind::Type,
        ErrorKind::Name,
        ErrorKind::Value,
        ErrorKind::Overflow,
        ErrorKind::ZeroDivision,
        ErrorKind::Index,
        ErrorKind::Key,
        ErrorKind::Attr,
        ErrorKind::Frozen,
        ErrorKind::Recursion,
        ErrorKind::Import,
        ErrorKind::Io,
        ErrorKind::Visibility,
    ];
    assert(r@ =~= catchable());
    r
}

/// A place a report marks, with what it says there. An empty text marks the place
/// and says nothing.
#[derive(Clone, Debug, PartialEq)]
pub struct Label {
    pub span: Span,
    pub text: String,
}

/// [`Label`] with its text as characters.
pub struct LabelV {
    pub span: Span,
    pub text: Seq<char>,
}

impl View for Label {
    type V = LabelV;

    open spec fn view(&self) -> LabelV {
        LabelV { span: self.span, text: self.text@ }
    }
}

/// An error, from any stage.
#[derive(Clone, Debug, PartialEq)]
pub struct QuinceError {
    pub kind: ErrorKind,
    pub message: String,
    pub span: Span,
    pub help: Option<String>,
    pub labels: Vec<Label>,
    /// The instance a `throw` raised.
    pub payload: Option<usize>,
    /// The file the span belongs to, where it is not the one that was run.
    pub module: Option<String>,
    /// The name of the class a `throw` raised an instance of, which an error that nothing
    /// catches is reported as.
    pub class: Option<String>,
}

/// [`QuinceError`] with every string as its characters.
#[verifier::ext_equal]
pub struct ErrV {
    pub kind: ErrorKind,
    pub message: Seq<char>,
    pub span: Span,
    pub help: Option<Seq<char>>,
    pub labels: Seq<LabelV>,
    pub payload: Option<usize>,
    pub module: Option<Seq<char>>,
    pub class: Option<Seq<char>>,
}

/// The contents of a sequence of labels.
pub open spec fn labels_view(ls: Seq<Label>) -> Seq<LabelV> {
    Seq::new(ls.len(), |i: int| ls[i]@)
}

/// The characters of a string that may be absent.
pub open spec fn opt_str(s: Option<String>) -> Option<Seq<char>> {
    match s {
        Some(s) => Some(s@),
        None => None,
    }
}

impl View for QuinceError {
    type V = ErrV;

    open spec fn view(&self) -> ErrV {
        ErrV {
            kind: self.kind,
            message: self.message@,
            span: self.span,
            help: opt_str(self.help),
            labels: labels_view(self.labels@),
            payload: self.payload,
            module: opt_str(self.module),
            class: opt_str(self.class),
        }
    }
}

/// What an outcome says of an error, by its contents.
pub open spec fn res<T>(r: Result<T, QuinceError>) -> Result<T, ErrV> {
    match r {
        Ok(v) => Ok(v),
        Err(e) => Err(e@),
    }
}

/// A bare error: a kind, a sentence and a place.
pub open spec fn err(kind: ErrorKind, message: Seq<char>, span: Span) -> ErrV {
    ErrV {
        kind,
        message,
        span,
        help: None,
        labels: Seq::empty(),
        payload: None,
        module: None,
        class: None,
    }
}

/// A bare error with a line of help.
pub open spec fn err_help(kind: ErrorKind, message: Seq<char>, span: Span, help: Seq<char>) -> ErrV {
    ErrV { help: Some(help), ..err(kind, message, span) }
}

impl QuinceError {
    pub fn new(kind: ErrorKind, message: String, span: Span) -> (r: QuinceError)
        ensures
            r@ == err(kind, message@, span),
    {
        let r = QuinceError {
            kind,
            message,
            span,
            help: None,
            labels: Vec::new(),
            payload: None,
            module: None,
            class: None,
        };
        assert(labels_view(r.labels@) =~= Seq::empty());
        r
    }

    /// The same error with this line of help.
    pub fn with_help(self, help: String) -> (r: QuinceError)
        ensures
            r@ == (ErrV { help: Some(help@), ..self@ }),
    {
        QuinceError { help: Some(help), ..self }
    }

    /// The same error marking one more place.
    pub fn with_label(self, span: Span, text: String) -> (r: QuinceError)
        ensures
            r@ == (ErrV { labels: self@.labels.push(LabelV { span, text: text@ }), ..self@ }),
    {
        let mut labels = self.labels;
        let ghost old_labels = labels@;
        labels.push(Label { span, text });
        assert(labels_view(labels@) =~= labels_view(old_labels).push(LabelV { span, text: text@ }));
        QuinceError { labels, ..self }
    }

    /// The same error, known to be about this file unless it already names one.
    pub fn in_module(self, path: &str) -> (r: QuinceError)
        ensures
            r@ == in_module_of(self@, path@),
    {
        match self.module {
            Some(_) => self,
            None => QuinceError { module: Some(path.to_owned()), ..self },
        }
    }
}

/// Errors as models.
pub open spec fn errs_v(s: Seq<QuinceError>) -> Seq<ErrV> {
    s.map_values(|e: QuinceError| e@)
}

/// What an error that nothing catches is reported as: the class that was thrown, or the
/// class of its kind, or what refused the program before it ran.
pub open spec fn reported_as(e: ErrV) -> Seq<char> {
    match e.class {
        Some(name) => name,
        None => match class_name_of(e.kind) {
            Some(name) => name,
            None => if e.kind == ErrorKind::Declaration {
                "DeclarationError"@
            } else if e.kind == ErrorKind::Budget {
                "BudgetError"@
            } else {
                "SyntaxError"@
            },
        },
    }
}

impl QuinceError {
    /// What an error that nothing catches is reported as.
    pub fn report_name(&self) -> (r: String)
        ensures
            r@ == reported_as(self@),
    {
        match &self.class {
            Some(name) => name.as_str().to_owned(),
            None => match self.kind.class_name() {
                Some(name) => name.to_owned(),
                None => match self.kind {
                    ErrorKind::Declaration => "DeclarationError".to_owned(),
                    ErrorKind::Budget => "BudgetError".to_owned(),
                    _ => "SyntaxError".to_owned(),
                },
            },
        }
    }
}

/// An error as it leaves a module: it keeps the file it already names.
pub open spec fn in_module_of(e: ErrV, path: Seq<char>) -> ErrV {
    match e.module {
        Some(_) => e,
        None => ErrV { module: Some(path), ..e },
    }
}

} // verus!
