//! Tokens, and the spans that say where in the source they stand.

use crate::text::same;
use vstd::prelude::*;

verus! {

/// A range of byte offsets in a source text.
#[derive(Clone, Copy, Debug, PartialEq, Eq, Structural)]
pub struct Span {
    pub start: usize,
    pub end: usize,
}

impl Span {
    pub fn new(start: usize, end: usize) -> (r: Span)
        ensures
            r == (Span { start, end }),
    {
        Span { start, end }
    }
}

/// What a token is.
#[derive(Clone, Debug, PartialEq)]
pub enum TokenKind {
    Ident(String),
    Str(String),
    Int(i64),
    /// The bit pattern of a binary64 number.
    Float(u64),
    LParen,
    RParen,
    LBrace,
    RBrace,
    LBracket,
    RBracket,
    Comma,
    Dot,
    Colon,
    Semi,
    Question,
    Plus,
    Minus,
    Star,
    Slash,
    SlashSlash,
    Percent,
    PlusAssign,
    MinusAssign,
    StarAssign,
    SlashAssign,
    PercentAssign,
    Assign,
    Eq,
    Not,
    Ne,
    Lt,
    Le,
    Gt,
    Ge,
    AndAnd,
    OrOr,
    Eof,
    Let,
    Final,
    Const,
    Fn,
    Op,
    Class,
    Extends,
    Extend,
    Override,
    Explicit,
    Private,
    Protected,
    Public,
    Sealed,
    Complete,
    If,
    Else,
    While,
    For,
    In,
    Return,
    Try,
    Catch,
    Throw,
    Import,
    From,
    True,
    False,
    Nil,
    Super,
    Is,
}

/// [`TokenKind`] with every string as its characters.
pub enum TokenKindV {
    Ident(Seq<char>),
    Str(Seq<char>),
    Int(i64),
    Float(u64),
    LParen,
    RParen,
    LBrace,
    RBrace,
    LBracket,
    RBracket,
    Comma,
    Dot,
    Colon,
    Semi,
    Question,
    Plus,
    Minus,
    Star,
    Slash,
    SlashSlash,
    Percent,
    PlusAssign,
    MinusAssign,
    StarAssign,
    SlashAssign,
    PercentAssign,
    Assign,
    Eq,
    Not,
    Ne,
    Lt,
    Le,
    Gt,
    Ge,
    AndAnd,
    OrOr,
    Eof,
    Let,
    Final,
    Const,
    Fn,
    Op,
    Class,
    Extends,
    Extend,
    Override,
    Explicit,
    Private,
    Protected,
    Public,
    Sealed,
    Complete,
    If,
    Else,
    While,
    For,
    In,
    Return,
    Try,
    Catch,
    Throw,
    Import,
    From,
    True,
    False,
    Nil,
    Super,
    Is,
}

impl View for TokenKind {
    type V = TokenKindV;

    open spec fn view(&self) -> TokenKindV {
        match *self {
            TokenKind::Ident(s) => TokenKindV::Ident(s@),
            TokenKind::Str(s) => TokenKindV::Str(s@),
            TokenKind::Int(n) => TokenKindV::Int(n),
            TokenKind::Float(n) => TokenKindV::Float(n),
            TokenKind::LParen => TokenKindV::LParen,
            TokenKind::RParen => TokenKindV::RParen,
            TokenKind::LBrace => TokenKindV::LBrace,
            TokenKind::RBrace => TokenKindV::RBrace,
            TokenKind::LBracket => TokenKindV::LBracket,
            TokenKind::RBracket => TokenKindV::RBracket,
            TokenKind::Comma => TokenKindV::Comma,
            TokenKind::Dot => TokenKindV::Dot,
            TokenKind::Colon => TokenKindV::Colon,
            TokenKind::Semi => TokenKindV::Semi,
            TokenKind::Question => TokenKindV::Question,
            TokenKind::Plus => TokenKindV::Plus,
            TokenKind::Minus => TokenKindV::Minus,
            TokenKind::Star => TokenKindV::Star,
            TokenKind::Slash => TokenKindV::Slash,
            TokenKind::SlashSlash => TokenKindV::SlashSlash,
            TokenKind::Percent => TokenKindV::Percent,
            TokenKind::PlusAssign => TokenKindV::PlusAssign,
            TokenKind::MinusAssign => TokenKindV::MinusAssign,
            TokenKind::StarAssign => TokenKindV::StarAssign,
            TokenKind::SlashAssign => TokenKindV::SlashAssign,
            TokenKind::PercentAssign => TokenKindV::PercentAssign,
            TokenKind::Assign => TokenKindV::Assign,
            TokenKind::Eq => TokenKindV::Eq,
            TokenKind::Not => TokenKindV::Not,
            TokenKind::Ne => TokenKindV::Ne,
            TokenKind::Lt => TokenKindV::Lt,
            TokenKind::Le => TokenKindV::Le,
            TokenKind::Gt => TokenKindV::Gt,
            TokenKind::Ge => TokenKindV::Ge,
            TokenKind::AndAnd => TokenKindV::AndAnd,
            TokenKind::OrOr => TokenKindV::OrOr,
            TokenKind::Eof => TokenKindV::Eof,
            TokenKind::Let => TokenKindV::Let,
            TokenKind::Final => TokenKindV::Final,
            TokenKind::Const => TokenKindV::Const,
            TokenKind::Fn => TokenKindV::Fn,
            TokenKind::Op => TokenKindV::Op,
            TokenKind::Class => TokenKindV::Class,
            TokenKind::Extends => TokenKindV::Extends,
            TokenKind::Extend => TokenKindV::Extend,
            TokenKind::Override => TokenKindV::Override,
            TokenKind::Explicit => TokenKindV::Explicit,
            TokenKind::Private => TokenKindV::Private,
            TokenKind::Protected => TokenKindV::Protected,
            TokenKind::Public => TokenKindV::Public,
            TokenKind::Sealed => TokenKindV::Sealed,
            TokenKind::Complete => TokenKindV::Complete,
            TokenKind::If => TokenKindV::If,
            TokenKind::Else => TokenKindV::Else,
            TokenKind::While => TokenKindV::While,
            TokenKind::For => TokenKindV::For,
            TokenKind::In => TokenKindV::In,
            TokenKind::Return => TokenKindV::Return,
            TokenKind::Try => TokenKindV::Try,
            TokenKind::Catch => TokenKindV::Catch,
            TokenKind::Throw => TokenKindV::Throw,
            TokenKind::Import => TokenKindV::Import,
            TokenKind::From => TokenKindV::From,
            TokenKind::True => TokenKindV::True,
            TokenKind::False => TokenKindV::False,
            TokenKind::Nil => TokenKindV::Nil,
            TokenKind::Super => TokenKindV::Super,
            TokenKind::Is => TokenKindV::Is,
        }
    }
}

/// The keyword a word is, if it is one.
pub open spec fn keyword_of(word: Seq<char>) -> Option<TokenKindV> {
    if word == "let"@ {
        Some(TokenKindV::Let)
    }
    else if word == "final"@ {
        Some(TokenKindV::Final)
    }
    else if word == "const"@ {
        Some(TokenKindV::Const)
    }
    else if word == "fn"@ {
        Some(TokenKindV::Fn)
    }
    else if word == "op"@ {
        Some(TokenKindV::Op)
    }
    else if word == "class"@ {
        Some(TokenKindV::Class)
    }
    else if word == "extends"@ {
        Some(TokenKindV::Extends)
    }
    else if word == "extend"@ {
        Some(TokenKindV::Extend)
    }
    else if word == "override"@ {
        Some(TokenKindV::Override)
    }
    else if word == "explicit"@ {
        Some(TokenKindV::Explicit)
    }
    else if word == "private"@ {
        Some(TokenKindV::Private)
    }
    else if word == "protected"@ {
        Some(TokenKindV::Protected)
    }
    else if word == "public"@ {
        Some(TokenKindV::Public)
    }
    else if word == "sealed"@ {
        Some(TokenKindV::Sealed)
    }
    else if word == "complete"@ {
        Some(TokenKindV::Complete)
    }
    else if word == "if"@ {
        Some(TokenKindV::If)
    }
    else if word == "else"@ {
        Some(TokenKindV::Else)
    }
    else if word == "while"@ {
        Some(TokenKindV::While)
    }
    else if word == "for"@ {
        Some(TokenKindV::For)
    }
    else if word == "in"@ {
        Some(TokenKindV::In)
    }
    else if word == "return"@ {
        Some(TokenKindV::Return)
    }
    else if word == "try"@ {
        Some(TokenKindV::Try)
    }
    else if word == "catch"@ {
        Some(TokenKindV::Catch)
    }
    else if word == "throw"@ {
        Some(TokenKindV::Throw)
    }
    else if word == "import"@ {
        Some(TokenKindV::Import)
    }
    else if word == "from"@ {
        Some(TokenKindV::From)
    }
    else if word == "true"@ {
        Some(TokenKindV::True)
    }
    else if word == "false"@ {
        Some(TokenKindV::False)
    }
    else if word == "nil"@ {
        Some(TokenKindV::Nil)
    }
    else if word == "super"@ {
        Some(TokenKindV::Super)
    }
    else if word == "is"@ {
        Some(TokenKindV::Is)
    }
    else {
        None
    }
}

/// What a token is, leaving out what it carries.
#[derive(Clone, Copy, Debug, PartialEq, Eq, Structural)]
pub enum Tok {
    Ident,
    Str,
    Int,
    Float,
    LParen,
    RParen,
    LBrace,
    RBrace,
    LBracket,
    RBracket,
    Comma,
    Dot,
    Colon,
    Semi,
    Question,
    Plus,
    Minus,
    Star,
    Slash,
    SlashSlash,
    Percent,
    PlusAssign,
    MinusAssign,
    StarAssign,
    SlashAssign,
    PercentAssign,
    Assign,
    Eq,
    Not,
    Ne,
    Lt,
    Le,
    Gt,
    Ge,
    AndAnd,
    OrOr,
    Eof,
    Let,
    Final,
    Const,
    Fn,
    Op,
    Class,
    Extends,
    Extend,
    Override,
    Explicit,
    Private,
    Protected,
    Public,
    Sealed,
    Complete,
    If,
    Else,
    While,
    For,
    In,
    Return,
    Try,
    Catch,
    Throw,
    Import,
    From,
    True,
    False,
    Nil,
    Super,
    Is,
}

pub closed spec fn tok_of(kind: TokenKindV) -> Tok {
    match kind {
        TokenKindV::Ident(_) => Tok::Ident,
        TokenKindV::Str(_) => Tok::Str,
        TokenKindV::Int(_) => Tok::Int,
        TokenKindV::Float(_) => Tok::Float,
        TokenKindV::LParen => Tok::LParen,
        TokenKindV::RParen => Tok::RParen,
        TokenKindV::LBrace => Tok::LBrace,
        TokenKindV::RBrace => Tok::RBrace,
        TokenKindV::LBracket => Tok::LBracket,
        TokenKindV::RBracket => Tok::RBracket,
        TokenKindV::Comma => Tok::Comma,
        TokenKindV::Dot => Tok::Dot,
        TokenKindV::Colon => Tok::Colon,
        TokenKindV::Semi => Tok::Semi,
        TokenKindV::Question => Tok::Question,
        TokenKindV::Plus => Tok::Plus,
        TokenKindV::Minus => Tok::Minus,
        TokenKindV::Star => Tok::Star,
        TokenKindV::Slash => Tok::Slash,
        TokenKindV::SlashSlash => Tok::SlashSlash,
        TokenKindV::Percent => Tok::Percent,
        TokenKindV::PlusAssign => Tok::PlusAssign,
        TokenKindV::MinusAssign => Tok::MinusAssign,
        TokenKindV::StarAssign => Tok::StarAssign,
        TokenKindV::SlashAssign => Tok::SlashAssign,
        TokenKindV::PercentAssign => Tok::PercentAssign,
        TokenKindV::Assign => Tok::Assign,
        TokenKindV::Eq => Tok::Eq,
        TokenKindV::Not => Tok::Not,
        TokenKindV::Ne => Tok::Ne,
        TokenKindV::Lt => Tok::Lt,
        TokenKindV::Le => Tok::Le,
        TokenKindV::Gt => Tok::Gt,
        TokenKindV::Ge => Tok::Ge,
        TokenKindV::AndAnd => Tok::AndAnd,
        TokenKindV::OrOr => Tok::OrOr,
        TokenKindV::Eof => Tok::Eof,
        TokenKindV::Let => Tok::Let,
        TokenKindV::Final => Tok::Final,
        TokenKindV::Const => Tok::Const,
        TokenKindV::Fn => Tok::Fn,
        TokenKindV::Op => Tok::Op,
        TokenKindV::Class => Tok::Class,
        TokenKindV::Extends => Tok::Extends,
        TokenKindV::Extend => Tok::Extend,
        TokenKindV::Override => Tok::Override,
        TokenKindV::Explicit => Tok::Explicit,
        TokenKindV::Private => Tok::Private,
        TokenKindV::Protected => Tok::Protected,
        TokenKindV::Public => Tok::Public,
        TokenKindV::Sealed => Tok::Sealed,
        TokenKindV::Complete => Tok::Complete,
        TokenKindV::If => Tok::If,
        TokenKindV::Else => Tok::Else,
        TokenKindV::While => Tok::While,
        TokenKindV::For => Tok::For,
        TokenKindV::In => Tok::In,
        TokenKindV::Return => Tok::Return,
        TokenKindV::Try => Tok::Try,
        TokenKindV::Catch => Tok::Catch,
        TokenKindV::Throw => Tok::Throw,
        TokenKindV::Import => Tok::Import,
        TokenKindV::From => Tok::From,
        TokenKindV::True => Tok::True,
        TokenKindV::False => Tok::False,
        TokenKindV::Nil => Tok::Nil,
        TokenKindV::Super => Tok::Super,
        TokenKindV::Is => Tok::Is,
    }
}

/// The characters of a name or of a string literal.
pub closed spec fn word_of(kind: TokenKindV) -> Seq<char> {
    match kind {
        TokenKindV::Ident(s) => s,
        TokenKindV::Str(s) => s,
        TokenKindV::From => "from"@,
        _ => Seq::empty(),
    }
}

/// The value of an integer literal.
pub closed spec fn int_of(kind: TokenKindV) -> i64 {
    match kind {
        TokenKindV::Int(n) => n,
        _ => 0,
    }
}

/// The bits of a literal with a decimal point.
pub closed spec fn bits_of(kind: TokenKindV) -> u64 {
    match kind {
        TokenKindV::Float(n) => n,
        _ => 0,
    }
}

/// Each token that carries nothing is told by its own name, and by no other.
pub proof fn law_a_token_is_told_by_its_name(kind: TokenKindV)
    ensures
        tok_of(kind) == Tok::Ident <==> kind is Ident,
        tok_of(kind) == Tok::Str <==> kind is Str,
        tok_of(kind) == Tok::Int <==> kind is Int,
        tok_of(kind) == Tok::Float <==> kind is Float,
        tok_of(kind) == Tok::LParen <==> kind == TokenKindV::LParen,
        tok_of(kind) == Tok::RParen <==> kind == TokenKindV::RParen,
        tok_of(kind) == Tok::LBrace <==> kind == TokenKindV::LBrace,
        tok_of(kind) == Tok::RBrace <==> kind == TokenKindV::RBrace,
        tok_of(kind) == Tok::LBracket <==> kind == TokenKindV::LBracket,
        tok_of(kind) == Tok::RBracket <==> kind == TokenKindV::RBracket,
        tok_of(kind) == Tok::Comma <==> kind == TokenKindV::Comma,
        tok_of(kind) == Tok::Dot <==> kind == TokenKindV::Dot,
        tok_of(kind) == Tok::Colon <==> kind == TokenKindV::Colon,
        tok_of(kind) == Tok::Semi <==> kind == TokenKindV::Semi,
        tok_of(kind) == Tok::Question <==> kind == TokenKindV::Question,
        tok_of(kind) == Tok::Plus <==> kind == TokenKindV::Plus,
        tok_of(kind) == Tok::Minus <==> kind == TokenKindV::Minus,
        tok_of(kind) == Tok::Star <==> kind == TokenKindV::Star,
        tok_of(kind) == Tok::Slash <==> kind == TokenKindV::Slash,
        tok_of(kind) == Tok::SlashSlash <==> kind == TokenKindV::SlashSlash,
        tok_of(kind) == Tok::Percent <==> kind == TokenKindV::Percent,
        tok_of(kind) == Tok::PlusAssign <==> kind == TokenKindV::PlusAssign,
        tok_of(kind) == Tok::MinusAssign <==> kind == TokenKindV::MinusAssign,
        tok_of(kind) == Tok::StarAssign <==> kind == TokenKindV::StarAssign,
        tok_of(kind) == Tok::SlashAssign <==> kind == TokenKindV::SlashAssign,
        tok_of(kind) == Tok::PercentAssign <==> kind == TokenKindV::PercentAssign,
        tok_of(kind) == Tok::Assign <==> kind == TokenKindV::Assign,
        tok_of(kind) == Tok::Eq <==> kind == TokenKindV::Eq,
        tok_of(kind) == Tok::Not <==> kind == TokenKindV::Not,
        tok_of(kind) == Tok::Ne <==> kind == TokenKindV::Ne,
        tok_of(kind) == Tok::Lt <==> kind == TokenKindV::Lt,
        tok_of(kind) == Tok::Le <==> kind == TokenKindV::Le,
        tok_of(kind) == Tok::Gt <==> kind == TokenKindV::Gt,
        tok_of(kind) == Tok::Ge <==> kind == TokenKindV::Ge,
        tok_of(kind) == Tok::AndAnd <==> kind == TokenKindV::AndAnd,
        tok_of(kind) == Tok::OrOr <==> kind == TokenKindV::OrOr,
        tok_of(kind) == Tok::Eof <==> kind == TokenKindV::Eof,
        tok_of(kind) == Tok::Let <==> kind == TokenKindV::Let,
        tok_of(kind) == Tok::Final <==> kind == TokenKindV::Final,
        tok_of(kind) == Tok::Const <==> kind == TokenKindV::Const,
        tok_of(kind) == Tok::Fn <==> kind == TokenKindV::Fn,
        tok_of(kind) == Tok::Op <==> kind == TokenKindV::Op,
        tok_of(kind) == Tok::Class <==> kind == TokenKindV::Class,
        tok_of(kind) == Tok::Extends <==> kind == TokenKindV::Extends,
        tok_of(kind) == Tok::Extend <==> kind == TokenKindV::Extend,
        tok_of(kind) == Tok::Override <==> kind == TokenKindV::Override,
        tok_of(kind) == Tok::Explicit <==> kind == TokenKindV::Explicit,
        tok_of(kind) == Tok::Private <==> kind == TokenKindV::Private,
        tok_of(kind) == Tok::Protected <==> kind == TokenKindV::Protected,
        tok_of(kind) == Tok::Public <==> kind == TokenKindV::Public,
        tok_of(kind) == Tok::Sealed <==> kind == TokenKindV::Sealed,
        tok_of(kind) == Tok::Complete <==> kind == TokenKindV::Complete,
        tok_of(kind) == Tok::If <==> kind == TokenKindV::If,
        tok_of(kind) == Tok::Else <==> kind == TokenKindV::Else,
        tok_of(kind) == Tok::While <==> kind == TokenKindV::While,
        tok_of(kind) == Tok::For <==> kind == TokenKindV::For,
        tok_of(kind) == Tok::In <==> kind == TokenKindV::In,
        tok_of(kind) == Tok::Return <==> kind == TokenKindV::Return,
        tok_of(kind) == Tok::Try <==> kind == TokenKindV::Try,
        tok_of(kind) == Tok::Catch <==> kind == TokenKindV::Catch,
        tok_of(kind) == Tok::Throw <==> kind == TokenKindV::Throw,
        tok_of(kind) == Tok::Import <==> kind == TokenKindV::Import,
        tok_of(kind) == Tok::From <==> kind == TokenKindV::From,
        tok_of(kind) == Tok::True <==> kind == TokenKindV::True,
        tok_of(kind) == Tok::False <==> kind == TokenKindV::False,
        tok_of(kind) == Tok::Nil <==> kind == TokenKindV::Nil,
        tok_of(kind) == Tok::Super <==> kind == TokenKindV::Super,
        tok_of(kind) == Tok::Is <==> kind == TokenKindV::Is,
        kind is Ident ==> word_of(kind) == kind->Ident_0,
        kind is Str ==> word_of(kind) == kind->Str_0,
        kind is Int ==> int_of(kind) == kind->Int_0,
        kind is Float ==> bits_of(kind) == kind->Float_0,
{
}

/// What a keyword is for, in a few words.
pub open spec fn keyword_doc(kind: TokenKindV) -> Option<Seq<char>> {
    match kind {
        TokenKindV::Let => Some("a name that may be reassigned"@),
        TokenKindV::Final => Some("a name bound once, or a class nothing may extend"@),
        TokenKindV::Const => Some("a name bound once to a value that is frozen through and through"@),
        TokenKindV::Fn => Some("a function, or a method inside a class"@),
        TokenKindV::Op => Some("a method the language calls itself"@),
        TokenKindV::Class => Some("a class"@),
        TokenKindV::Extends => Some("names the class this one is a kind of"@),
        TokenKindV::Extend => Some("adds methods to a type from outside"@),
        TokenKindV::Override => Some("replaces an inherited method on purpose"@),
        TokenKindV::Explicit => Some("a constructor that never converts silently"@),
        TokenKindV::Private => Some("reachable only inside the class or file that declares it"@),
        TokenKindV::Protected => Some("reachable from the class and the classes extending it"@),
        TokenKindV::Public => Some("reachable from everywhere"@),
        TokenKindV::Sealed => Some("a class that can be neither extended nor added to"@),
        TokenKindV::Complete => Some("a class nothing may be added to from outside"@),
        TokenKindV::If => Some("runs a block when a condition holds"@),
        TokenKindV::Else => Some("runs when the condition did not hold"@),
        TokenKindV::While => Some("repeats a block as long as a condition holds"@),
        TokenKindV::For => Some("runs a block once for each item"@),
        TokenKindV::In => Some("what a loop walks, or whether a container holds a value"@),
        TokenKindV::Return => Some("leaves a function with a value"@),
        TokenKindV::Try => Some("runs a block whose error can be caught"@),
        TokenKindV::Catch => Some("handles the error of a `try`"@),
        TokenKindV::Throw => Some("raises an error"@),
        TokenKindV::Import => Some("loads a module"@),
        TokenKindV::From => Some("names the module an import reads from"@),
        TokenKindV::True => Some("the true bool"@),
        TokenKindV::False => Some("the false bool"@),
        TokenKindV::Nil => Some("the absence of a value"@),
        TokenKindV::Super => Some("the method of the parent class, on this object"@),
        TokenKindV::Is => Some("whether a value has a type"@),
        _ => None,
    }
}

impl TokenKind {
    /// The keyword `word` is, or `None` for every other word.
    pub fn keyword(word: &str) -> (r: Option<TokenKind>)
        ensures
            match r {
                Some(kind) => keyword_of(word@) == Some(kind@),
                None => keyword_of(word@) is None,
            },
    {
        if same(word, "let") {
            Some(TokenKind::Let)
        }
        else if same(word, "final") {
            Some(TokenKind::Final)
        }
        else if same(word, "const") {
            Some(TokenKind::Const)
        }
        else if same(word, "fn") {
            Some(TokenKind::Fn)
        }
        else if same(word, "op") {
            Some(TokenKind::Op)
        }
        else if same(word, "class") {
            Some(TokenKind::Class)
        }
        else if same(word, "extends") {
            Some(TokenKind::Extends)
        }
        else if same(word, "extend") {
            Some(TokenKind::Extend)
        }
        else if same(word, "override") {
            Some(TokenKind::Override)
        }
        else if same(word, "explicit") {
            Some(TokenKind::Explicit)
        }
        else if same(word, "private") {
            Some(TokenKind::Private)
        }
        else if same(word, "protected") {
            Some(TokenKind::Protected)
        }
        else if same(word, "public") {
            Some(TokenKind::Public)
        }
        else if same(word, "sealed") {
            Some(TokenKind::Sealed)
        }
        else if same(word, "complete") {
            Some(TokenKind::Complete)
        }
        else if same(word, "if") {
            Some(TokenKind::If)
        }
        else if same(word, "else") {
            Some(TokenKind::Else)
        }
        else if same(word, "while") {
            Some(TokenKind::While)
        }
        else if same(word, "for") {
            Some(TokenKind::For)
        }
        else if same(word, "in") {
            Some(TokenKind::In)
        }
        else if same(word, "return") {
            Some(TokenKind::Return)
        }
        else if same(word, "try") {
            Some(TokenKind::Try)
        }
        else if same(word, "catch") {
            Some(TokenKind::Catch)
        }
        else if same(word, "throw") {
            Some(TokenKind::Throw)
        }
        else if same(word, "import") {
            Some(TokenKind::Import)
        }
        else if same(word, "from") {
            Some(TokenKind::From)
        }
        else if same(word, "true") {
            Some(TokenKind::True)
        }
        else if same(word, "false") {
            Some(TokenKind::False)
        }
        else if same(word, "nil") {
            Some(TokenKind::Nil)
        }
        else if same(word, "super") {
            Some(TokenKind::Super)
        }
        else if same(word, "is") {
            Some(TokenKind::Is)
        }
        else {
            None
        }
    }

    /// What a keyword is for, in a few words; `None` for every other token.
    pub fn doc(&self) -> (r: Option<&'static str>)
        ensures
            match r {
                Some(text) => keyword_doc(self@) == Some(text@),
                None => keyword_doc(self@) is None,
            },
    {
        match self {
            TokenKind::Let => Some("a name that may be reassigned"),
            TokenKind::Final => Some("a name bound once, or a class nothing may extend"),
            TokenKind::Const => Some("a name bound once to a value that is frozen through and through"),
            TokenKind::Fn => Some("a function, or a method inside a class"),
            TokenKind::Op => Some("a method the language calls itself"),
            TokenKind::Class => Some("a class"),
            TokenKind::Extends => Some("names the class this one is a kind of"),
            TokenKind::Extend => Some("adds methods to a type from outside"),
            TokenKind::Override => Some("replaces an inherited method on purpose"),
            TokenKind::Explicit => Some("a constructor that never converts silently"),
            TokenKind::Private => Some("reachable only inside the class or file that declares it"),
            TokenKind::Protected => Some("reachable from the class and the classes extending it"),
            TokenKind::Public => Some("reachable from everywhere"),
            TokenKind::Sealed => Some("a class that can be neither extended nor added to"),
            TokenKind::Complete => Some("a class nothing may be added to from outside"),
            TokenKind::If => Some("runs a block when a condition holds"),
            TokenKind::Else => Some("runs when the condition did not hold"),
            TokenKind::While => Some("repeats a block as long as a condition holds"),
            TokenKind::For => Some("runs a block once for each item"),
            TokenKind::In => Some("what a loop walks, or whether a container holds a value"),
            TokenKind::Return => Some("leaves a function with a value"),
            TokenKind::Try => Some("runs a block whose error can be caught"),
            TokenKind::Catch => Some("handles the error of a `try`"),
            TokenKind::Throw => Some("raises an error"),
            TokenKind::Import => Some("loads a module"),
            TokenKind::From => Some("names the module an import reads from"),
            TokenKind::True => Some("the true bool"),
            TokenKind::False => Some("the false bool"),
            TokenKind::Nil => Some("the absence of a value"),
            TokenKind::Super => Some("the method of the parent class, on this object"),
            TokenKind::Is => Some("whether a value has a type"),
            _ => None,
        }
    }

    pub fn tok(&self) -> (r: Tok)
        ensures
            r == tok_of(self@),
    {
        match self {
            TokenKind::Ident(_) => Tok::Ident,
            TokenKind::Str(_) => Tok::Str,
            TokenKind::Int(_) => Tok::Int,
            TokenKind::Float(_) => Tok::Float,
            TokenKind::LParen => Tok::LParen,
            TokenKind::RParen => Tok::RParen,
            TokenKind::LBrace => Tok::LBrace,
            TokenKind::RBrace => Tok::RBrace,
            TokenKind::LBracket => Tok::LBracket,
            TokenKind::RBracket => Tok::RBracket,
            TokenKind::Comma => Tok::Comma,
            TokenKind::Dot => Tok::Dot,
            TokenKind::Colon => Tok::Colon,
            TokenKind::Semi => Tok::Semi,
            TokenKind::Question => Tok::Question,
            TokenKind::Plus => Tok::Plus,
            TokenKind::Minus => Tok::Minus,
            TokenKind::Star => Tok::Star,
            TokenKind::Slash => Tok::Slash,
            TokenKind::SlashSlash => Tok::SlashSlash,
            TokenKind::Percent => Tok::Percent,
            TokenKind::PlusAssign => Tok::PlusAssign,
            TokenKind::MinusAssign => Tok::MinusAssign,
            TokenKind::StarAssign => Tok::StarAssign,
            TokenKind::SlashAssign => Tok::SlashAssign,
            TokenKind::PercentAssign => Tok::PercentAssign,
            TokenKind::Assign => Tok::Assign,
            TokenKind::Eq => Tok::Eq,
            TokenKind::Not => Tok::Not,
            TokenKind::Ne => Tok::Ne,
            TokenKind::Lt => Tok::Lt,
            TokenKind::Le => Tok::Le,
            TokenKind::Gt => Tok::Gt,
            TokenKind::Ge => Tok::Ge,
            TokenKind::AndAnd => Tok::AndAnd,
            TokenKind::OrOr => Tok::OrOr,
            TokenKind::Eof => Tok::Eof,
            TokenKind::Let => Tok::Let,
            TokenKind::Final => Tok::Final,
            TokenKind::Const => Tok::Const,
            TokenKind::Fn => Tok::Fn,
            TokenKind::Op => Tok::Op,
            TokenKind::Class => Tok::Class,
            TokenKind::Extends => Tok::Extends,
            TokenKind::Extend => Tok::Extend,
            TokenKind::Override => Tok::Override,
            TokenKind::Explicit => Tok::Explicit,
            TokenKind::Private => Tok::Private,
            TokenKind::Protected => Tok::Protected,
            TokenKind::Public => Tok::Public,
            TokenKind::Sealed => Tok::Sealed,
            TokenKind::Complete => Tok::Complete,
            TokenKind::If => Tok::If,
            TokenKind::Else => Tok::Else,
            TokenKind::While => Tok::While,
            TokenKind::For => Tok::For,
            TokenKind::In => Tok::In,
            TokenKind::Return => Tok::Return,
            TokenKind::Try => Tok::Try,
            TokenKind::Catch => Tok::Catch,
            TokenKind::Throw => Tok::Throw,
            TokenKind::Import => Tok::Import,
            TokenKind::From => Tok::From,
            TokenKind::True => Tok::True,
            TokenKind::False => Tok::False,
            TokenKind::Nil => Tok::Nil,
            TokenKind::Super => Tok::Super,
            TokenKind::Is => Tok::Is,
        }
    }

    /// The characters of a name or of a string literal.
    pub fn word(&self) -> (r: String)
        ensures
            r@ == word_of(self@),
    {
        match self {
            TokenKind::Ident(s) => s.clone(),
            TokenKind::Str(s) => s.clone(),
            TokenKind::From => "from".to_owned(),
            _ => {
                let none = String::new();
                assert(none@ =~= Seq::empty());
                none
            },
        }
    }

    /// The value of an integer literal.
    pub fn number(&self) -> (r: i64)
        ensures
            r == int_of(self@),
    {
        match self {
            TokenKind::Int(n) => *n,
            _ => 0,
        }
    }

    /// The bits of a literal with a decimal point.
    pub fn bits(&self) -> (r: u64)
        ensures
            r == bits_of(self@),
    {
        match self {
            TokenKind::Float(n) => *n,
            _ => 0,
        }
    }

}

/// One token: what it is, where it stands, and whether a line break came before it.
#[derive(Clone, Debug, PartialEq)]
pub struct Token {
    pub kind: TokenKind,
    pub span: Span,
    pub newline_before: bool,
}

/// [`Token`] with every string as its characters.
pub struct TokenV {
    pub kind: TokenKindV,
    pub span: Span,
    pub newline_before: bool,
}

impl View for Token {
    type V = TokenV;

    open spec fn view(&self) -> TokenV {
        TokenV { kind: self.kind@, span: self.span, newline_before: self.newline_before }
    }
}

/// The contents of a sequence of tokens.
pub open spec fn tokens_view(ts: Seq<Token>) -> Seq<TokenV> {
    Seq::new(ts.len(), |i: int| ts[i]@)
}

/// Every keyword of the language, in the order a reader meets them.
pub open spec fn all_keywords() -> Seq<Seq<char>> {
    seq![
        "let"@,
        "final"@,
        "const"@,
        "fn"@,
        "op"@,
        "class"@,
        "extends"@,
        "extend"@,
        "override"@,
        "explicit"@,
        "private"@,
        "protected"@,
        "public"@,
        "sealed"@,
        "complete"@,
        "if"@,
        "else"@,
        "while"@,
        "for"@,
        "in"@,
        "return"@,
        "try"@,
        "catch"@,
        "throw"@,
        "import"@,
        "from"@,
        "true"@,
        "false"@,
        "nil"@,
        "super"@,
        "is"@,
    ]
}

/// [`all_keywords`], computed.
pub fn keywords() -> (r: Vec<&'static str>)
    ensures
        Seq::new(r@.len(), |i: int| r@[i]@) == all_keywords(),
        forall|i: int| 0 <= i < r@.len() ==> keyword_of(#[trigger] r@[i]@) is Some,
{
    let r: Vec<&'static str> = vec![
        "let",
        "final",
        "const",
        "fn",
        "op",
        "class",
        "extends",
        "extend",
        "override",
        "explicit",
        "private",
        "protected",
        "public",
        "sealed",
        "complete",
        "if",
        "else",
        "while",
        "for",
        "in",
        "return",
        "try",
        "catch",
        "throw",
        "import",
        "from",
        "true",
        "false",
        "nil",
        "super",
        "is",
    ];
    assert(Seq::new(r@.len(), |i: int| r@[i]@) =~= all_keywords());
    r
}

} // verus!
