//! The tree a program is parsed into.
//!
//! Each type of the tree has a model beside it, named with a `V`, that holds
//! sequences where the tree holds vectors and characters where it holds strings.

use crate::syntax::token::Span;
use crate::text::same;
use std::rc::Rc;
use vstd::prelude::*;

verus! {

#[derive(Clone, Copy, Debug, PartialEq, Eq, Structural)]
pub enum UnaryOp {
    Neg,
    Not,
    BitNot,
}

#[derive(Clone, Copy, Debug, PartialEq, Eq, Structural)]
pub enum BinaryOp {
    Add,
    Sub,
    Mul,
    Div,
    FloorDiv,
    Rem,
    Pow,
    BitAnd,
    BitOr,
    BitXor,
    Shl,
    Shr,
    Eq,
    Ne,
    Lt,
    Le,
    Gt,
    Ge,
    In,
}

#[derive(Clone, Copy, Debug, PartialEq, Eq, Structural)]
pub enum LogicalOp {
    And,
    Or,
}

/// How a name is bound.
#[derive(Clone, Copy, Debug, PartialEq, Eq, Structural)]
pub enum Bind {
    Let,
    Final,
    Const,
}

impl Bind {
    /// Whether the name may be assigned again.
    pub open spec fn is_mutable(self) -> bool {
        self == Bind::Let
    }

    /// Whether the value is frozen as it is bound.
    pub open spec fn does_freeze(self) -> bool {
        self == Bind::Const
    }

    pub fn mutable(self) -> (r: bool)
        ensures
            r == self.is_mutable(),
    {
        self == Bind::Let
    }

    pub fn freezes(self) -> (r: bool)
        ensures
            r == self.does_freeze(),
    {
        self == Bind::Const
    }

    /// The word a name is bound with.
    pub open spec fn spelled(self) -> Seq<char> {
        match self {
            Bind::Let => "let"@,
            Bind::Final => "final"@,
            Bind::Const => "const"@,
        }
    }

    pub fn word(self) -> (r: &'static str)
        ensures
            r@ == self.spelled(),
    {
        match self {
            Bind::Let => "let",
            Bind::Final => "final",
            Bind::Const => "const",
        }
    }
}

/// Who may reach a member, or a file's top-level name.
#[derive(Clone, Copy, Debug, PartialEq, Eq, Structural)]
pub enum Visibility {
    Unsaid,
    Public,
    Protected,
    Private,
}

impl Visibility {
    pub open spec fn is_exported(self) -> bool {
        self != Visibility::Private
    }

    /// Whether another file may import the name.
    pub fn exported(self) -> (r: bool)
        ensures
            r == self.is_exported(),
    {
        self != Visibility::Private
    }

    pub open spec fn is_closed_outside(self) -> bool {
        self == Visibility::Private || self == Visibility::Protected
    }

    /// Whether code outside the hierarchy is refused.
    pub fn closes_outside(self) -> (r: bool)
        ensures
            r == self.is_closed_outside(),
    {
        self == Visibility::Private || self == Visibility::Protected
    }

    pub open spec fn is_closed_to_subclass(self) -> bool {
        self == Visibility::Private
    }

    /// Whether a subclass is refused too.
    pub fn closes_subclass(self) -> (r: bool)
        ensures
            r == self.is_closed_to_subclass(),
    {
        self == Visibility::Private
    }
}

/// Which of a class's two doors are closed.
#[derive(Clone, Copy, Debug, PartialEq, Eq, Structural)]
pub enum Openness {
    Open,
    Final,
    Sealed,
    Complete,
}

impl Openness {
    pub open spec fn is_closed_to_inheritance(self) -> bool {
        self == Openness::Final || self == Openness::Sealed
    }

    /// Whether no class may extend this one.
    pub fn closes_inheritance(self) -> (r: bool)
        ensures
            r == self.is_closed_to_inheritance(),
    {
        self == Openness::Final || self == Openness::Sealed
    }

    pub open spec fn is_closed_to_extension(self) -> bool {
        self == Openness::Complete || self == Openness::Sealed
    }

    /// Whether no `extend` block may add to this one.
    pub fn closes_extension(self) -> (r: bool)
        ensures
            r == self.is_closed_to_extension(),
    {
        self == Openness::Complete || self == Openness::Sealed
    }

    /// The word a closed class was declared with.
    pub open spec fn spelled(self) -> Seq<char> {
        match self {
            Openness::Open => ""@,
            Openness::Final => "final"@,
            Openness::Sealed => "sealed"@,
            Openness::Complete => "complete"@,
        }
    }

    pub fn word(self) -> (r: &'static str)
        ensures
            r@ == self.spelled(),
    {
        match self {
            Openness::Open => "",
            Openness::Final => "final",
            Openness::Sealed => "sealed",
            Openness::Complete => "complete",
        }
    }
}

/// A method the language calls itself.
#[derive(Clone, Copy, Debug, PartialEq, Eq, Structural)]
pub enum Op {
    Init,
    Str,
    Bool,
    Int,
    Float,
    List,
    Dict,
    Eq,
    Lt,
    Gt,
    Cmp,
    Neg,
    BitNot,
    Add,
    Sub,
    Mul,
    Div,
    FloorDiv,
    Rem,
    Pow,
    BitAnd,
    BitOr,
    BitXor,
    BitShl,
    BitShr,
    Contains,
    Get,
    Put,
    Iter,
}

/// How many ops there are.
pub const OP_COUNT: usize = 29;

impl Op {
    /// Where an op stands in a class's slots.
    pub open spec fn position(self) -> int {
        match self {
            Op::Init => 0,
            Op::Str => 1,
            Op::Bool => 2,
            Op::Int => 3,
            Op::Float => 4,
            Op::List => 5,
            Op::Dict => 6,
            Op::Eq => 7,
            Op::Lt => 8,
            Op::Gt => 9,
            Op::Cmp => 10,
            Op::Neg => 11,
            Op::BitNot => 12,
            Op::Add => 13,
            Op::Sub => 14,
            Op::Mul => 15,
            Op::Div => 16,
            Op::FloorDiv => 17,
            Op::Rem => 18,
            Op::Pow => 19,
            Op::BitAnd => 20,
            Op::BitOr => 21,
            Op::BitXor => 22,
            Op::BitShl => 23,
            Op::BitShr => 24,
            Op::Contains => 25,
            Op::Get => 26,
            Op::Put => 27,
            Op::Iter => 28,
        }
    }

    pub fn index(self) -> (r: usize)
        ensures
            r == self.position(),
            r < OP_COUNT,
    {
        match self {
            Op::Init => 0,
            Op::Str => 1,
            Op::Bool => 2,
            Op::Int => 3,
            Op::Float => 4,
            Op::List => 5,
            Op::Dict => 6,
            Op::Eq => 7,
            Op::Lt => 8,
            Op::Gt => 9,
            Op::Cmp => 10,
            Op::Neg => 11,
            Op::BitNot => 12,
            Op::Add => 13,
            Op::Sub => 14,
            Op::Mul => 15,
            Op::Div => 16,
            Op::FloorDiv => 17,
            Op::Rem => 18,
            Op::Pow => 19,
            Op::BitAnd => 20,
            Op::BitOr => 21,
            Op::BitXor => 22,
            Op::BitShl => 23,
            Op::BitShr => 24,
            Op::Contains => 25,
            Op::Get => 26,
            Op::Put => 27,
            Op::Iter => 28,
        }
    }

    /// The word an op is declared with.
    pub open spec fn spelled(self) -> Seq<char> {
        match self {
            Op::Init => "init"@,
            Op::Str => "string"@,
            Op::Bool => "bool"@,
            Op::Int => "int"@,
            Op::Float => "float"@,
            Op::List => "list"@,
            Op::Dict => "dict"@,
            Op::Eq => "eq"@,
            Op::Lt => "lt"@,
            Op::Gt => "gt"@,
            Op::Cmp => "cmp"@,
            Op::Neg => "neg"@,
            Op::BitNot => "bitnot"@,
            Op::Add => "add"@,
            Op::Sub => "sub"@,
            Op::Mul => "mul"@,
            Op::Div => "div"@,
            Op::FloorDiv => "floordiv"@,
            Op::Rem => "rem"@,
            Op::Pow => "pow"@,
            Op::BitAnd => "bitand"@,
            Op::BitOr => "bitor"@,
            Op::BitXor => "bitxor"@,
            Op::BitShl => "shl"@,
            Op::BitShr => "shr"@,
            Op::Contains => "contains"@,
            Op::Get => "get"@,
            Op::Put => "set"@,
            Op::Iter => "iter"@,
        }
    }

    pub fn name(self) -> (r: &'static str)
        ensures
            r@ == self.spelled(),
    {
        match self {
            Op::Init => "init",
            Op::Str => "string",
            Op::Bool => "bool",
            Op::Int => "int",
            Op::Float => "float",
            Op::List => "list",
            Op::Dict => "dict",
            Op::Eq => "eq",
            Op::Lt => "lt",
            Op::Gt => "gt",
            Op::Cmp => "cmp",
            Op::Neg => "neg",
            Op::BitNot => "bitnot",
            Op::Add => "add",
            Op::Sub => "sub",
            Op::Mul => "mul",
            Op::Div => "div",
            Op::FloorDiv => "floordiv",
            Op::Rem => "rem",
            Op::Pow => "pow",
            Op::BitAnd => "bitand",
            Op::BitOr => "bitor",
            Op::BitXor => "bitxor",
            Op::BitShl => "shl",
            Op::BitShr => "shr",
            Op::Contains => "contains",
            Op::Get => "get",
            Op::Put => "set",
            Op::Iter => "iter",
        }
    }

    /// How many operands an op takes besides the receiver; a constructor takes any number.
    pub open spec fn operands(self) -> Option<nat> {
        match self {
            Op::Init => None,
            Op::Str => Some(0),
            Op::Bool => Some(0),
            Op::Int => Some(0),
            Op::Float => Some(0),
            Op::List => Some(0),
            Op::Dict => Some(0),
            Op::Eq => Some(1),
            Op::Lt => Some(1),
            Op::Gt => Some(1),
            Op::Cmp => Some(1),
            Op::Neg => Some(0),
            Op::BitNot => Some(0),
            Op::Add => Some(1),
            Op::Sub => Some(1),
            Op::Mul => Some(1),
            Op::Div => Some(1),
            Op::FloorDiv => Some(1),
            Op::Rem => Some(1),
            Op::Pow => Some(1),
            Op::BitAnd => Some(1),
            Op::BitOr => Some(1),
            Op::BitXor => Some(1),
            Op::BitShl => Some(1),
            Op::BitShr => Some(1),
            Op::Contains => Some(1),
            Op::Get => Some(1),
            Op::Put => Some(2),
            Op::Iter => Some(0),
        }
    }

    pub fn arity(self) -> (r: Option<usize>)
        ensures
            match r {
                Some(n) => self.operands() == Some(n as nat),
                None => self.operands() is None,
            },
    {
        match self {
            Op::Init => None,
            Op::Str => Some(0),
            Op::Bool => Some(0),
            Op::Int => Some(0),
            Op::Float => Some(0),
            Op::List => Some(0),
            Op::Dict => Some(0),
            Op::Eq => Some(1),
            Op::Lt => Some(1),
            Op::Gt => Some(1),
            Op::Cmp => Some(1),
            Op::Neg => Some(0),
            Op::BitNot => Some(0),
            Op::Add => Some(1),
            Op::Sub => Some(1),
            Op::Mul => Some(1),
            Op::Div => Some(1),
            Op::FloorDiv => Some(1),
            Op::Rem => Some(1),
            Op::Pow => Some(1),
            Op::BitAnd => Some(1),
            Op::BitOr => Some(1),
            Op::BitXor => Some(1),
            Op::BitShl => Some(1),
            Op::BitShr => Some(1),
            Op::Contains => Some(1),
            Op::Get => Some(1),
            Op::Put => Some(2),
            Op::Iter => Some(0),
        }
    }

    /// Whether the operand on the right may answer where the one on the left does not:
    /// only where swapping the two loses nothing.
    pub open spec fn is_reflected(self) -> bool {
        self == Op::Eq || self == Op::Cmp
    }

    pub fn reflects(self) -> (r: bool)
        ensures
            r == self.is_reflected(),
    {
        self == Op::Eq || self == Op::Cmp
    }
}

/// The op a word names.
pub open spec fn op_named(word: Seq<char>) -> Option<Op> {
    if word == "init"@ {
        Some(Op::Init)
    }
    else if word == "string"@ {
        Some(Op::Str)
    }
    else if word == "bool"@ {
        Some(Op::Bool)
    }
    else if word == "int"@ {
        Some(Op::Int)
    }
    else if word == "float"@ {
        Some(Op::Float)
    }
    else if word == "list"@ {
        Some(Op::List)
    }
    else if word == "dict"@ {
        Some(Op::Dict)
    }
    else if word == "eq"@ {
        Some(Op::Eq)
    }
    else if word == "lt"@ {
        Some(Op::Lt)
    }
    else if word == "gt"@ {
        Some(Op::Gt)
    }
    else if word == "cmp"@ {
        Some(Op::Cmp)
    }
    else if word == "neg"@ {
        Some(Op::Neg)
    }
    else if word == "bitnot"@ {
        Some(Op::BitNot)
    }
    else if word == "add"@ {
        Some(Op::Add)
    }
    else if word == "sub"@ {
        Some(Op::Sub)
    }
    else if word == "mul"@ {
        Some(Op::Mul)
    }
    else if word == "div"@ {
        Some(Op::Div)
    }
    else if word == "floordiv"@ {
        Some(Op::FloorDiv)
    }
    else if word == "rem"@ {
        Some(Op::Rem)
    }
    else if word == "pow"@ {
        Some(Op::Pow)
    }
    else if word == "bitand"@ {
        Some(Op::BitAnd)
    }
    else if word == "bitor"@ {
        Some(Op::BitOr)
    }
    else if word == "bitxor"@ {
        Some(Op::BitXor)
    }
    else if word == "shl"@ {
        Some(Op::BitShl)
    }
    else if word == "shr"@ {
        Some(Op::BitShr)
    }
    else if word == "contains"@ {
        Some(Op::Contains)
    }
    else if word == "get"@ {
        Some(Op::Get)
    }
    else if word == "set"@ {
        Some(Op::Put)
    }
    else if word == "iter"@ {
        Some(Op::Iter)
    }
    else {
        None
    }
}

/// [`op_named`], computed.
pub fn op_of(word: &str) -> (r: Option<Op>)
    ensures
        r == op_named(word@),
{
    if same(word, "init") {
        Some(Op::Init)
    }
    else if same(word, "string") {
        Some(Op::Str)
    }
    else if same(word, "bool") {
        Some(Op::Bool)
    }
    else if same(word, "int") {
        Some(Op::Int)
    }
    else if same(word, "float") {
        Some(Op::Float)
    }
    else if same(word, "list") {
        Some(Op::List)
    }
    else if same(word, "dict") {
        Some(Op::Dict)
    }
    else if same(word, "eq") {
        Some(Op::Eq)
    }
    else if same(word, "lt") {
        Some(Op::Lt)
    }
    else if same(word, "gt") {
        Some(Op::Gt)
    }
    else if same(word, "cmp") {
        Some(Op::Cmp)
    }
    else if same(word, "neg") {
        Some(Op::Neg)
    }
    else if same(word, "bitnot") {
        Some(Op::BitNot)
    }
    else if same(word, "add") {
        Some(Op::Add)
    }
    else if same(word, "sub") {
        Some(Op::Sub)
    }
    else if same(word, "mul") {
        Some(Op::Mul)
    }
    else if same(word, "div") {
        Some(Op::Div)
    }
    else if same(word, "floordiv") {
        Some(Op::FloorDiv)
    }
    else if same(word, "rem") {
        Some(Op::Rem)
    }
    else if same(word, "pow") {
        Some(Op::Pow)
    }
    else if same(word, "bitand") {
        Some(Op::BitAnd)
    }
    else if same(word, "bitor") {
        Some(Op::BitOr)
    }
    else if same(word, "bitxor") {
        Some(Op::BitXor)
    }
    else if same(word, "shl") {
        Some(Op::BitShl)
    }
    else if same(word, "shr") {
        Some(Op::BitShr)
    }
    else if same(word, "contains") {
        Some(Op::Contains)
    }
    else if same(word, "get") {
        Some(Op::Get)
    }
    else if same(word, "set") {
        Some(Op::Put)
    }
    else if same(word, "iter") {
        Some(Op::Iter)
    }
    else {
        None
    }
}

/// Every op, in slot order.
pub fn ops() -> (r: Vec<Op>)
    ensures
        r@.len() == OP_COUNT,
        forall|i: int| 0 <= i < r@.len() ==> (#[trigger] r@[i]).position() == i,
{
    vec![Op::Init, Op::Str, Op::Bool, Op::Int, Op::Float, Op::List, Op::Dict, Op::Eq, Op::Lt, Op::Gt, Op::Cmp, Op::Neg, Op::BitNot, Op::Add, Op::Sub, Op::Mul, Op::Div, Op::FloorDiv, Op::Rem, Op::Pow, Op::BitAnd, Op::BitOr, Op::BitXor, Op::BitShl, Op::BitShr, Op::Contains, Op::Get, Op::Put, Op::Iter]
}

/// A value written where a type argument goes.
#[derive(Debug)]
pub enum ConstArg {
    Int(i64),
    Bool(bool),
    Str(String),
}

/// What a type is called.
#[derive(Debug)]
pub enum TypeName {
    Named(String),
    /// The top type.
    Any,
    /// A value a const parameter is bound to.
    Const(ConstArg),
    /// As many types as a pack parameter took.
    Pack(String),
}

/// A type, as an annotation writes it.
#[derive(Debug)]
pub struct TypeExpr {
    pub name: TypeName,
    pub args: Vec<TypeExpr>,
    /// Whether an argument list was written, even an empty one.
    pub applied: bool,
    pub nullable: bool,
    pub frozen: bool,
    pub span: Span,
}

/// What an expression is.
#[derive(Debug)]
#[allow(inconsistent_fields)]
pub enum ExprKind {
    Int(i64),
    /// The bits of a binary64 number.
    Float(u64),
    Str(String),
    Bool(bool),
    Nil,
    Var(String),
    List(Vec<Expr>),
    Dict(Vec<Pair>),
    Unary { op: UnaryOp, rhs: Box<Expr> },
    Binary { op: BinaryOp, lhs: Box<Expr>, rhs: Box<Expr> },
    Logical { op: LogicalOp, lhs: Box<Expr>, rhs: Box<Expr> },
    Call { callee: Box<Expr>, args: Vec<CallArg> },
    Index { target: Box<Expr>, index: Box<Expr> },
    /// A class with several type arguments.
    TypeArgs { target: Box<Expr>, args: Vec<Expr> },
    Slice { target: Box<Expr>, start: Option<Box<Expr>>, end: Option<Box<Expr>> },
    Field { target: Box<Expr>, name: String },
    Super { name: String },
    Assign { target: Box<Expr>, value: Box<Expr> },
    AssignOp { op: BinaryOp, target: Box<Expr>, value: Box<Expr> },
    Is { value: Box<Expr>, ty: TypeExpr },
}

/// An expression and where it stands.
#[derive(Debug)]
pub struct Expr {
    pub kind: ExprKind,
    pub span: Span,
}

/// An entry of a dict literal.
#[derive(Debug)]
pub struct Pair {
    pub key: Expr,
    pub value: Expr,
}

/// An argument of a call, named or not.
#[derive(Debug)]
pub struct CallArg {
    pub name: Option<String>,
    pub name_span: Span,
    pub value: Expr,
}

/// A parameter of a function.
#[derive(Debug)]
pub struct Param {
    pub name: String,
    pub ty: Option<TypeExpr>,
    pub default: Option<Expr>,
    pub bind: Bind,
    /// Whether this is the `self` a method is handed.
    pub receiver: bool,
}

/// A function, a method or an `op`.
#[derive(Debug)]
pub struct FnDecl {
    pub name: String,
    pub name_span: Span,
    pub params: Vec<Param>,
    /// The type a call answers with.
    pub result: Option<TypeExpr>,
    pub body: Block,
    pub op: Option<Op>,
    pub visibility: Visibility,
    pub explicit: bool,
}

/// A field a class declares.
#[derive(Debug)]
pub struct FieldDecl {
    pub name: String,
    pub name_span: Span,
    pub ty: Option<TypeExpr>,
    pub value: Option<Expr>,
    pub bind: Bind,
    pub visibility: Visibility,
}

/// What a type parameter stands for.
#[derive(Debug)]
pub enum ParamKind {
    Type { bound: Option<TypeExpr> },
    Const { ty: TypeExpr },
    Pack,
}

/// A parameter of a generic class.
#[derive(Debug)]
pub struct TypeParam {
    pub name: String,
    pub kind: ParamKind,
}

/// A class, as it is declared.
#[derive(Debug)]
pub struct ClassDecl {
    pub name: String,
    pub name_span: Span,
    pub params: Vec<TypeParam>,
    pub parent: Option<String>,
    pub parent_span: Span,
    pub methods: Vec<Rc<FnDecl>>,
    pub fields: Vec<FieldDecl>,
    pub openness: Openness,
    pub visibility: Visibility,
}

/// A name an import brings in.
#[derive(Debug)]
pub struct ImportName {
    pub name: String,
    pub span: Span,
}

/// Statements between braces.
#[derive(Debug)]
pub struct Block {
    pub stmts: Vec<Stmt>,
    pub span: Span,
}

/// What a statement is.
#[derive(Debug)]
pub enum StmtKind {
    Expr(Expr),
    Let { name: String, name_span: Span, ty: Option<TypeExpr>, value: Option<Expr>, bind: Bind, visibility: Visibility },
    Fn(Rc<FnDecl>),
    Class(Rc<ClassDecl>),
    Extend { target: String, target_span: Span, methods: Vec<Rc<FnDecl>> },
    /// The whole module, or the names taken from it.
    Import { module: String, module_span: Span, names: Option<Vec<ImportName>> },
    If { cond: Expr, consequent: Block, otherwise: Option<Box<Stmt>> },
    While { cond: Expr, body: Block },
    For { var: String, iter: Expr, body: Block },
    Return(Option<Expr>),
    Try { body: Block, binding: String, handler: Block },
    Throw(Expr),
    Block(Block),
}

/// A statement and where it stands.
#[derive(Debug)]
pub struct Stmt {
    pub kind: StmtKind,
    pub span: Span,
}

// -- the model ---------------------------------------------------------------------

pub enum ConstArgV {
    Int(i64),
    Bool(bool),
    Str(Seq<char>),
}

pub enum TypeNameV {
    Named(Seq<char>),
    Any,
    Const(ConstArgV),
    Pack(Seq<char>),
}

pub struct TypeExprV {
    pub name: TypeNameV,
    pub args: Seq<TypeExprV>,
    pub applied: bool,
    pub nullable: bool,
    pub frozen: bool,
    pub span: Span,
}

#[allow(inconsistent_fields)]
pub enum ExprKindV {
    Int(i64),
    Float(u64),
    Str(Seq<char>),
    Bool(bool),
    Nil,
    Var(Seq<char>),
    List(Seq<ExprV>),
    Dict(Seq<PairV>),
    Unary { op: UnaryOp, rhs: Box<ExprV> },
    Binary { op: BinaryOp, lhs: Box<ExprV>, rhs: Box<ExprV> },
    Logical { op: LogicalOp, lhs: Box<ExprV>, rhs: Box<ExprV> },
    Call { callee: Box<ExprV>, args: Seq<CallArgV> },
    Index { target: Box<ExprV>, index: Box<ExprV> },
    TypeArgs { target: Box<ExprV>, args: Seq<ExprV> },
    Slice { target: Box<ExprV>, start: Option<Box<ExprV>>, end: Option<Box<ExprV>> },
    Field { target: Box<ExprV>, name: Seq<char> },
    Super { name: Seq<char> },
    Assign { target: Box<ExprV>, value: Box<ExprV> },
    AssignOp { op: BinaryOp, target: Box<ExprV>, value: Box<ExprV> },
    Is { value: Box<ExprV>, ty: TypeExprV },
}

pub struct ExprV {
    pub kind: ExprKindV,
    pub span: Span,
}

pub struct PairV {
    pub key: ExprV,
    pub value: ExprV,
}

pub struct CallArgV {
    pub name: Option<Seq<char>>,
    pub name_span: Span,
    pub value: ExprV,
}

pub struct ParamV {
    pub name: Seq<char>,
    pub ty: Option<TypeExprV>,
    pub default: Option<ExprV>,
    pub bind: Bind,
    pub receiver: bool,
}

pub struct FnDeclV {
    pub name: Seq<char>,
    pub name_span: Span,
    pub params: Seq<ParamV>,
    pub result: Option<TypeExprV>,
    pub body: BlockV,
    pub op: Option<Op>,
    pub visibility: Visibility,
    pub explicit: bool,
}

pub struct FieldDeclV {
    pub name: Seq<char>,
    pub name_span: Span,
    pub ty: Option<TypeExprV>,
    pub value: Option<ExprV>,
    pub bind: Bind,
    pub visibility: Visibility,
}

pub enum ParamKindV {
    Type { bound: Option<TypeExprV> },
    Const { ty: TypeExprV },
    Pack,
}

pub struct TypeParamV {
    pub name: Seq<char>,
    pub kind: ParamKindV,
}

pub struct ClassDeclV {
    pub name: Seq<char>,
    pub name_span: Span,
    pub params: Seq<TypeParamV>,
    pub parent: Option<Seq<char>>,
    pub parent_span: Span,
    pub methods: Seq<FnDeclV>,
    pub fields: Seq<FieldDeclV>,
    pub openness: Openness,
    pub visibility: Visibility,
}

pub struct ImportNameV {
    pub name: Seq<char>,
    pub span: Span,
}

pub struct BlockV {
    pub stmts: Seq<StmtV>,
    pub span: Span,
}

pub enum StmtKindV {
    Expr(ExprV),
    Let { name: Seq<char>, name_span: Span, ty: Option<TypeExprV>, value: Option<ExprV>, bind: Bind, visibility: Visibility },
    Fn(Box<FnDeclV>),
    Class(Box<ClassDeclV>),
    Extend { target: Seq<char>, target_span: Span, methods: Seq<FnDeclV> },
    Import { module: Seq<char>, module_span: Span, names: Option<Seq<ImportNameV>> },
    If { cond: ExprV, consequent: BlockV, otherwise: Option<Box<StmtV>> },
    While { cond: ExprV, body: BlockV },
    For { var: Seq<char>, iter: ExprV, body: BlockV },
    Return(Option<ExprV>),
    Try { body: BlockV, binding: Seq<char>, handler: BlockV },
    Throw(ExprV),
    Block(BlockV),
}

pub struct StmtV {
    pub kind: StmtKindV,
    pub span: Span,
}

/// The model of a `ConstArg`.
pub open spec fn const_arg_v(n: ConstArg) -> ConstArgV
    decreases n,
{
    match n {
        ConstArg::Int(a) => ConstArgV::Int(a),
        ConstArg::Bool(a) => ConstArgV::Bool(a),
        ConstArg::Str(a) => ConstArgV::Str(a@),
    }
}

/// The model of a `TypeName`.
pub open spec fn type_name_v(n: TypeName) -> TypeNameV
    decreases n,
{
    match n {
        TypeName::Named(a) => TypeNameV::Named(a@),
        TypeName::Any => TypeNameV::Any,
        TypeName::Const(a) => TypeNameV::Const(const_arg_v(a)),
        TypeName::Pack(a) => TypeNameV::Pack(a@),
    }
}

/// The model of a `TypeExpr`.
pub open spec fn type_expr_v(n: TypeExpr) -> TypeExprV
    decreases n,
{
    TypeExprV {
        name: type_name_v(n.name),
        args: type_exprs_v(n.args@),
        applied: n.applied,
        nullable: n.nullable,
        frozen: n.frozen,
        span: n.span,
    }
}

/// The model of an `ExprKind`.
pub open spec fn expr_kind_v(n: ExprKind) -> ExprKindV
    decreases n,
{
    match n {
        ExprKind::Int(a) => ExprKindV::Int(a),
        ExprKind::Float(a) => ExprKindV::Float(a),
        ExprKind::Str(a) => ExprKindV::Str(a@),
        ExprKind::Bool(a) => ExprKindV::Bool(a),
        ExprKind::Nil => ExprKindV::Nil,
        ExprKind::Var(a) => ExprKindV::Var(a@),
        ExprKind::List(a) => ExprKindV::List(exprs_v(a@)),
        ExprKind::Dict(a) => ExprKindV::Dict(pairs_v(a@)),
        ExprKind::Unary { op, rhs } => ExprKindV::Unary { op: op, rhs: Box::new(expr_v(*rhs)) },
        ExprKind::Binary { op, lhs, rhs } => ExprKindV::Binary { op: op, lhs: Box::new(expr_v(*lhs)), rhs: Box::new(expr_v(*rhs)) },
        ExprKind::Logical { op, lhs, rhs } => ExprKindV::Logical { op: op, lhs: Box::new(expr_v(*lhs)), rhs: Box::new(expr_v(*rhs)) },
        ExprKind::Call { callee, args } => ExprKindV::Call { callee: Box::new(expr_v(*callee)), args: call_args_v(args@) },
        ExprKind::Index { target, index } => ExprKindV::Index { target: Box::new(expr_v(*target)), index: Box::new(expr_v(*index)) },
        ExprKind::TypeArgs { target, args } => ExprKindV::TypeArgs { target: Box::new(expr_v(*target)), args: exprs_v(args@) },
        ExprKind::Slice { target, start, end } => ExprKindV::Slice { target: Box::new(expr_v(*target)), start: match start { Some(x) => Some(Box::new(expr_v(*x))), None => None }, end: match end { Some(x) => Some(Box::new(expr_v(*x))), None => None } },
        ExprKind::Field { target, name } => ExprKindV::Field { target: Box::new(expr_v(*target)), name: name@ },
        ExprKind::Super { name } => ExprKindV::Super { name: name@ },
        ExprKind::Assign { target, value } => ExprKindV::Assign { target: Box::new(expr_v(*target)), value: Box::new(expr_v(*value)) },
        ExprKind::AssignOp { op, target, value } => ExprKindV::AssignOp { op: op, target: Box::new(expr_v(*target)), value: Box::new(expr_v(*value)) },
        ExprKind::Is { value, ty } => ExprKindV::Is { value: Box::new(expr_v(*value)), ty: type_expr_v(ty) },
    }
}

/// The model of an `Expr`.
pub open spec fn expr_v(n: Expr) -> ExprV
    decreases n,
{
    ExprV {
        kind: expr_kind_v(n.kind),
        span: n.span,
    }
}

/// The model of a `Pair`.
pub open spec fn pair_v(n: Pair) -> PairV
    decreases n,
{
    PairV {
        key: expr_v(n.key),
        value: expr_v(n.value),
    }
}

/// The model of a `CallArg`.
pub open spec fn call_arg_v(n: CallArg) -> CallArgV
    decreases n,
{
    CallArgV {
        name: match n.name { Some(x) => Some(x@), None => None },
        name_span: n.name_span,
        value: expr_v(n.value),
    }
}

/// The model of a `Param`.
pub open spec fn param_v(n: Param) -> ParamV
    decreases n,
{
    ParamV {
        name: n.name@,
        ty: match n.ty { Some(x) => Some(type_expr_v(x)), None => None },
        default: match n.default { Some(x) => Some(expr_v(x)), None => None },
        bind: n.bind,
        receiver: n.receiver,
    }
}

/// The model of a `FnDecl`.
pub open spec fn fn_decl_v(n: FnDecl) -> FnDeclV
    decreases n,
{
    FnDeclV {
        name: n.name@,
        name_span: n.name_span,
        params: params_v(n.params@),
        result: match n.result { Some(x) => Some(type_expr_v(x)), None => None },
        body: block_v(n.body),
        op: n.op,
        visibility: n.visibility,
        explicit: n.explicit,
    }
}

/// The model of a `FieldDecl`.
pub open spec fn field_decl_v(n: FieldDecl) -> FieldDeclV
    decreases n,
{
    FieldDeclV {
        name: n.name@,
        name_span: n.name_span,
        ty: match n.ty { Some(x) => Some(type_expr_v(x)), None => None },
        value: match n.value { Some(x) => Some(expr_v(x)), None => None },
        bind: n.bind,
        visibility: n.visibility,
    }
}

/// The model of a `ParamKind`.
pub open spec fn param_kind_v(n: ParamKind) -> ParamKindV
    decreases n,
{
    match n {
        ParamKind::Type { bound } => ParamKindV::Type { bound: match bound { Some(x) => Some(type_expr_v(x)), None => None } },
        ParamKind::Const { ty } => ParamKindV::Const { ty: type_expr_v(ty) },
        ParamKind::Pack => ParamKindV::Pack,
    }
}

/// The model of a `TypeParam`.
pub open spec fn type_param_v(n: TypeParam) -> TypeParamV
    decreases n,
{
    TypeParamV {
        name: n.name@,
        kind: param_kind_v(n.kind),
    }
}

/// The model of a `ClassDecl`.
pub open spec fn class_decl_v(n: ClassDecl) -> ClassDeclV
    decreases n,
{
    ClassDeclV {
        name: n.name@,
        name_span: n.name_span,
        params: type_params_v(n.params@),
        parent: match n.parent { Some(x) => Some(x@), None => None },
        parent_span: n.parent_span,
        methods: fn_decls_v(n.methods@),
        fields: field_decls_v(n.fields@),
        openness: n.openness,
        visibility: n.visibility,
    }
}

/// The model of an `ImportName`.
pub open spec fn import_name_v(n: ImportName) -> ImportNameV
    decreases n,
{
    ImportNameV {
        name: n.name@,
        span: n.span,
    }
}

/// The model of a `Block`.
pub open spec fn block_v(n: Block) -> BlockV
    decreases n,
{
    BlockV {
        stmts: stmts_v(n.stmts@),
        span: n.span,
    }
}

/// The model of a `StmtKind`.
pub open spec fn stmt_kind_v(n: StmtKind) -> StmtKindV
    decreases n,
{
    match n {
        StmtKind::Expr(a) => StmtKindV::Expr(expr_v(a)),
        StmtKind::Let { name, name_span, ty, value, bind, visibility } => StmtKindV::Let { name: name@, name_span: name_span, ty: match ty { Some(x) => Some(type_expr_v(x)), None => None }, value: match value { Some(x) => Some(expr_v(x)), None => None }, bind: bind, visibility: visibility },
        StmtKind::Fn(a) => StmtKindV::Fn(Box::new(fn_decl_v(*a))),
        StmtKind::Class(a) => StmtKindV::Class(Box::new(class_decl_v(*a))),
        StmtKind::Extend { target, target_span, methods } => StmtKindV::Extend { target: target@, target_span: target_span, methods: fn_decls_v(methods@) },
        StmtKind::Import { module, module_span, names } => StmtKindV::Import { module: module@, module_span: module_span, names: match names { Some(x) => Some(import_names_v(x@)), None => None } },
        StmtKind::If { cond, consequent, otherwise } => StmtKindV::If { cond: expr_v(cond), consequent: block_v(consequent), otherwise: match otherwise { Some(x) => Some(Box::new(stmt_v(*x))), None => None } },
        StmtKind::While { cond, body } => StmtKindV::While { cond: expr_v(cond), body: block_v(body) },
        StmtKind::For { var, iter, body } => StmtKindV::For { var: var@, iter: expr_v(iter), body: block_v(body) },
        StmtKind::Return(a) => StmtKindV::Return(match a { Some(x) => Some(expr_v(x)), None => None }),
        StmtKind::Try { body, binding, handler } => StmtKindV::Try { body: block_v(body), binding: binding@, handler: block_v(handler) },
        StmtKind::Throw(a) => StmtKindV::Throw(expr_v(a)),
        StmtKind::Block(a) => StmtKindV::Block(block_v(a)),
    }
}

/// The model of a `Stmt`.
pub open spec fn stmt_v(n: Stmt) -> StmtV
    decreases n,
{
    StmtV {
        kind: stmt_kind_v(n.kind),
        span: n.span,
    }
}

/// The models of a sequence of `CallArg`.
pub open spec fn call_args_v(s: Seq<CallArg>) -> Seq<CallArgV>
    decreases s,
{
    Seq::new(s.len(), |i: int| if 0 <= i < s.len() { call_arg_v(s[i]) } else { arbitrary() })
}

/// The models of a sequence of `Expr`.
pub open spec fn exprs_v(s: Seq<Expr>) -> Seq<ExprV>
    decreases s,
{
    Seq::new(s.len(), |i: int| if 0 <= i < s.len() { expr_v(s[i]) } else { arbitrary() })
}

/// The models of a sequence of `FieldDecl`.
pub open spec fn field_decls_v(s: Seq<FieldDecl>) -> Seq<FieldDeclV>
    decreases s,
{
    Seq::new(s.len(), |i: int| if 0 <= i < s.len() { field_decl_v(s[i]) } else { arbitrary() })
}

/// The models of a sequence of `ImportName`.
pub open spec fn import_names_v(s: Seq<ImportName>) -> Seq<ImportNameV>
    decreases s,
{
    Seq::new(s.len(), |i: int| if 0 <= i < s.len() { import_name_v(s[i]) } else { arbitrary() })
}

/// The models of a sequence of `Pair`.
pub open spec fn pairs_v(s: Seq<Pair>) -> Seq<PairV>
    decreases s,
{
    Seq::new(s.len(), |i: int| if 0 <= i < s.len() { pair_v(s[i]) } else { arbitrary() })
}

/// The models of a sequence of `Param`.
pub open spec fn params_v(s: Seq<Param>) -> Seq<ParamV>
    decreases s,
{
    Seq::new(s.len(), |i: int| if 0 <= i < s.len() { param_v(s[i]) } else { arbitrary() })
}

/// The models of a sequence of `FnDecl`.
pub open spec fn fn_decls_v(s: Seq<Rc<FnDecl>>) -> Seq<FnDeclV>
    decreases s,
{
    Seq::new(s.len(), |i: int| if 0 <= i < s.len() { fn_decl_v(*s[i]) } else { arbitrary() })
}

/// The models of a sequence of `Stmt`.
pub open spec fn stmts_v(s: Seq<Stmt>) -> Seq<StmtV>
    decreases s,
{
    Seq::new(s.len(), |i: int| if 0 <= i < s.len() { stmt_v(s[i]) } else { arbitrary() })
}

/// The models of a sequence of `TypeExpr`.
pub open spec fn type_exprs_v(s: Seq<TypeExpr>) -> Seq<TypeExprV>
    decreases s,
{
    Seq::new(s.len(), |i: int| if 0 <= i < s.len() { type_expr_v(s[i]) } else { arbitrary() })
}

/// The models of a sequence of `TypeParam`.
pub open spec fn type_params_v(s: Seq<TypeParam>) -> Seq<TypeParamV>
    decreases s,
{
    Seq::new(s.len(), |i: int| if 0 <= i < s.len() { type_param_v(s[i]) } else { arbitrary() })
}

/// The models of a longer sequence are one model longer.
pub broadcast proof fn lemma_call_args_v_push(s: Seq<CallArg>, x: CallArg)
    ensures
        #[trigger] call_args_v(s.push(x)) == call_args_v(s).push(call_arg_v(x)),
{
    assert(call_args_v(s.push(x)) =~= call_args_v(s).push(call_arg_v(x)));
}

pub broadcast proof fn lemma_call_args_v_empty(s: Seq<CallArg>)
    requires
        s.len() == 0,
    ensures
        #[trigger] call_args_v(s) == Seq::<CallArgV>::empty(),
{
    assert(call_args_v(s) =~= Seq::<CallArgV>::empty());
}

/// The models of a longer sequence are one model longer.
pub broadcast proof fn lemma_exprs_v_push(s: Seq<Expr>, x: Expr)
    ensures
        #[trigger] exprs_v(s.push(x)) == exprs_v(s).push(expr_v(x)),
{
    assert(exprs_v(s.push(x)) =~= exprs_v(s).push(expr_v(x)));
}

pub broadcast proof fn lemma_exprs_v_empty(s: Seq<Expr>)
    requires
        s.len() == 0,
    ensures
        #[trigger] exprs_v(s) == Seq::<ExprV>::empty(),
{
    assert(exprs_v(s) =~= Seq::<ExprV>::empty());
}

/// The models of a longer sequence are one model longer.
pub broadcast proof fn lemma_field_decls_v_push(s: Seq<FieldDecl>, x: FieldDecl)
    ensures
        #[trigger] field_decls_v(s.push(x)) == field_decls_v(s).push(field_decl_v(x)),
{
    assert(field_decls_v(s.push(x)) =~= field_decls_v(s).push(field_decl_v(x)));
}

pub broadcast proof fn lemma_field_decls_v_empty(s: Seq<FieldDecl>)
    requires
        s.len() == 0,
    ensures
        #[trigger] field_decls_v(s) == Seq::<FieldDeclV>::empty(),
{
    assert(field_decls_v(s) =~= Seq::<FieldDeclV>::empty());
}

/// The models of a longer sequence are one model longer.
pub broadcast proof fn lemma_import_names_v_push(s: Seq<ImportName>, x: ImportName)
    ensures
        #[trigger] import_names_v(s.push(x)) == import_names_v(s).push(import_name_v(x)),
{
    assert(import_names_v(s.push(x)) =~= import_names_v(s).push(import_name_v(x)));
}

pub broadcast proof fn lemma_import_names_v_empty(s: Seq<ImportName>)
    requires
        s.len() == 0,
    ensures
        #[trigger] import_names_v(s) == Seq::<ImportNameV>::empty(),
{
    assert(import_names_v(s) =~= Seq::<ImportNameV>::empty());
}

/// The models of a longer sequence are one model longer.
pub broadcast proof fn lemma_pairs_v_push(s: Seq<Pair>, x: Pair)
    ensures
        #[trigger] pairs_v(s.push(x)) == pairs_v(s).push(pair_v(x)),
{
    assert(pairs_v(s.push(x)) =~= pairs_v(s).push(pair_v(x)));
}

pub broadcast proof fn lemma_pairs_v_empty(s: Seq<Pair>)
    requires
        s.len() == 0,
    ensures
        #[trigger] pairs_v(s) == Seq::<PairV>::empty(),
{
    assert(pairs_v(s) =~= Seq::<PairV>::empty());
}

/// The models of a longer sequence are one model longer.
pub broadcast proof fn lemma_params_v_push(s: Seq<Param>, x: Param)
    ensures
        #[trigger] params_v(s.push(x)) == params_v(s).push(param_v(x)),
{
    assert(params_v(s.push(x)) =~= params_v(s).push(param_v(x)));
}

pub broadcast proof fn lemma_params_v_empty(s: Seq<Param>)
    requires
        s.len() == 0,
    ensures
        #[trigger] params_v(s) == Seq::<ParamV>::empty(),
{
    assert(params_v(s) =~= Seq::<ParamV>::empty());
}

/// The models of a longer sequence are one model longer.
pub broadcast proof fn lemma_fn_decls_v_push(s: Seq<Rc<FnDecl>>, x: Rc<FnDecl>)
    ensures
        #[trigger] fn_decls_v(s.push(x)) == fn_decls_v(s).push(fn_decl_v(*x)),
{
    assert(fn_decls_v(s.push(x)) =~= fn_decls_v(s).push(fn_decl_v(*x)));
}

pub broadcast proof fn lemma_fn_decls_v_empty(s: Seq<Rc<FnDecl>>)
    requires
        s.len() == 0,
    ensures
        #[trigger] fn_decls_v(s) == Seq::<FnDeclV>::empty(),
{
    assert(fn_decls_v(s) =~= Seq::<FnDeclV>::empty());
}

/// The models of a longer sequence are one model longer.
pub broadcast proof fn lemma_stmts_v_push(s: Seq<Stmt>, x: Stmt)
    ensures
        #[trigger] stmts_v(s.push(x)) == stmts_v(s).push(stmt_v(x)),
{
    assert(stmts_v(s.push(x)) =~= stmts_v(s).push(stmt_v(x)));
}

pub broadcast proof fn lemma_stmts_v_empty(s: Seq<Stmt>)
    requires
        s.len() == 0,
    ensures
        #[trigger] stmts_v(s) == Seq::<StmtV>::empty(),
{
    assert(stmts_v(s) =~= Seq::<StmtV>::empty());
}

/// The models of a longer sequence are one model longer.
pub broadcast proof fn lemma_type_exprs_v_push(s: Seq<TypeExpr>, x: TypeExpr)
    ensures
        #[trigger] type_exprs_v(s.push(x)) == type_exprs_v(s).push(type_expr_v(x)),
{
    assert(type_exprs_v(s.push(x)) =~= type_exprs_v(s).push(type_expr_v(x)));
}

pub broadcast proof fn lemma_type_exprs_v_empty(s: Seq<TypeExpr>)
    requires
        s.len() == 0,
    ensures
        #[trigger] type_exprs_v(s) == Seq::<TypeExprV>::empty(),
{
    assert(type_exprs_v(s) =~= Seq::<TypeExprV>::empty());
}

/// The models of a longer sequence are one model longer.
pub broadcast proof fn lemma_type_params_v_push(s: Seq<TypeParam>, x: TypeParam)
    ensures
        #[trigger] type_params_v(s.push(x)) == type_params_v(s).push(type_param_v(x)),
{
    assert(type_params_v(s.push(x)) =~= type_params_v(s).push(type_param_v(x)));
}

pub broadcast proof fn lemma_type_params_v_empty(s: Seq<TypeParam>)
    requires
        s.len() == 0,
    ensures
        #[trigger] type_params_v(s) == Seq::<TypeParamV>::empty(),
{
    assert(type_params_v(s) =~= Seq::<TypeParamV>::empty());
}

/// The parts of a model are the models of the parts.
pub broadcast proof fn lemma_type_expr_parts(n: TypeExpr)
    ensures
        #![trigger type_expr_v(n)]
        type_expr_v(n).args == type_exprs_v(n.args@),
{
}

/// The parts of a model are the models of the parts.
pub broadcast proof fn lemma_expr_parts(n: Expr)
    ensures
        #![trigger expr_v(n)]
        expr_v(n).kind == expr_kind_v(n.kind),
{
}

/// The parts of a model are the models of the parts.
pub broadcast proof fn lemma_pair_parts(n: Pair)
    ensures
        #![trigger pair_v(n)]
        pair_v(n).key == expr_v(n.key),
        pair_v(n).value == expr_v(n.value),
{
}

/// The parts of a model are the models of the parts.
pub broadcast proof fn lemma_call_arg_parts(n: CallArg)
    ensures
        #![trigger call_arg_v(n)]
        call_arg_v(n).value == expr_v(n.value),
{
}

/// The parts of a model are the models of the parts.
pub broadcast proof fn lemma_param_parts(n: Param)
    ensures
        #![trigger param_v(n)]
        param_v(n).ty == (match n.ty { Some(x) => Some(type_expr_v(x)), None => None }),
        param_v(n).default == (match n.default { Some(x) => Some(expr_v(x)), None => None }),
{
}

/// The parts of a model are the models of the parts.
pub broadcast proof fn lemma_fn_decl_parts(n: FnDecl)
    ensures
        #![trigger fn_decl_v(n)]
        fn_decl_v(n).params == params_v(n.params@),
        fn_decl_v(n).result == (match n.result { Some(x) => Some(type_expr_v(x)), None => None }),
        fn_decl_v(n).body == block_v(n.body),
{
}

/// The parts of a model are the models of the parts.
pub broadcast proof fn lemma_field_decl_parts(n: FieldDecl)
    ensures
        #![trigger field_decl_v(n)]
        field_decl_v(n).ty == (match n.ty { Some(x) => Some(type_expr_v(x)), None => None }),
        field_decl_v(n).value == (match n.value { Some(x) => Some(expr_v(x)), None => None }),
{
}

/// The parts of a model are the models of the parts.
pub broadcast proof fn lemma_class_decl_parts(n: ClassDecl)
    ensures
        #![trigger class_decl_v(n)]
        class_decl_v(n).methods == fn_decls_v(n.methods@),
        class_decl_v(n).fields == field_decls_v(n.fields@),
{
}

/// The parts of a model are the models of the parts.
pub broadcast proof fn lemma_block_parts(n: Block)
    ensures
        #![trigger block_v(n)]
        block_v(n).stmts == stmts_v(n.stmts@),
{
}

/// The parts of a model are the models of the parts.
pub broadcast proof fn lemma_stmt_parts(n: Stmt)
    ensures
        #![trigger stmt_v(n)]
        stmt_v(n).kind == stmt_kind_v(n.kind),
{
}

/// How the models of sequences grow.
pub broadcast group group_models {
    lemma_call_args_v_push,
    lemma_call_args_v_empty,
    lemma_exprs_v_push,
    lemma_exprs_v_empty,
    lemma_field_decls_v_push,
    lemma_field_decls_v_empty,
    lemma_import_names_v_push,
    lemma_import_names_v_empty,
    lemma_pairs_v_push,
    lemma_pairs_v_empty,
    lemma_params_v_push,
    lemma_params_v_empty,
    lemma_fn_decls_v_push,
    lemma_fn_decls_v_empty,
    lemma_stmts_v_push,
    lemma_stmts_v_empty,
    lemma_type_exprs_v_push,
    lemma_type_exprs_v_empty,
    lemma_type_params_v_push,
    lemma_type_params_v_empty,
    lemma_type_expr_parts,
    lemma_expr_parts,
    lemma_pair_parts,
    lemma_call_arg_parts,
    lemma_param_parts,
    lemma_fn_decl_parts,
    lemma_field_decl_parts,
    lemma_class_decl_parts,
    lemma_block_parts,
    lemma_stmt_parts,
}

impl View for ConstArg {
    type V = ConstArgV;

    open spec fn view(&self) -> ConstArgV {
        const_arg_v(*self)
    }
}

impl View for TypeName {
    type V = TypeNameV;

    open spec fn view(&self) -> TypeNameV {
        type_name_v(*self)
    }
}

impl View for TypeExpr {
    type V = TypeExprV;

    open spec fn view(&self) -> TypeExprV {
        type_expr_v(*self)
    }
}

impl View for ExprKind {
    type V = ExprKindV;

    open spec fn view(&self) -> ExprKindV {
        expr_kind_v(*self)
    }
}

impl View for Expr {
    type V = ExprV;

    open spec fn view(&self) -> ExprV {
        expr_v(*self)
    }
}

impl View for Pair {
    type V = PairV;

    open spec fn view(&self) -> PairV {
        pair_v(*self)
    }
}

impl View for CallArg {
    type V = CallArgV;

    open spec fn view(&self) -> CallArgV {
        call_arg_v(*self)
    }
}

impl View for Param {
    type V = ParamV;

    open spec fn view(&self) -> ParamV {
        param_v(*self)
    }
}

impl View for FnDecl {
    type V = FnDeclV;

    open spec fn view(&self) -> FnDeclV {
        fn_decl_v(*self)
    }
}

impl View for FieldDecl {
    type V = FieldDeclV;

    open spec fn view(&self) -> FieldDeclV {
        field_decl_v(*self)
    }
}

impl View for ParamKind {
    type V = ParamKindV;

    open spec fn view(&self) -> ParamKindV {
        param_kind_v(*self)
    }
}

impl View for TypeParam {
    type V = TypeParamV;

    open spec fn view(&self) -> TypeParamV {
        type_param_v(*self)
    }
}

impl View for ClassDecl {
    type V = ClassDeclV;

    open spec fn view(&self) -> ClassDeclV {
        class_decl_v(*self)
    }
}

impl View for ImportName {
    type V = ImportNameV;

    open spec fn view(&self) -> ImportNameV {
        import_name_v(*self)
    }
}

impl View for Block {
    type V = BlockV;

    open spec fn view(&self) -> BlockV {
        block_v(*self)
    }
}

impl View for StmtKind {
    type V = StmtKindV;

    open spec fn view(&self) -> StmtKindV {
        stmt_kind_v(*self)
    }
}

impl View for Stmt {
    type V = StmtV;

    open spec fn view(&self) -> StmtV {
        stmt_v(*self)
    }
}

/// The model of an expression is of the kind that the expression is of.
pub(crate) proof fn lemma_expr_kind(k: ExprKind)
    ensures
        expr_kind_v(k) is Var <==> k is Var,
        expr_kind_v(k) is Index <==> k is Index,
        expr_kind_v(k) is Field <==> k is Field,
        expr_kind_v(k) is Int <==> k is Int,
        expr_kind_v(k) is Float <==> k is Float,
        expr_kind_v(k) is Str <==> k is Str,
        expr_kind_v(k) is Bool <==> k is Bool,
        expr_kind_v(k) is Nil <==> k is Nil,
        expr_kind_v(k) is Super <==> k is Super,
{
}

/// The model of a statement declares what the statement declares.
pub(crate) proof fn lemma_stmt_kind(k: StmtKind)
    ensures
        stmt_kind_v(k) is Let <==> k is Let,
        stmt_kind_v(k) is Fn <==> k is Fn,
        stmt_kind_v(k) is Class <==> k is Class,
        stmt_kind_v(k) is Extend <==> k is Extend,
        stmt_kind_v(k) is Import <==> k is Import,
{
}

} // verus!
