//! The syntax tree of a Sway module, as the analyzer reads it.
//!
//! Every node that the detectors report on carries its span: the offset of its first
//! character in the source, the offset just after its last character, and its source text.
use vstd::prelude::*;
use crate::text::copy_string;

verus! {

/// Where a node stands in its source file, and its source text.
pub struct Span {
    pub start: usize,
    pub end: usize,
    pub text: String,
}

impl Span {
    /// The value of a span: start, end and text.
    pub open spec fn view(self) -> (int, int, Seq<char>) {
        (self.start as int, self.end as int, self.text@)
    }

    /// A span with the given offsets and text.
    pub fn new(start: usize, end: usize, text: &str) -> (r: Span)
        ensures
            r.start == start,
            r.end == end,
            r.text@ == text@,
    {
        Span { start, end, text: copy_string(text) }
    }

    /// A copy of the span.
    pub fn copy(&self) -> (r: Span)
        ensures
            r.view() == self.view(),
    {
        Span { start: self.start, end: self.end, text: copy_string(self.text.as_str()) }
    }

    /// Whether two spans cover the same part of the source.
    pub fn same_place(&self, other: &Span) -> (r: bool)
        ensures
            r == (self.start == other.start && self.end == other.end),
    {
        self.start == other.start && self.end == other.end
    }
}

/// A name, with its span (the name is the span's text).
pub struct Ident {
    pub span: Span,
}

/// One segment of a path expression, with the text of its generic arguments if any.
pub struct PathExprSegment {
    pub name: Ident,
    pub generics: Option<Span>,
}

/// A path expression `prefix::suffix::...`.
pub struct PathExpr {
    pub span: Span,
    pub prefix: PathExprSegment,
    pub suffix: Vec<PathExprSegment>,
}

/// A path type `prefix::suffix::...`.
pub struct PathType {
    pub span: Span,
    pub prefix: Ident,
    pub suffix: Vec<Ident>,
}

/// A type: its text, and its path when it is a path type.
pub struct Ty {
    pub span: Span,
    pub path: Option<PathType>,
}

/// The kind and value of a literal.
pub enum LiteralKind {
    Str,
    Char,
    /// An integer literal with its value when that fits in 128 bits.
    Int(Option<u128>),
    Bool(bool),
}

/// A literal.
pub struct Literal {
    pub span: Span,
    pub kind: LiteralKind,
}

/// The operators of binary expressions.
#[derive(Clone, Copy, PartialEq, Eq, Structural)]
pub enum BinaryOp {
    Mul,
    Div,
    Pow,
    Modulo,
    Add,
    Sub,
    Shl,
    Shr,
    BitAnd,
    BitXor,
    BitOr,
    Equal,
    NotEqual,
    LessThan,
    GreaterThan,
    LessThanEq,
    GreaterThanEq,
    LogicalAnd,
    LogicalOr,
}

/// The operators of reassignments.
#[derive(Clone, Copy, PartialEq, Eq, Structural)]
pub enum ReassignmentOp {
    Equals,
    AddEquals,
    SubEquals,
    MulEquals,
    DivEquals,
    ShlEquals,
    ShrEquals,
}

/// A place that an element access names.
pub enum ElementAccess {
    Var(Ident),
    Index { target: Box<ElementAccess>, arg: Box<Expr> },
    FieldProjection { target: Box<ElementAccess>, name: Ident },
    /// A tuple field of the target; its position is in the source text of the access.
    TupleFieldProjection { target: Box<ElementAccess> },
    /// The place that the target refers to.
    Deref { target: Box<ElementAccess> },
}

/// The target of a reassignment.
pub enum AssignableKind {
    ElementAccess(ElementAccess),
    Deref(Box<Expr>),
}

/// The target of a reassignment, with its span.
pub struct Assignable {
    pub span: Span,
    pub kind: AssignableKind,
}

/// A field of a struct expression: its name and, unless it is a shorthand, its value.
pub struct ExprStructField {
    pub field_name: Ident,
    pub value: Option<Box<Expr>>,
}

/// A contract argument of a method call (`{ gas: ..., coins: ... }`).
pub struct ContractArg {
    pub name: Ident,
    pub value: Option<Box<Expr>>,
}

/// A register declaration of an `asm` block, with its initial value if any.
pub struct AsmRegister {
    pub register: Ident,
    pub value: Option<Box<Expr>>,
}

/// An instruction of an `asm` block; `is_call` tells whether it is a `call` instruction, and
/// `args` lists the registers it takes as arguments, in order.
pub struct AsmInstruction {
    pub span: Span,
    pub op_code: Ident,
    pub is_call: bool,
    pub args: Vec<Ident>,
}

/// An `asm` block.
pub struct AsmBlock {
    pub span: Span,
    pub registers: Vec<AsmRegister>,
    pub instructions: Vec<AsmInstruction>,
    pub final_expr: Option<Ident>,
}

/// The condition of an `if` expression.
pub enum IfCondition {
    Expr(Box<Expr>),
    Let { lhs: Box<Pattern>, rhs: Box<Expr> },
}

/// What follows `else`.
pub enum ElseBranch {
    ElseIf(Box<IfExpr>),
    Else(Block),
}

/// An `if` expression.
pub struct IfExpr {
    pub span: Span,
    pub condition: IfCondition,
    pub then_block: Block,
    pub else_opt: Option<ElseBranch>,
}

/// The body of a `match` branch.
pub enum MatchBranchKind {
    Block(Block),
    Expr(Box<Expr>),
}

/// A `match` branch.
pub struct MatchBranch {
    pub span: Span,
    pub pattern: Pattern,
    pub kind: MatchBranchKind,
}

/// The kinds of expressions.
pub enum ExprKind {
    Error,
    Path(PathExpr),
    Literal(Literal),
    AbiCast { name: Span, address: Box<Expr> },
    Struct { path: PathExpr, fields: Vec<ExprStructField> },
    Tuple(Vec<Expr>),
    Parens(Box<Expr>),
    Block(Block),
    Array(Vec<Expr>),
    ArrayRepeat { value: Box<Expr>, length: Box<Expr> },
    Asm(AsmBlock),
    Return(Option<Box<Expr>>),
    Panic(Option<Box<Expr>>),
    If(Box<IfExpr>),
    Match { value: Box<Expr>, branches: Vec<MatchBranch> },
    While { condition: Box<Expr>, body: Block },
    For { pattern: Box<Pattern>, iterator: Box<Expr>, body: Block },
    FuncApp { func: Box<Expr>, args: Vec<Expr>, args_span: Span },
    Index { target: Box<Expr>, arg: Box<Expr> },
    MethodCall { target: Box<Expr>, name: Ident, contract_args: Vec<ContractArg>, args: Vec<Expr>, args_span: Span },
    FieldProjection { target: Box<Expr>, name: Ident },
    /// A tuple field of the target; its position is in the expression's source text.
    TupleFieldProjection { target: Box<Expr> },
    Ref(Box<Expr>),
    Deref(Box<Expr>),
    Not(Box<Expr>),
    Binary { op: BinaryOp, lhs: Box<Expr>, rhs: Box<Expr> },
    Reassignment { assignable: Assignable, op: ReassignmentOp, value: Box<Expr> },
    Break,
    Continue,
}

/// An expression.
pub struct Expr {
    pub span: Span,
    pub kind: ExprKind,
}

/// A field of a struct pattern.
pub enum PatternStructField {
    Rest,
    Field { field_name: Ident, pattern: Option<Box<Pattern>> },
}

/// The kinds of patterns.
pub enum PatternKind {
    Or { lhs: Box<Pattern>, rhs: Box<Pattern> },
    Wildcard,
    AmbiguousSingleIdent(Ident),
    Var { mutable: bool, name: Ident },
    Literal(Literal),
    Constant(PathExpr),
    Constructor { path: PathExpr, args: Vec<Pattern> },
    Struct { path: PathExpr, fields: Vec<PatternStructField> },
    Tuple(Vec<Pattern>),
    Error,
}

/// A pattern.
pub struct Pattern {
    pub span: Span,
    pub kind: PatternKind,
}

/// A `let` statement.
pub struct StatementLet {
    pub span: Span,
    pub pattern: Pattern,
    pub ty: Option<Ty>,
    pub expr: Expr,
}

/// The kinds of statements.
pub enum StatementKind {
    Let(StatementLet),
    Item(Box<Item>),
    Expr { expr: Expr, has_semicolon: bool },
    Error,
}

/// A statement.
pub struct Statement {
    pub span: Span,
    pub kind: StatementKind,
}

/// A block `{ statements; final_expr }`.
pub struct Block {
    pub span: Span,
    pub statements: Vec<Statement>,
    pub final_expr: Option<Box<Expr>>,
}

/// An attribute `name(args)`.
pub struct Attribute {
    pub name: Ident,
    pub args: Option<Vec<Ident>>,
}

/// An attribute declaration `#[...]`.
pub struct AttributeDecl {
    pub span: Span,
    pub attributes: Vec<Attribute>,
}

/// An argument of a function.
pub struct FnArg {
    pub pattern: Pattern,
    pub ty: Ty,
}

/// The signature of a function.
pub struct FnSignature {
    pub span: Span,
    pub name: Ident,
    /// Whether the function takes `self`.
    pub has_self: bool,
    pub args: Vec<FnArg>,
    pub return_type: Option<Ty>,
}

/// A function.
pub struct ItemFn {
    pub span: Span,
    pub fn_signature: FnSignature,
    pub body: Block,
}

/// A tree of names that a `use` item imports.
pub enum UseTree {
    Group(Vec<UseTree>),
    Name(Ident),
    Rename { name: Ident, alias: Ident },
    Glob,
    Path { prefix: Ident, suffix: Box<UseTree> },
    Error,
}

/// A `use` item.
pub struct ItemUse {
    pub span: Span,
    pub root_import: bool,
    pub tree: UseTree,
}

/// A field of a struct or enum declaration.
pub struct TypeField {
    pub span: Span,
    pub name: Ident,
    pub ty: Ty,
}

/// A field of a storage declaration.
pub struct StorageField {
    pub span: Span,
    pub name: Ident,
    pub ty: Ty,
    pub initializer: Expr,
}

/// A field of a configurable declaration.
pub struct ConfigurableField {
    pub span: Span,
    pub name: Ident,
    pub ty: Ty,
    pub initializer: Expr,
}

/// A constant.
pub struct ItemConst {
    pub span: Span,
    pub name: Ident,
    pub ty: Option<Ty>,
    pub expr: Option<Expr>,
}

/// An item of an `impl` block.
pub enum ImplItemKind {
    Fn(ItemFn),
    Const(ItemConst),
    Type(Ident),
}

/// An item of an `impl` block with its attributes.
pub struct ImplItem {
    pub attributes: Vec<AttributeDecl>,
    pub kind: ImplItemKind,
}

/// An `impl` block.
pub struct ItemImpl {
    pub span: Span,
    pub trait_opt: Option<PathType>,
    pub ty: Ty,
    pub contents: Vec<ImplItem>,
}

/// A field declaration with its attributes.
pub struct AnnotatedField<T> {
    pub attributes: Vec<AttributeDecl>,
    pub value: T,
}

/// The kinds of items.
pub enum ItemKind {
    Submodule(Ident),
    Use(ItemUse),
    Struct { span: Span, name: Ident, fields: Vec<AnnotatedField<TypeField>> },
    Enum { span: Span, name: Ident, fields: Vec<AnnotatedField<TypeField>> },
    Fn(ItemFn),
    Trait { span: Span, name: Ident },
    Impl(ItemImpl),
    Abi { span: Span, name: Ident },
    Const(ItemConst),
    Storage { span: Span, fields: Vec<AnnotatedField<StorageField>> },
    Configurable { span: Span, fields: Vec<AnnotatedField<ConfigurableField>> },
    TypeAlias { span: Span, name: Ident, ty: Ty },
    Error,
}

/// An item with its attributes.
pub struct Item {
    pub attributes: Vec<AttributeDecl>,
    pub kind: ItemKind,
}

/// A module: the items of one source file.
pub struct Module {
    pub items: Vec<Item>,
}

} // verus!
