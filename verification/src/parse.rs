//! Parsing a Sway source file with `sway_parse`, and reading the tree it builds into the
//! analyzer's own syntax tree, node for node.
//!
//! The parser's node types are declared below so that the reading functions can name them;
//! Verus sees nothing inside them. Each reading function takes one parser node and builds the
//! analyzer's node of the same kind from its parts.
use vstd::prelude::*;
use crate::ast;
use crate::ast::BinaryOp as B;
use sway_ast as sw;
use sway_ast::assignable::ElementAccess as A;
use sway_ast::expr::{LoopControlFlow, ReassignmentOpVariant};
use sway_ast::literal::LitBoolType;
use sway_types::Spanned;
use sway_ast::Module as SwayModule;
use sway_ast::AttributeDecl as SwayAttributeDecl;
use sway_ast::attribute::Attribute as SwayAttribute;
use sway_ast::ItemKind as SwayItemKind;
use sway_ast::ItemStruct as SwayItemStruct;
use sway_ast::ItemEnum as SwayItemEnum;
use sway_ast::ItemStorage as SwayItemStorage;
use sway_ast::StorageEntry as SwayStorageEntry;
use sway_ast::StorageField as SwayStorageField;
use sway_ast::ItemConfigurable as SwayItemConfigurable;
use sway_ast::ConfigurableField as SwayConfigurableField;
use sway_ast::ItemTypeAlias as SwayItemTypeAlias;
use sway_ast::TypeField as SwayTypeField;
use sway_ast::ItemUse as SwayItemUse;
use sway_ast::UseTree as SwayUseTree;
use sway_ast::ItemConst as SwayItemConst;
use sway_ast::ItemImpl as SwayItemImpl;
use sway_ast::ItemImplItem as SwayItemImplItem;
use sway_ast::ItemFn as SwayItemFn;
use sway_ast::FnSignature as SwayFnSignature;
use sway_ast::FnArgs as SwayFnArgs;
use sway_ast::FnArg as SwayFnArg;
use sway_ast::Ty as SwayTy;
use sway_ast::PathType as SwayPathType;
use sway_ast::PathExprSegment as SwayPathExprSegment;
use sway_ast::PathExpr as SwayPathExpr;
use sway_ast::CodeBlockContents as SwayCodeBlockContents;
use sway_ast::Statement as SwayStatement;
use sway_ast::StatementLet as SwayStatementLet;
use sway_ast::Literal as SwayLiteral;
use sway_ast::Pattern as SwayPattern;
use sway_ast::PatternStructField as SwayPatternStructField;
use sway_ast::Expr as SwayExpr;
use sway_ast::ExprStructField as SwayExprStructField;
use sway_ast::IfExpr as SwayIfExpr;
use sway_ast::IfCondition as SwayIfCondition;
use sway_ast::assignable::ElementAccess as SwayElementAccess;
use sway_ast::Assignable as SwayAssignable;
use sway_ast::expr::ReassignmentOp as SwayReassignmentOp;
use sway_ast::AsmBlock as SwayAsmBlock;
use sway_ast::AsmRegisterDeclaration as SwayAsmRegisterDeclaration;
use sway_ast::Instruction as SwayInstruction;
use sway_ast::ExprTupleDescriptor as SwayExprTupleDescriptor;
use sway_ast::ExprArrayDescriptor as SwayExprArrayDescriptor;
use sway_ast::MatchBranch as SwayMatchBranch;
use sway_types::Span as SwaySpan;
use sway_types::BaseIdent as SwayIdent;

verus! {

#[verifier::external_type_specification]
#[verifier::external_body]
pub struct ExSwayModule(SwayModule);

#[verifier::external_type_specification]
#[verifier::external_body]
pub struct ExSwayAttributeDecl(SwayAttributeDecl);

#[verifier::external_type_specification]
#[verifier::external_body]
pub struct ExSwayAttribute(SwayAttribute);

#[verifier::external_type_specification]
#[verifier::external_body]
pub struct ExSwayItemKind(SwayItemKind);

#[verifier::external_type_specification]
#[verifier::external_body]
pub struct ExSwayItemStruct(SwayItemStruct);

#[verifier::external_type_specification]
#[verifier::external_body]
pub struct ExSwayItemEnum(SwayItemEnum);

#[verifier::external_type_specification]
#[verifier::external_body]
pub struct ExSwayItemStorage(SwayItemStorage);

#[verifier::external_type_specification]
#[verifier::external_body]
pub struct ExSwayStorageEntry(SwayStorageEntry);

#[verifier::external_type_specification]
#[verifier::external_body]
pub struct ExSwayStorageField(SwayStorageField);

#[verifier::external_type_specification]
#[verifier::external_body]
pub struct ExSwayItemConfigurable(SwayItemConfigurable);

#[verifier::external_type_specification]
#[verifier::external_body]
pub struct ExSwayConfigurableField(SwayConfigurableField);

#[verifier::external_type_specification]
#[verifier::external_body]
pub struct ExSwayItemTypeAlias(SwayItemTypeAlias);

#[verifier::external_type_specification]
#[verifier::external_body]
pub struct ExSwayTypeField(SwayTypeField);

#[verifier::external_type_specification]
#[verifier::external_body]
pub struct ExSwayItemUse(SwayItemUse);

#[verifier::external_type_specification]
#[verifier::external_body]
pub struct ExSwayUseTree(SwayUseTree);

#[verifier::external_type_specification]
#[verifier::external_body]
pub struct ExSwayItemConst(SwayItemConst);

#[verifier::external_type_specification]
#[verifier::external_body]
pub struct ExSwayItemImpl(SwayItemImpl);

#[verifier::external_type_specification]
#[verifier::external_body]
pub struct ExSwayItemImplItem(SwayItemImplItem);

#[verifier::external_type_specification]
#[verifier::external_body]
pub struct ExSwayItemFn(SwayItemFn);

#[verifier::external_type_specification]
#[verifier::external_body]
pub struct ExSwayFnSignature(SwayFnSignature);

#[verifier::external_type_specification]
#[verifier::external_body]
pub struct ExSwayFnArgs(SwayFnArgs);

#[verifier::external_type_specification]
#[verifier::external_body]
pub struct ExSwayFnArg(SwayFnArg);

#[verifier::external_type_specification]
#[verifier::external_body]
pub struct ExSwayTy(SwayTy);

#[verifier::external_type_specification]
#[verifier::external_body]
pub struct ExSwayPathType(SwayPathType);

#[verifier::external_type_specification]
#[verifier::external_body]
pub struct ExSwayPathExprSegment(SwayPathExprSegment);

#[verifier::external_type_specification]
#[verifier::external_body]
pub struct ExSwayPathExpr(SwayPathExpr);

#[verifier::external_type_specification]
#[verifier::external_body]
pub struct ExSwayCodeBlockContents(SwayCodeBlockContents);

#[verifier::external_type_specification]
#[verifier::external_body]
pub struct ExSwayStatement(SwayStatement);

#[verifier::external_type_specification]
#[verifier::external_body]
pub struct ExSwayStatementLet(SwayStatementLet);

#[verifier::external_type_specification]
#[verifier::external_body]
pub struct ExSwayLiteral(SwayLiteral);

#[verifier::external_type_specification]
#[verifier::external_body]
pub struct ExSwayPattern(SwayPattern);

#[verifier::external_type_specification]
#[verifier::external_body]
pub struct ExSwayPatternStructField(SwayPatternStructField);

#[verifier::external_type_specification]
#[verifier::external_body]
pub struct ExSwayExpr(SwayExpr);

#[verifier::external_type_specification]
#[verifier::external_body]
pub struct ExSwayExprStructField(SwayExprStructField);

#[verifier::external_type_specification]
#[verifier::external_body]
pub struct ExSwayIfExpr(SwayIfExpr);

#[verifier::external_type_specification]
#[verifier::external_body]
pub struct ExSwayIfCondition(SwayIfCondition);

#[verifier::external_type_specification]
#[verifier::external_body]
pub struct ExSwayElementAccess(SwayElementAccess);

#[verifier::external_type_specification]
#[verifier::external_body]
pub struct ExSwayAssignable(SwayAssignable);

#[verifier::external_type_specification]
#[verifier::external_body]
pub struct ExSwayReassignmentOp(SwayReassignmentOp);

#[verifier::external_type_specification]
#[verifier::external_body]
pub struct ExSwayAsmBlock(SwayAsmBlock);

#[verifier::external_type_specification]
#[verifier::external_body]
pub struct ExSwayAsmRegisterDeclaration(SwayAsmRegisterDeclaration);

#[verifier::external_type_specification]
#[verifier::external_body]
pub struct ExSwayInstruction(SwayInstruction);

#[verifier::external_type_specification]
#[verifier::external_body]
pub struct ExSwayExprTupleDescriptor(SwayExprTupleDescriptor);

#[verifier::external_type_specification]
#[verifier::external_body]
pub struct ExSwayExprArrayDescriptor(SwayExprArrayDescriptor);

#[verifier::external_type_specification]
#[verifier::external_body]
pub struct ExSwayMatchBranch(SwayMatchBranch);

#[verifier::external_type_specification]
#[verifier::external_body]
pub struct ExSwaySpan(SwaySpan);

#[verifier::external_type_specification]
#[verifier::external_body]
pub struct ExSwayIdent(SwayIdent);

/// The module that `sway_parse` builds from a source text, read into the analyzer's syntax
/// tree; `None` when the parser reports the text as not Sway.
pub uninterp spec fn parsed_module(source: Seq<char>) -> Option<ast::Module>;

/// `sway_parse::parse_file` on the source text, its module read into the analyzer's syntax
/// tree. The parse depends on the text alone, so its result is named `parsed_module` of the
/// text; what that module is, node by node, is left to the parser.
#[verifier::external_body]
pub fn parse_module(source: &str) -> (r: Option<ast::Module>)
    ensures
        r == parsed_module(source@),
{
    let handler = sway_error::handler::Handler::default();
    let src = sway_types::span::Source::new(source);
    match sway_parse::parse_file(&handler, src, None, Default::default()) {
        Ok(annotated) => Some(module(&annotated.value)),
        Err(_) => None,
    }
}

/// A span: its offsets and its text.
#[verifier::external_body]
fn span(s: &SwaySpan) -> ast::Span {
    ast::Span { start: s.start(), end: s.end(), text: s.as_str().to_string() }
}

/// A name, with its span.
#[verifier::external_body]
fn ident(i: &SwayIdent) -> ast::Ident {
    ast::Ident { span: span(&i.span()) }
}

/// A module: its items.
#[verifier::external_body]
fn module(m: &SwayModule) -> ast::Module {
    ast::Module { items: m.items.iter().map(|i| item(&i.attributes, &i.value)).collect() }
}

/// Attribute declarations.
#[verifier::external_body]
fn attributes(attrs: &[SwayAttributeDecl]) -> Vec<ast::AttributeDecl> {
    attrs.iter().map(attribute_decl).collect()
}

/// An attribute declaration: its attributes.
#[verifier::external_body]
fn attribute_decl(decl: &SwayAttributeDecl) -> ast::AttributeDecl {
    ast::AttributeDecl { span: span(&decl.span()), attributes: decl.attribute.inner.iter().map(attribute).collect() }
}

/// An attribute: its name and the names of its arguments.
#[verifier::external_body]
fn attribute(a: &SwayAttribute) -> ast::Attribute {
    ast::Attribute {
        name: ident(&a.name),
        args: a.args.as_ref().map(|p| p.inner.iter().map(|arg| ident(&arg.name)).collect()),
    }
}

/// An item with its attributes.
#[verifier::external_body]
fn item(attrs: &[SwayAttributeDecl], k: &SwayItemKind) -> ast::Item {
    ast::Item { attributes: attributes(attrs), kind: item_kind(k) }
}

/// The kind of an item, with its parts (submodules, `use` items, types, functions and traits).
#[verifier::external_body]
fn item_kind(k: &SwayItemKind) -> ast::ItemKind {
    match k {
        sw::ItemKind::Submodule(s) => ast::ItemKind::Submodule(ident(&s.name)),
        sw::ItemKind::Use(u) => ast::ItemKind::Use(item_use(u)),
        sw::ItemKind::Struct(s) => item_struct(s),
        sw::ItemKind::Enum(e) => item_enum(e),
        sw::ItemKind::Fn(f) => ast::ItemKind::Fn(item_fn(f)),
        sw::ItemKind::Trait(t) => ast::ItemKind::Trait { span: span(&t.span()), name: ident(&t.name) },
        _ => item_kind_rest(k),
    }
}

/// The kind of an item that `item_kind` leaves: `impl` blocks, ABIs, constants, storage,
/// configurables and type aliases.
#[verifier::external_body]
fn item_kind_rest(k: &SwayItemKind) -> ast::ItemKind {
    match k {
        sw::ItemKind::Impl(i) => ast::ItemKind::Impl(item_impl(i)),
        sw::ItemKind::Abi(a) => ast::ItemKind::Abi { span: span(&a.span()), name: ident(&a.name) },
        sw::ItemKind::Const(c) => ast::ItemKind::Const(item_const(c)),
        sw::ItemKind::Storage(s) => item_storage(s),
        sw::ItemKind::Configurable(c) => item_configurable(c),
        sw::ItemKind::TypeAlias(t) => item_type_alias(t),
        // What is left is an item that did not parse.
        _ => ast::ItemKind::Error,
    }
}

/// A type alias: its name and type.
#[verifier::external_body]
fn item_type_alias(t: &SwayItemTypeAlias) -> ast::ItemKind {
    ast::ItemKind::TypeAlias { span: span(&t.span()), name: ident(&t.name), ty: ty(&t.ty) }
}

/// A struct: its fields.
#[verifier::external_body]
fn item_struct(s: &SwayItemStruct) -> ast::ItemKind {
    let fields = s.fields.inner.iter().map(|f| type_field(&f.attributes, &f.value)).collect();
    ast::ItemKind::Struct { span: span(&s.span()), name: ident(&s.name), fields }
}

/// An enum: its variants.
#[verifier::external_body]
fn item_enum(e: &SwayItemEnum) -> ast::ItemKind {
    let fields = e.fields.inner.iter().map(|f| type_field(&f.attributes, &f.value)).collect();
    ast::ItemKind::Enum { span: span(&e.span()), name: ident(&e.name), fields }
}

/// A storage item: its fields, those of its namespaces listed as its own.
#[verifier::external_body]
fn item_storage(s: &SwayItemStorage) -> ast::ItemKind {
    let mut fields = Vec::new();
    for entry in s.entries.inner.iter() {
        storage_entry(&entry.attributes, &entry.value, &mut fields);
    }
    ast::ItemKind::Storage { span: span(&s.span()), fields }
}

/// The fields of a storage entry: the entry's own field, then the fields of the namespace it
/// opens.
#[verifier::external_body]
fn storage_entry(attrs: &[SwayAttributeDecl], entry: &SwayStorageEntry, out: &mut Vec<ast::AnnotatedField<ast::StorageField>>) {
    if let Some(field) = &entry.field {
        out.push(ast::AnnotatedField { attributes: attributes(attrs), value: storage_field(field) });
    }
    if let Some(namespace) = &entry.namespace {
        for inner in namespace.inner.iter() {
            storage_entry(&inner.attributes, &inner.value, out);
        }
    }
}

/// A storage field: its name, type and initial value.
#[verifier::external_body]
fn storage_field(f: &SwayStorageField) -> ast::StorageField {
    ast::StorageField { span: span(&f.span()), name: ident(&f.name), ty: ty(&f.ty), initializer: expr(&f.initializer) }
}

/// A configurable item: its fields.
#[verifier::external_body]
fn item_configurable(c: &SwayItemConfigurable) -> ast::ItemKind {
    let fields = c.fields.inner.iter().map(|f| configurable_field(&f.attributes, &f.value)).collect();
    ast::ItemKind::Configurable { span: span(&c.span()), fields }
}

/// A configurable field with its attributes: its name, type and initial value.
#[verifier::external_body]
fn configurable_field(attrs: &[SwayAttributeDecl], f: &SwayConfigurableField) -> ast::AnnotatedField<ast::ConfigurableField> {
    ast::AnnotatedField {
        attributes: attributes(attrs),
        value: ast::ConfigurableField { span: span(&f.span()), name: ident(&f.name), ty: ty(&f.ty), initializer: expr(&f.initializer) },
    }
}

/// A field of a struct or a variant of an enum, with its attributes.
#[verifier::external_body]
fn type_field(attrs: &[SwayAttributeDecl], f: &SwayTypeField) -> ast::AnnotatedField<ast::TypeField> {
    ast::AnnotatedField {
        attributes: attributes(attrs),
        value: ast::TypeField { span: span(&f.span()), name: ident(&f.name), ty: ty(&f.ty) },
    }
}

/// A `use` item.
#[verifier::external_body]
fn item_use(u: &SwayItemUse) -> ast::ItemUse {
    ast::ItemUse { span: span(&u.span()), root_import: u.root_import.is_some(), tree: use_tree(&u.tree) }
}

/// The tree of a `use` item.
#[verifier::external_body]
fn use_tree(t: &SwayUseTree) -> ast::UseTree {
    match t {
        sw::UseTree::Group { imports } => ast::UseTree::Group(imports.inner.iter().map(use_tree).collect()),
        sw::UseTree::Name { name } => ast::UseTree::Name(ident(name)),
        sw::UseTree::Rename { name, alias, .. } => ast::UseTree::Rename { name: ident(name), alias: ident(alias) },
        sw::UseTree::Glob { .. } => ast::UseTree::Glob,
        sw::UseTree::Path { prefix, suffix, .. } => ast::UseTree::Path { prefix: ident(prefix), suffix: Box::new(use_tree(suffix)) },
        sw::UseTree::Error { .. } => ast::UseTree::Error,
    }
}

/// A constant.
#[verifier::external_body]
fn item_const(c: &SwayItemConst) -> ast::ItemConst {
    ast::ItemConst {
        span: span(&c.span()),
        name: ident(&c.name),
        ty: c.ty_opt.as_ref().map(|(_, t)| ty(t)),
        expr: c.expr_opt.as_ref().map(expr),
    }
}

/// An `impl` block and its items.
#[verifier::external_body]
fn item_impl(i: &SwayItemImpl) -> ast::ItemImpl {
    ast::ItemImpl {
        span: span(&i.span()),
        trait_opt: i.trait_opt.as_ref().map(|(p, _)| path_type(p)),
        ty: ty(&i.ty),
        contents: i.contents.inner.iter().map(|ann| impl_item(&ann.attributes, &ann.value)).collect(),
    }
}

/// An item of an `impl` block, with its attributes.
#[verifier::external_body]
fn impl_item(attrs: &[SwayAttributeDecl], i: &SwayItemImplItem) -> ast::ImplItem {
    let kind = match i {
        sw::ItemImplItem::Fn(f) => ast::ImplItemKind::Fn(item_fn(f)),
        sw::ItemImplItem::Const(c) => ast::ImplItemKind::Const(item_const(c)),
        sw::ItemImplItem::Type(t) => ast::ImplItemKind::Type(ident(&t.name)),
    };
    ast::ImplItem { attributes: attributes(attrs), kind }
}

/// A function: its signature and its body.
#[verifier::external_body]
fn item_fn(f: &SwayItemFn) -> ast::ItemFn {
    ast::ItemFn { span: span(&f.span()), fn_signature: fn_signature(&f.fn_signature), body: block(&f.body.span(), &f.body.inner) }
}

/// A function signature: whether it takes `self`, its other arguments and its return type.
#[verifier::external_body]
fn fn_signature(s: &SwayFnSignature) -> ast::FnSignature {
    let (has_self, args) = fn_args(&s.arguments.inner);
    ast::FnSignature {
        span: span(&s.span()),
        name: ident(&s.name),
        has_self,
        args,
        return_type: s.return_type_opt.as_ref().map(|(_, t)| ty(t)),
    }
}

/// The arguments of a function: whether it takes `self`, and its other arguments.
#[verifier::external_body]
fn fn_args(a: &SwayFnArgs) -> (bool, Vec<ast::FnArg>) {
    match a {
        sw::FnArgs::Static(args) => (false, args.iter().map(fn_arg).collect()),
        sw::FnArgs::NonStatic { args_opt, .. } => {
            (true, args_opt.as_ref().map(|(_, args)| args.iter().map(fn_arg).collect()).unwrap_or_default())
        },
    }
}

/// An argument of a function: its pattern and its type.
#[verifier::external_body]
fn fn_arg(a: &SwayFnArg) -> ast::FnArg {
    ast::FnArg { pattern: pattern(&a.pattern), ty: ty(&a.ty) }
}

/// A type: its text, and its path when it is a path type.
#[verifier::external_body]
fn ty(t: &SwayTy) -> ast::Ty {
    let path = match t {
        sw::Ty::Path(p) => Some(path_type(p)),
        _ => None,
    };
    ast::Ty { span: span(&t.span()), path }
}

/// A path type.
#[verifier::external_body]
fn path_type(p: &SwayPathType) -> ast::PathType {
    let suffix = p.suffix.iter().map(|(_, seg)| ident(&seg.name)).collect();
    ast::PathType { span: span(&p.span()), prefix: ident(&p.prefix.name), suffix }
}

/// A segment of a path expression.
#[verifier::external_body]
fn path_segment(s: &SwayPathExprSegment) -> ast::PathExprSegment {
    ast::PathExprSegment { name: ident(&s.name), generics: s.generics_opt.as_ref().map(|(_, g)| span(&g.span())) }
}

/// A path expression.
#[verifier::external_body]
fn path_expr(p: &SwayPathExpr) -> ast::PathExpr {
    let suffix = p.suffix.iter().map(|(_, seg)| path_segment(seg)).collect();
    ast::PathExpr { span: span(&p.span()), prefix: path_segment(&p.prefix), suffix }
}

/// A block with its span: its statements and its final expression.
#[verifier::external_body]
fn block(s: &SwaySpan, b: &SwayCodeBlockContents) -> ast::Block {
    ast::Block {
        span: span(s),
        statements: b.statements.iter().map(statement).collect(),
        final_expr: b.final_expr_opt.as_ref().map(|e| boxed(e)),
    }
}

/// A statement.
#[verifier::external_body]
fn statement(s: &SwayStatement) -> ast::Statement {
    let kind = match s {
        sw::Statement::Let(l) => ast::StatementKind::Let(statement_let(l)),
        sw::Statement::Item(i) => ast::StatementKind::Item(Box::new(item(&i.attributes, &i.value))),
        sw::Statement::Expr { expr: e, semicolon_token_opt } => {
            ast::StatementKind::Expr { expr: expr(e), has_semicolon: semicolon_token_opt.is_some() }
        },
        sw::Statement::Error(_, _) => ast::StatementKind::Error,
    };
    ast::Statement { span: span(&s.span()), kind }
}

/// A `let` statement: its pattern, its type if given, and its value.
#[verifier::external_body]
fn statement_let(l: &SwayStatementLet) -> ast::StatementLet {
    let ty_opt = l.ty_opt.as_ref().map(|(_, t)| ty(t));
    ast::StatementLet { span: span(&l.span()), pattern: pattern(&l.pattern), ty: ty_opt, expr: expr(&l.expr) }
}

/// A literal; an integer literal with its value when that fits in 128 bits.
#[verifier::external_body]
fn literal(l: &SwayLiteral) -> ast::Literal {
    let kind = match l {
        sw::Literal::String(_) => ast::LiteralKind::Str,
        sw::Literal::Char(_) => ast::LiteralKind::Char,
        sw::Literal::Int(i) => ast::LiteralKind::Int(u128::try_from(&i.parsed).ok()),
        sw::Literal::Bool(b) => ast::LiteralKind::Bool(matches!(b.kind, LitBoolType::True)),
    };
    ast::Literal { span: span(&l.span()), kind }
}

/// A pattern.
#[verifier::external_body]
fn pattern(p: &SwayPattern) -> ast::Pattern {
    ast::Pattern { span: span(&p.span()), kind: pattern_kind(p) }
}

/// The kind of a pattern, with its parts (alternatives, wildcards, names and literals).
#[verifier::external_body]
fn pattern_kind(p: &SwayPattern) -> ast::PatternKind {
    match p {
        sw::Pattern::Or { lhs, rhs, .. } => ast::PatternKind::Or { lhs: Box::new(pattern(lhs)), rhs: Box::new(pattern(rhs)) },
        sw::Pattern::Wildcard { .. } => ast::PatternKind::Wildcard,
        sw::Pattern::AmbiguousSingleIdent(i) => ast::PatternKind::AmbiguousSingleIdent(ident(i)),
        sw::Pattern::Var { mutable, name, .. } => ast::PatternKind::Var { mutable: mutable.is_some(), name: ident(name) },
        sw::Pattern::Literal(l) => ast::PatternKind::Literal(literal(l)),
        _ => pattern_kind_rest(p),
    }
}

/// The kind of a pattern that `pattern_kind` leaves: constants, constructors, structs and tuples.
#[verifier::external_body]
fn pattern_kind_rest(p: &SwayPattern) -> ast::PatternKind {
    match p {
        sw::Pattern::Constant(c) => ast::PatternKind::Constant(path_expr(c)),
        sw::Pattern::Constructor { path, args } => {
            ast::PatternKind::Constructor { path: path_expr(path), args: args.inner.iter().map(pattern).collect() }
        },
        sw::Pattern::Struct { path, fields } => {
            ast::PatternKind::Struct { path: path_expr(path), fields: fields.inner.iter().map(pattern_field).collect() }
        },
        sw::Pattern::Tuple(t) => ast::PatternKind::Tuple(t.inner.iter().map(pattern).collect()),
        // What is left is a pattern that did not parse.
        _ => ast::PatternKind::Error,
    }
}

/// A field of a struct pattern.
#[verifier::external_body]
fn pattern_field(f: &SwayPatternStructField) -> ast::PatternStructField {
    match f {
        sw::PatternStructField::Rest { .. } => ast::PatternStructField::Rest,
        sw::PatternStructField::Field { field_name, pattern_opt } => ast::PatternStructField::Field {
            field_name: ident(field_name),
            pattern: pattern_opt.as_ref().map(|(_, p)| Box::new(pattern(p))),
        },
    }
}

/// An expression on the heap.
#[verifier::external_body]
fn boxed(e: &SwayExpr) -> Box<ast::Expr> {
    Box::new(expr(e))
}

/// A binary expression with the given operator.
#[verifier::external_body]
fn binary(op: ast::BinaryOp, lhs: &SwayExpr, rhs: &SwayExpr) -> ast::ExprKind {
    ast::ExprKind::Binary { op, lhs: boxed(lhs), rhs: boxed(rhs) }
}

/// A field of a struct expression: its name and its value, if given.
#[verifier::external_body]
fn struct_field(f: &SwayExprStructField) -> (ast::Ident, Option<Box<ast::Expr>>) {
    (ident(&f.field_name), f.expr_opt.as_ref().map(|(_, e)| boxed(e)))
}

/// A field of a struct expression.
#[verifier::external_body]
fn expr_struct_field(f: &SwayExprStructField) -> ast::ExprStructField {
    let (field_name, value) = struct_field(f);
    ast::ExprStructField { field_name, value }
}

/// A contract argument of a method call.
#[verifier::external_body]
fn contract_arg(f: &SwayExprStructField) -> ast::ContractArg {
    let (name, value) = struct_field(f);
    ast::ContractArg { name, value }
}

/// An `if` expression and its `else` part.
#[verifier::external_body]
fn if_expr(i: &SwayIfExpr) -> ast::IfExpr {
    let else_opt = i.else_opt.as_ref().map(|(_, tail)| match tail {
        LoopControlFlow::Break(b) => ast::ElseBranch::Else(block(&b.span(), &b.inner)),
        LoopControlFlow::Continue(next) => ast::ElseBranch::ElseIf(Box::new(if_expr(next))),
    });
    let then_block = block(&i.then_block.span(), &i.then_block.inner);
    ast::IfExpr { span: span(&i.span()), condition: if_condition(&i.condition), then_block, else_opt }
}

/// The condition of an `if` expression.
#[verifier::external_body]
fn if_condition(c: &SwayIfCondition) -> ast::IfCondition {
    match c {
        sw::IfCondition::Expr(e) => ast::IfCondition::Expr(boxed(e)),
        sw::IfCondition::Let { lhs, rhs, .. } => ast::IfCondition::Let { lhs: Box::new(pattern(lhs)), rhs: boxed(rhs) },
    }
}

/// The place that an element access names.
#[verifier::external_body]
fn element_access(a: &SwayElementAccess) -> ast::ElementAccess {
    match a {
        A::Var(i) => ast::ElementAccess::Var(ident(i)),
        A::Index { target, arg } => ast::ElementAccess::Index { target: Box::new(element_access(target)), arg: boxed(&arg.inner) },
        A::FieldProjection { target, name, .. } => {
            ast::ElementAccess::FieldProjection { target: Box::new(element_access(target)), name: ident(name) }
        },
        A::TupleFieldProjection { target, .. } => ast::ElementAccess::TupleFieldProjection { target: Box::new(element_access(target)) },
        A::Deref { target, .. } => ast::ElementAccess::Deref { target: Box::new(element_access(target)) },
    }
}

/// An `asm` block: its registers, its instructions and its final register.
#[verifier::external_body]
fn asm_block(a: &SwayAsmBlock) -> ast::AsmBlock {
    ast::AsmBlock {
        span: span(&a.span()),
        registers: a.registers.inner.iter().map(asm_register).collect(),
        instructions: a.contents.inner.instructions.iter().map(|(ins, _)| asm_instruction(ins)).collect(),
        final_expr: a.contents.inner.final_expr_opt.as_ref().map(|f| ident(&f.register)),
    }
}

/// A register declaration of an `asm` block, with its initial value if any.
#[verifier::external_body]
fn asm_register(r: &SwayAsmRegisterDeclaration) -> ast::AsmRegister {
    ast::AsmRegister { register: ident(&r.register), value: r.value_opt.as_ref().map(|(_, e)| boxed(e)) }
}

/// An instruction of an `asm` block: its op code, whether it is a `call`, and its registers.
#[verifier::external_body]
fn asm_instruction(ins: &SwayInstruction) -> ast::AsmInstruction {
    ast::AsmInstruction {
        span: span(&ins.span()),
        op_code: ident(&ins.op_code_ident()),
        is_call: matches!(ins, sw::Instruction::Call { .. }),
        args: ins.register_arg_idents().iter().map(ident).collect(),
    }
}

/// An expression.
#[verifier::external_body]
fn expr(e: &SwayExpr) -> ast::Expr {
    ast::Expr { span: span(&e.span()), kind: expr_kind(e) }
}

/// The kind of an expression, with its parts (paths, literals, casts, tuples, parentheses).
#[verifier::external_body]
fn expr_kind(e: &SwayExpr) -> ast::ExprKind {
    match e {
        sw::Expr::Path(p) => ast::ExprKind::Path(path_expr(p)),
        sw::Expr::Literal(l) => ast::ExprKind::Literal(literal(l)),
        sw::Expr::AbiCast { args, .. } => ast::ExprKind::AbiCast { name: span(&args.inner.name.span()), address: boxed(&args.inner.address) },
        sw::Expr::Tuple(t) => ast::ExprKind::Tuple(tuple_items(&t.inner)),
        sw::Expr::Parens(p) => ast::ExprKind::Parens(boxed(&p.inner)),
        _ => expr_kind_block(e),
    }
}

/// The kind of an expression that `expr_kind` leaves, with its parts (structs, blocks, arrays,
/// `asm` blocks).
#[verifier::external_body]
fn expr_kind_block(e: &SwayExpr) -> ast::ExprKind {
    match e {
        sw::Expr::Struct { path, fields } => {
            ast::ExprKind::Struct { path: path_expr(path), fields: fields.inner.iter().map(expr_struct_field).collect() }
        },
        sw::Expr::Block(b) => ast::ExprKind::Block(block(&b.span(), &b.inner)),
        sw::Expr::Array(a) => array(&a.inner),
        sw::Expr::Asm(a) => ast::ExprKind::Asm(asm_block(a)),
        _ => expr_kind_control(e),
    }
}

/// The items of a tuple expression.
#[verifier::external_body]
fn tuple_items(t: &SwayExprTupleDescriptor) -> Vec<ast::Expr> {
    match t {
        sw::ExprTupleDescriptor::Nil => Vec::new(),
        sw::ExprTupleDescriptor::Cons { head, tail, .. } => {
            let mut all = vec![expr(head)];
            all.extend(tail.iter().map(expr));
            all
        },
    }
}

/// The kind of an array expression.
#[verifier::external_body]
fn array(a: &SwayExprArrayDescriptor) -> ast::ExprKind {
    match a {
        sw::ExprArrayDescriptor::Sequence(items) => ast::ExprKind::Array(items.iter().map(expr).collect()),
        sw::ExprArrayDescriptor::Repeat { value, length, .. } => ast::ExprKind::ArrayRepeat { value: boxed(value), length: boxed(length) },
    }
}

/// The kind of an expression that `expr_kind_block` leaves, with its parts (`return`, `panic`,
/// `if`, `match`).
#[verifier::external_body]
fn expr_kind_control(e: &SwayExpr) -> ast::ExprKind {
    match e {
        sw::Expr::Return { expr_opt, .. } => ast::ExprKind::Return(expr_opt.as_ref().map(|x| boxed(x))),
        sw::Expr::Panic { expr_opt, .. } => ast::ExprKind::Panic(expr_opt.as_ref().map(|x| boxed(x))),
        sw::Expr::If(i) => ast::ExprKind::If(Box::new(if_expr(i))),
        sw::Expr::Match { value, branches, .. } => {
            ast::ExprKind::Match { value: boxed(value), branches: branches.inner.iter().map(match_branch).collect() }
        },
        _ => expr_kind_loop(e),
    }
}

/// A branch of a `match` expression: its pattern and its body.
#[verifier::external_body]
fn match_branch(b: &SwayMatchBranch) -> ast::MatchBranch {
    let kind = match &b.kind {
        sw::MatchBranchKind::Block { block: body, .. } => ast::MatchBranchKind::Block(block(&body.span(), &body.inner)),
        sw::MatchBranchKind::Expr { expr: body, .. } => ast::MatchBranchKind::Expr(boxed(body)),
    };
    ast::MatchBranch { span: span(&b.span()), pattern: pattern(&b.pattern), kind }
}

/// The kind of an expression that `expr_kind_control` leaves, with its parts (loops and function
/// calls).
#[verifier::external_body]
fn expr_kind_loop(e: &SwayExpr) -> ast::ExprKind {
    match e {
        sw::Expr::While { condition, block: b, .. } => ast::ExprKind::While { condition: boxed(condition), body: block(&b.span(), &b.inner) },
        sw::Expr::For { value_pattern, iterator, block: b, .. } => {
            ast::ExprKind::For { pattern: Box::new(pattern(value_pattern)), iterator: boxed(iterator), body: block(&b.span(), &b.inner) }
        },
        sw::Expr::FuncApp { func, args } => {
            ast::ExprKind::FuncApp { func: boxed(func), args: args.inner.iter().map(expr).collect(), args_span: span(&args.span()) }
        },
        _ => expr_kind_access(e),
    }
}

/// The kind of a method call.
#[verifier::external_body]
fn method_call(e: &SwayExpr) -> ast::ExprKind {
    match e {
        sw::Expr::MethodCall { target, path_seg, contract_args_opt, args, .. } => ast::ExprKind::MethodCall {
            target: boxed(target),
            name: ident(&path_seg.name),
            contract_args: contract_args_opt.as_ref().map(|c| c.inner.iter().map(contract_arg).collect()).unwrap_or_default(),
            args: args.inner.iter().map(expr).collect(),
            args_span: span(&args.span()),
        },
        _ => ast::ExprKind::Error,
    }
}

/// The kind of an expression that `expr_kind_loop` leaves, with its parts (method calls,
/// indexing, projections, references).
#[verifier::external_body]
fn expr_kind_access(e: &SwayExpr) -> ast::ExprKind {
    match e {
        sw::Expr::MethodCall { .. } => method_call(e),
        sw::Expr::Index { target, arg } => ast::ExprKind::Index { target: boxed(target), arg: boxed(&arg.inner) },
        sw::Expr::FieldProjection { target, name, .. } => ast::ExprKind::FieldProjection { target: boxed(target), name: ident(name) },
        sw::Expr::TupleFieldProjection { target, .. } => ast::ExprKind::TupleFieldProjection { target: boxed(target) },
        sw::Expr::Ref { expr: inner, .. } => ast::ExprKind::Ref(boxed(inner)),
        _ => expr_kind_unary(e),
    }
}

/// The kind of an expression that `expr_kind_access` leaves, with its parts (dereferences,
/// negation, assignments, `break` and `continue`).
#[verifier::external_body]
fn expr_kind_unary(e: &SwayExpr) -> ast::ExprKind {
    match e {
        sw::Expr::Deref { expr: inner, .. } => ast::ExprKind::Deref(boxed(inner)),
        sw::Expr::Not { expr: inner, .. } => ast::ExprKind::Not(boxed(inner)),
        sw::Expr::Reassignment { assignable, reassignment_op, expr: value } => reassignment(assignable, reassignment_op, value),
        sw::Expr::Break { .. } => ast::ExprKind::Break,
        sw::Expr::Continue { .. } => ast::ExprKind::Continue,
        _ => expr_kind_arith(e),
    }
}

/// The kind of an arithmetic expression, with its operands.
#[verifier::external_body]
fn expr_kind_arith(e: &SwayExpr) -> ast::ExprKind {
    match e {
        sw::Expr::Mul { lhs, rhs, .. } => binary(B::Mul, lhs, rhs),
        sw::Expr::Div { lhs, rhs, .. } => binary(B::Div, lhs, rhs),
        sw::Expr::Pow { lhs, rhs, .. } => binary(B::Pow, lhs, rhs),
        sw::Expr::Modulo { lhs, rhs, .. } => binary(B::Modulo, lhs, rhs),
        sw::Expr::Add { lhs, rhs, .. } => binary(B::Add, lhs, rhs),
        sw::Expr::Sub { lhs, rhs, .. } => binary(B::Sub, lhs, rhs),
        _ => expr_kind_bits(e),
    }
}

/// The kind of a bitwise expression, with its operands.
#[verifier::external_body]
fn expr_kind_bits(e: &SwayExpr) -> ast::ExprKind {
    match e {
        sw::Expr::Shl { lhs, rhs, .. } => binary(B::Shl, lhs, rhs),
        sw::Expr::Shr { lhs, rhs, .. } => binary(B::Shr, lhs, rhs),
        sw::Expr::BitAnd { lhs, rhs, .. } => binary(B::BitAnd, lhs, rhs),
        sw::Expr::BitXor { lhs, rhs, .. } => binary(B::BitXor, lhs, rhs),
        sw::Expr::BitOr { lhs, rhs, .. } => binary(B::BitOr, lhs, rhs),
        _ => expr_kind_compare(e),
    }
}

/// The kind of a comparison, with its operands.
#[verifier::external_body]
fn expr_kind_compare(e: &SwayExpr) -> ast::ExprKind {
    match e {
        sw::Expr::Equal { lhs, rhs, .. } => binary(B::Equal, lhs, rhs),
        sw::Expr::NotEqual { lhs, rhs, .. } => binary(B::NotEqual, lhs, rhs),
        sw::Expr::LessThan { lhs, rhs, .. } => binary(B::LessThan, lhs, rhs),
        sw::Expr::GreaterThan { lhs, rhs, .. } => binary(B::GreaterThan, lhs, rhs),
        sw::Expr::LessThanEq { lhs, rhs, .. } => binary(B::LessThanEq, lhs, rhs),
        sw::Expr::GreaterThanEq { lhs, rhs, .. } => binary(B::GreaterThanEq, lhs, rhs),
        _ => expr_kind_logic(e),
    }
}

/// The kind of a logical expression, with its operands.
#[verifier::external_body]
fn expr_kind_logic(e: &SwayExpr) -> ast::ExprKind {
    match e {
        sw::Expr::LogicalAnd { lhs, rhs, .. } => binary(B::LogicalAnd, lhs, rhs),
        sw::Expr::LogicalOr { lhs, rhs, .. } => binary(B::LogicalOr, lhs, rhs),
        // What is left is an expression that did not parse.
        _ => ast::ExprKind::Error,
    }
}

/// An assignment: its target, its operator and its value.
#[verifier::external_body]
fn reassignment(target: &SwayAssignable, op: &SwayReassignmentOp, value: &SwayExpr) -> ast::ExprKind {
    let kind = match target {
        sw::Assignable::ElementAccess(a) => ast::AssignableKind::ElementAccess(element_access(a)),
        sw::Assignable::Deref { expr: inner, .. } => ast::AssignableKind::Deref(boxed(inner)),
    };
    let assignable = ast::Assignable { span: span(&target.span()), kind };
    ast::ExprKind::Reassignment { assignable, op: reassignment_op(op), value: boxed(value) }
}

/// The operator of an assignment.
#[verifier::external_body]
fn reassignment_op(op: &SwayReassignmentOp) -> ast::ReassignmentOp {
    match op.variant {
        ReassignmentOpVariant::Equals => ast::ReassignmentOp::Equals,
        ReassignmentOpVariant::AddEquals => ast::ReassignmentOp::AddEquals,
        ReassignmentOpVariant::SubEquals => ast::ReassignmentOp::SubEquals,
        ReassignmentOpVariant::MulEquals => ast::ReassignmentOp::MulEquals,
        ReassignmentOpVariant::DivEquals => ast::ReassignmentOp::DivEquals,
        ReassignmentOpVariant::ShlEquals => ast::ReassignmentOp::ShlEquals,
        ReassignmentOpVariant::ShrEquals => ast::ReassignmentOp::ShrEquals,
    }
}

} // verus!
