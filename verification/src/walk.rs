//! The order in which the analyzer visits the nodes of a module.
//!
//! Walking a module yields the sequence of visit events that the detectors consume, each with
//! its context: the item it belongs to, the enclosing `impl` block and function, the attributes
//! of the function and the statement it is part of.
use vstd::prelude::*;
use crate::ast::{
    AnnotatedField, AsmBlock, AsmInstruction, AttributeDecl, Block, ConfigurableField, ContractArg, ElseBranch,
    Expr, ExprKind, ExprStructField, IfCondition, IfExpr, ImplItem, ImplItemKind, Item, ItemConst, ItemFn, ItemImpl,
    ItemKind, ItemUse, MatchBranch, MatchBranchKind, Module, Statement, StatementKind, StatementLet, StorageField,
};

verus! {

/// The item a node belongs to.
#[derive(Clone, Copy)]
pub enum ItemRef<'a> {
    /// An item of a module or of a function body.
    Kind(&'a ItemKind),
    /// A function of an `impl` block.
    Fn(&'a ItemFn),
    /// A constant of an `impl` block.
    Const(&'a ItemConst),
}

/// Where a node stands.
#[derive(Clone, Copy)]
pub struct Ctx<'a> {
    pub item: ItemRef<'a>,
    pub item_impl: Option<&'a ItemImpl>,
    pub item_fn: Option<&'a ItemFn>,
    pub fn_attributes: Option<&'a Vec<AttributeDecl>>,
    pub statement: Option<&'a Statement>,
    /// The node is part of the value of a constant, where no enclosing block counts.
    pub in_const: bool,
}

/// One visit of the walk.
///
/// A node's visit is recorded when the walk reaches it, before the visits of its children (see
/// the `trace_*` functions for the order). For the module, its items, functions, blocks,
/// statements, expressions, `if`, `match`, `while` and `for` expressions and `asm` blocks, the
/// end of the visit is recorded too, after the visits of the children. The ends of a `let`, a
/// `use`, a storage or configurable field and an `asm` instruction are not recorded: no
/// detector reads them. An event does not carry the blocks that enclose it: those are
/// `crate::detectors::open_blocks` of the events before it.
#[derive(Clone, Copy)]
pub enum Event<'a> {
    Use(Ctx<'a>, &'a ItemUse),
    Fn(Ctx<'a>, &'a ItemFn),
    LeaveFn(Ctx<'a>, &'a ItemFn),
    Block(Ctx<'a>, &'a Block),
    LeaveBlock(Ctx<'a>, &'a Block),
    Statement(Ctx<'a>, &'a Statement),
    StatementLet(Ctx<'a>, &'a StatementLet),
    Expr(Ctx<'a>, &'a Expr),
    /// An `if` expression (or an `else if` part of it), with the whole expression.
    If(Ctx<'a>, &'a Expr, &'a IfExpr),
    /// A `while` loop: the whole expression, its condition and its body.
    While(Ctx<'a>, &'a Expr, &'a Expr, &'a Block),
    LeaveWhile(Ctx<'a>, &'a Expr, &'a Expr, &'a Block),
    AsmBlock(Ctx<'a>, &'a AsmBlock),
    AsmInstruction(Ctx<'a>, &'a AsmBlock, &'a AsmInstruction),
    Storage(Ctx<'a>, &'a Vec<AnnotatedField<StorageField>>),
    StorageField(Ctx<'a>, &'a StorageField),
    Configurable(Ctx<'a>, &'a Vec<AnnotatedField<ConfigurableField>>),
    ConfigurableField(Ctx<'a>, &'a ConfigurableField),
    /// The end of an expression's visit, after the visits of the expressions inside it.
    LeaveExpr(Ctx<'a>, &'a Expr),
    LeaveIf(Ctx<'a>, &'a Expr, &'a IfExpr),
    /// A `match` expression, and the end of its visit.
    Match(Ctx<'a>, &'a Expr),
    LeaveMatch(Ctx<'a>, &'a Expr),
    /// A `for` loop, and the end of its visit.
    For(Ctx<'a>, &'a Expr),
    LeaveFor(Ctx<'a>, &'a Expr),
    LeaveAsmBlock(Ctx<'a>, &'a AsmBlock),
    LeaveStatement(Ctx<'a>, &'a Statement),
    /// An item of the module or of a function body, and the end of its visit.
    Item(Ctx<'a>, &'a Item),
    LeaveItem(Ctx<'a>, &'a Item),
    /// The module itself, first and last.
    Module(&'a Module),
    LeaveModule(&'a Module),
}

/// The context of a module's own items.
pub open spec fn top_ctx<'a>(item: &'a ItemKind) -> Ctx<'a> {
    Ctx { item: ItemRef::Kind(item), item_impl: None, item_fn: None, fn_attributes: None, statement: None, in_const: false }
}

/// The context of the statements of a function.
pub open spec fn fn_ctx<'a>(item: ItemRef<'a>, item_impl: Option<&'a ItemImpl>, f: &'a ItemFn, attrs: &'a Vec<AttributeDecl>) -> Ctx<'a> {
    Ctx { item, item_impl, item_fn: Some(f), fn_attributes: Some(attrs), statement: None, in_const: false }
}

/// The context of an item that stands in `outer`.
pub open spec fn item_ctx<'a>(item: &'a ItemKind, outer: Ctx<'a>) -> Ctx<'a> {
    Ctx { item: ItemRef::Kind(item), ..outer }
}

/// The context of the value of a constant.
pub open spec fn const_ctx<'a>(c: Ctx<'a>) -> Ctx<'a> {
    Ctx { in_const: true, ..c }
}

/// The context of the value of a storage or configurable field.
pub open spec fn field_ctx<'a>(item: &'a ItemKind) -> Ctx<'a> {
    Ctx { item: ItemRef::Kind(item), item_impl: None, item_fn: None, fn_attributes: None, statement: None, in_const: true }
}

/// The context of a statement.
pub open spec fn stmt_ctx<'a>(c: Ctx<'a>, s: &'a Statement) -> Ctx<'a> {
    Ctx { statement: Some(s), ..c }
}

/// The events of visiting an expression: its own visit, the visits of the parts inside it in
/// source order (a `match`, `while` or `for` also marked as such, with the end of that mark),
/// then the end of its visit.
pub open spec fn trace_expr<'a>(e: &'a Expr, c: Ctx<'a>) -> Seq<Event<'a>>
    decreases e,
{
    seq![Event::Expr(c, e)] + match &e.kind {
        ExprKind::AbiCast { address, .. } => trace_expr(&**address, c),
        ExprKind::Struct { fields, .. } => trace_struct_fields(fields@, c),
        ExprKind::Tuple(items) => trace_exprs(items@, c),
        ExprKind::Parens(inner) => trace_expr(&**inner, c),
        ExprKind::Block(b) => trace_block(b, c),
        ExprKind::Array(items) => trace_exprs(items@, c),
        ExprKind::ArrayRepeat { value, length } => trace_expr(&**value, c) + trace_expr(&**length, c),
        ExprKind::Asm(a) => trace_asm(a, c),
        ExprKind::Return(Some(inner)) => trace_expr(&**inner, c),
        ExprKind::Panic(Some(inner)) => trace_expr(&**inner, c),
        ExprKind::If(i) => trace_if(e, &**i, c),
        ExprKind::Match { value, branches } => seq![Event::Match(c, e)] + trace_expr(&**value, c)
            + trace_branches(branches@, c) + seq![Event::LeaveMatch(c, e)],
        ExprKind::While { condition, body } => seq![Event::While(c, e, &**condition, body)]
            + trace_expr(&**condition, c) + trace_block(body, c) + seq![Event::LeaveWhile(c, e, &**condition, body)],
        ExprKind::For { iterator, body, .. } => seq![Event::For(c, e)] + trace_expr(&**iterator, c)
            + trace_block(body, c) + seq![Event::LeaveFor(c, e)],
        ExprKind::FuncApp { func, args, .. } => trace_expr(&**func, c) + trace_exprs(args@, c),
        ExprKind::Index { target, arg } => trace_expr(&**target, c) + trace_expr(&**arg, c),
        ExprKind::MethodCall { target, contract_args, args, .. } => trace_expr(&**target, c)
            + trace_contract_args(contract_args@, c) + trace_exprs(args@, c),
        ExprKind::FieldProjection { target, .. } => trace_expr(&**target, c),
        ExprKind::TupleFieldProjection { target, .. } => trace_expr(&**target, c),
        ExprKind::Ref(inner) => trace_expr(&**inner, c),
        ExprKind::Deref(inner) => trace_expr(&**inner, c),
        ExprKind::Not(inner) => trace_expr(&**inner, c),
        ExprKind::Binary { lhs, rhs, .. } => trace_expr(&**lhs, c) + trace_expr(&**rhs, c),
        ExprKind::Reassignment { value, .. } => trace_expr(&**value, c),
        _ => Seq::empty(),
    } + seq![Event::LeaveExpr(c, e)]
}

pub open spec fn trace_exprs<'a>(s: Seq<Expr>, c: Ctx<'a>) -> Seq<Event<'a>>
    decreases s,
{
    if s.len() == 0 { Seq::empty() } else { trace_exprs(s.drop_last(), c) + trace_expr(&s.last(), c) }
}

pub open spec fn trace_struct_fields<'a>(s: Seq<ExprStructField>, c: Ctx<'a>) -> Seq<Event<'a>>
    decreases s,
{
    if s.len() == 0 {
        Seq::empty()
    } else {
        trace_struct_fields(s.drop_last(), c) + match &s.last().value {
            Some(v) => trace_expr(&**v, c),
            None => Seq::empty(),
        }
    }
}

pub open spec fn trace_contract_args<'a>(s: Seq<ContractArg>, c: Ctx<'a>) -> Seq<Event<'a>>
    decreases s,
{
    if s.len() == 0 {
        Seq::empty()
    } else {
        trace_contract_args(s.drop_last(), c) + match &s.last().value {
            Some(v) => trace_expr(&**v, c),
            None => Seq::empty(),
        }
    }
}

pub open spec fn trace_asm<'a>(a: &'a AsmBlock, c: Ctx<'a>) -> Seq<Event<'a>> {
    seq![Event::AsmBlock(c, a)] + trace_asm_instructions(a, a.instructions@, c) + seq![Event::LeaveAsmBlock(c, a)]
}

pub open spec fn trace_asm_instructions<'a>(a: &'a AsmBlock, s: Seq<AsmInstruction>, c: Ctx<'a>) -> Seq<Event<'a>>
    decreases s.len(),
{
    if s.len() == 0 {
        Seq::empty()
    } else {
        trace_asm_instructions(a, s.drop_last(), c).push(Event::AsmInstruction(c, a, &s.last()))
    }
}

/// The events of an `if` expression: its visit, its condition, its block, its `else` part (an
/// `else if` as an `if` of its own), then the end of its visit.
pub open spec fn trace_if<'a>(e: &'a Expr, i: &'a IfExpr, c: Ctx<'a>) -> Seq<Event<'a>>
    decreases i,
{
    seq![Event::If(c, e, i)] + match &i.condition {
        IfCondition::Expr(cond) => trace_expr(&**cond, c),
        IfCondition::Let { rhs, .. } => trace_expr(&**rhs, c),
    } + trace_block(&i.then_block, c) + match &i.else_opt {
        Some(ElseBranch::ElseIf(next)) => trace_if(e, &**next, c),
        Some(ElseBranch::Else(b)) => trace_block(b, c),
        None => Seq::empty(),
    } + seq![Event::LeaveIf(c, e, i)]
}

pub open spec fn trace_branches<'a>(s: Seq<MatchBranch>, c: Ctx<'a>) -> Seq<Event<'a>>
    decreases s,
{
    if s.len() == 0 {
        Seq::empty()
    } else {
        trace_branches(s.drop_last(), c) + match &s.last().kind {
            MatchBranchKind::Block(b) => trace_block(b, c),
            MatchBranchKind::Expr(x) => trace_expr(&**x, c),
        }
    }
}

/// The events of a block: its visit, its statements in order, its final expression, then the
/// end of its visit.
pub open spec fn trace_block<'a>(b: &'a Block, c: Ctx<'a>) -> Seq<Event<'a>>
    decreases b,
{
    seq![Event::Block(c, b)] + trace_statements(b.statements@, c) + match &b.final_expr {
        Some(x) => trace_expr(&**x, c),
        None => Seq::empty(),
    } + seq![Event::LeaveBlock(c, b)]
}

pub open spec fn trace_statements<'a>(s: Seq<Statement>, c: Ctx<'a>) -> Seq<Event<'a>>
    decreases s,
{
    if s.len() == 0 { Seq::empty() } else { trace_statements(s.drop_last(), c) + trace_statement(&s.last(), c) }
}

/// The events of a statement: its visit, what it holds (a `let` marked as such before its
/// value), then the end of its visit.
pub open spec fn trace_statement<'a>(s: &'a Statement, c: Ctx<'a>) -> Seq<Event<'a>>
    decreases s,
{
    let sc = stmt_ctx(c, s);
    seq![Event::Statement(sc, s)] + match &s.kind {
        StatementKind::Let(l) => seq![Event::StatementLet(sc, l)] + trace_expr(&l.expr, sc),
        StatementKind::Item(it) => trace_item(&**it, sc),
        StatementKind::Expr { expr, .. } => trace_expr(expr, sc),
        StatementKind::Error => Seq::empty(),
    } + seq![Event::LeaveStatement(sc, s)]
}

/// The events of a function: its visit, its body, then the end of its visit.
pub open spec fn trace_fn<'a>(f: &'a ItemFn, fc: Ctx<'a>) -> Seq<Event<'a>>
    decreases f,
{
    seq![Event::Fn(fc, f)] + trace_block(&f.body, fc) + seq![Event::LeaveFn(fc, f)]
}

pub open spec fn trace_const<'a>(k: &'a ItemConst, c: Ctx<'a>) -> Seq<Event<'a>>
    decreases k,
{
    match &k.expr {
        Some(x) => trace_expr(x, const_ctx(c)),
        None => Seq::empty(),
    }
}

pub open spec fn trace_impl_items<'a>(i: &'a ItemImpl, s: Seq<ImplItem>) -> Seq<Event<'a>>
    decreases s,
{
    if s.len() == 0 {
        Seq::empty()
    } else {
        trace_impl_items(i, s.drop_last()) + match &s.last().kind {
            ImplItemKind::Fn(f) => trace_fn(f, fn_ctx(ItemRef::Fn(f), Some(i), f, &s.last().attributes)),
            ImplItemKind::Const(k) => trace_const(k, Ctx {
                item: ItemRef::Const(k), item_impl: Some(i), item_fn: None, fn_attributes: None, statement: None, in_const: false,
            }),
            ImplItemKind::Type(_) => Seq::empty(),
        }
    }
}

pub open spec fn trace_storage_fields<'a>(item: &'a ItemKind, s: Seq<AnnotatedField<StorageField>>) -> Seq<Event<'a>>
    decreases s,
{
    if s.len() == 0 {
        Seq::empty()
    } else {
        trace_storage_fields(item, s.drop_last()) + seq![Event::StorageField(top_ctx(item), &s.last().value)]
            + trace_expr(&s.last().value.initializer, field_ctx(item))
    }
}

pub open spec fn trace_configurable_fields<'a>(item: &'a ItemKind, s: Seq<AnnotatedField<ConfigurableField>>) -> Seq<Event<'a>>
    decreases s,
{
    if s.len() == 0 {
        Seq::empty()
    } else {
        trace_configurable_fields(item, s.drop_last()) + seq![Event::ConfigurableField(top_ctx(item), &s.last().value)]
            + trace_expr(&s.last().value.initializer, field_ctx(item))
    }
}

/// The events of an item: its visit, the visits of what it holds, then the end of its visit.
pub open spec fn trace_item<'a>(item: &'a Item, outer: Ctx<'a>) -> Seq<Event<'a>>
    decreases item,
{
    let ic = item_ctx(&item.kind, outer);
    seq![Event::Item(ic, item)] + match &item.kind {
        ItemKind::Use(u) => seq![Event::Use(ic, u)],
        ItemKind::Fn(f) => trace_fn(f, fn_ctx(ItemRef::Kind(&item.kind), None, f, &item.attributes)),
        ItemKind::Impl(i) => trace_impl_items(i, i.contents@),
        ItemKind::Const(k) => trace_const(k, Ctx { item_impl: None, ..ic }),
        ItemKind::Storage { fields, .. } => seq![Event::Storage(ic, fields)] + trace_storage_fields(&item.kind, fields@),
        ItemKind::Configurable { fields, .. } => seq![Event::Configurable(ic, fields)]
            + trace_configurable_fields(&item.kind, fields@),
        _ => Seq::empty(),
    } + seq![Event::LeaveItem(ic, item)]
}

pub open spec fn trace_items<'a>(s: Seq<Item>) -> Seq<Event<'a>>
    decreases s,
{
    if s.len() == 0 {
        Seq::empty()
    } else {
        trace_items(s.drop_last()) + trace_item(&s.last(), top_ctx(&s.last().kind))
    }
}

/// The visit events of a module, in the order of the walk.
pub open spec fn trace_module<'a>(m: &'a Module) -> Seq<Event<'a>> {
    seq![Event::Module(m)] + trace_items(m.items@) + seq![Event::LeaveModule(m)]
}


fn walk_expr<'a>(e: &'a Expr, c: Ctx<'a>, out: &mut Vec<Event<'a>>)
    ensures
        final(out)@ == old(out)@ + trace_expr(e, c),
    decreases e,
{
    let ghost start = out@;
    out.push(Event::Expr(c, e));
    let ghost head = out@;
    match &e.kind {
        ExprKind::AbiCast { address, .. } => walk_expr(address, c, out),
        ExprKind::Struct { fields, .. } => walk_struct_fields(fields, c, out),
        ExprKind::Tuple(items) => walk_exprs(items, c, out),
        ExprKind::Parens(inner) => walk_expr(inner, c, out),
        ExprKind::Block(b) => walk_block(b, c, out),
        ExprKind::Array(items) => walk_exprs(items, c, out),
        ExprKind::ArrayRepeat { value, length } => {
            walk_expr(value, c, out);
            walk_expr(length, c, out);
        },
        ExprKind::Asm(a) => walk_asm(a, c, out),
        ExprKind::Return(Some(inner)) => walk_expr(inner, c, out),
        ExprKind::Panic(Some(inner)) => walk_expr(inner, c, out),
        ExprKind::If(i) => walk_if(e, i, c, out),
        ExprKind::Match { value, branches } => {
            out.push(Event::Match(c, e));
            walk_expr(value, c, out);
            walk_branches(branches, c, out);
            out.push(Event::LeaveMatch(c, e));
        },
        ExprKind::While { condition, body } => {
            out.push(Event::While(c, e, condition, body));
            walk_expr(condition, c, out);
            walk_block(body, c, out);
            out.push(Event::LeaveWhile(c, e, condition, body));
        },
        ExprKind::For { iterator, body, .. } => {
            out.push(Event::For(c, e));
            walk_expr(iterator, c, out);
            walk_block(body, c, out);
            out.push(Event::LeaveFor(c, e));
        },
        ExprKind::FuncApp { func, args, .. } => {
            walk_expr(func, c, out);
            walk_exprs(args, c, out);
        },
        ExprKind::Index { target, arg } => {
            walk_expr(target, c, out);
            walk_expr(arg, c, out);
        },
        ExprKind::MethodCall { target, contract_args, args, .. } => {
            walk_expr(target, c, out);
            walk_contract_args(contract_args, c, out);
            walk_exprs(args, c, out);
        },
        ExprKind::FieldProjection { target, .. } => walk_expr(target, c, out),
        ExprKind::TupleFieldProjection { target, .. } => walk_expr(target, c, out),
        ExprKind::Ref(inner) => walk_expr(inner, c, out),
        ExprKind::Deref(inner) => walk_expr(inner, c, out),
        ExprKind::Not(inner) => walk_expr(inner, c, out),
        ExprKind::Binary { lhs, rhs, .. } => {
            walk_expr(lhs, c, out);
            walk_expr(rhs, c, out);
        },
        ExprKind::Reassignment { value, .. } => walk_expr(value, c, out),
        _ => {},
    }
    out.push(Event::LeaveExpr(c, e));
    proof {
        assert(out@ =~= start + trace_expr(e, c));
    }
}

fn walk_exprs<'a>(items: &'a Vec<Expr>, c: Ctx<'a>, out: &mut Vec<Event<'a>>)
    ensures
        final(out)@ == old(out)@ + trace_exprs(items@, c),
    decreases items@,
{
    let ghost start = out@;
    let mut i: usize = 0;
    while i < items.len()
        invariant
            i <= items@.len(),
            out@ == start + trace_exprs(items@.subrange(0, i as int), c),
        decreases items@.len() - i,
    {
        proof {
            assert(items@.subrange(0, i as int + 1).drop_last() =~= items@.subrange(0, i as int));
            assert(decreases_to!(items@ => items@[i as int]));
        }
        walk_expr(&items[i], c, out);
        proof {
            assert(out@ =~= start + trace_exprs(items@.subrange(0, i as int + 1), c));
        }
        i = i + 1;
    }
    proof {
        assert(items@.subrange(0, i as int) =~= items@);
    }
}

fn walk_struct_fields<'a>(items: &'a Vec<ExprStructField>, c: Ctx<'a>, out: &mut Vec<Event<'a>>)
    ensures
        final(out)@ == old(out)@ + trace_struct_fields(items@, c),
    decreases items@,
{
    let ghost start = out@;
    let mut i: usize = 0;
    while i < items.len()
        invariant
            i <= items@.len(),
            out@ == start + trace_struct_fields(items@.subrange(0, i as int), c),
        decreases items@.len() - i,
    {
        proof {
            assert(items@.subrange(0, i as int + 1).drop_last() =~= items@.subrange(0, i as int));
            assert(decreases_to!(items@ => items@[i as int]));
        }
        match &items[i].value {
            Some(v) => walk_expr(v, c, out),
            None => {},
        }
        proof {
            assert(out@ =~= start + trace_struct_fields(items@.subrange(0, i as int + 1), c));
        }
        i = i + 1;
    }
    proof {
        assert(items@.subrange(0, i as int) =~= items@);
    }
}

fn walk_contract_args<'a>(items: &'a Vec<ContractArg>, c: Ctx<'a>, out: &mut Vec<Event<'a>>)
    ensures
        final(out)@ == old(out)@ + trace_contract_args(items@, c),
    decreases items@,
{
    let ghost start = out@;
    let mut i: usize = 0;
    while i < items.len()
        invariant
            i <= items@.len(),
            out@ == start + trace_contract_args(items@.subrange(0, i as int), c),
        decreases items@.len() - i,
    {
        proof {
            assert(items@.subrange(0, i as int + 1).drop_last() =~= items@.subrange(0, i as int));
            assert(decreases_to!(items@ => items@[i as int]));
        }
        match &items[i].value {
            Some(v) => walk_expr(v, c, out),
            None => {},
        }
        proof {
            assert(out@ =~= start + trace_contract_args(items@.subrange(0, i as int + 1), c));
        }
        i = i + 1;
    }
    proof {
        assert(items@.subrange(0, i as int) =~= items@);
    }
}

fn walk_asm<'a>(a: &'a AsmBlock, c: Ctx<'a>, out: &mut Vec<Event<'a>>)
    ensures
        final(out)@ == old(out)@ + trace_asm(a, c),
{
    let ghost start = out@;
    out.push(Event::AsmBlock(c, a));
    let ghost head = out@;
    let mut i: usize = 0;
    while i < a.instructions.len()
        invariant
            i <= a.instructions@.len(),
            out@ == head + trace_asm_instructions(a, a.instructions@.subrange(0, i as int), c),
        decreases a.instructions@.len() - i,
    {
        proof {
            assert(a.instructions@.subrange(0, i as int + 1).drop_last() =~= a.instructions@.subrange(0, i as int));
        }
        out.push(Event::AsmInstruction(c, a, &a.instructions[i]));
        proof {
            assert(out@ =~= head + trace_asm_instructions(a, a.instructions@.subrange(0, i as int + 1), c));
        }
        i = i + 1;
    }
    out.push(Event::LeaveAsmBlock(c, a));
    proof {
        assert(a.instructions@.subrange(0, i as int) =~= a.instructions@);
        assert(out@ =~= start + trace_asm(a, c));
    }
}

fn walk_if<'a>(e: &'a Expr, i: &'a IfExpr, c: Ctx<'a>, out: &mut Vec<Event<'a>>)
    ensures
        final(out)@ == old(out)@ + trace_if(e, i, c),
    decreases i,
{
    let ghost start = out@;
    out.push(Event::If(c, e, i));
    match &i.condition {
        IfCondition::Expr(cond) => walk_expr(cond, c, out),
        IfCondition::Let { rhs, .. } => walk_expr(rhs, c, out),
    }
    walk_block(&i.then_block, c, out);
    match &i.else_opt {
        Some(ElseBranch::ElseIf(next)) => walk_if(e, next, c, out),
        Some(ElseBranch::Else(b)) => walk_block(b, c, out),
        None => {},
    }
    out.push(Event::LeaveIf(c, e, i));
    proof {
        assert(out@ =~= start + trace_if(e, i, c));
    }
}

fn walk_branches<'a>(items: &'a Vec<MatchBranch>, c: Ctx<'a>, out: &mut Vec<Event<'a>>)
    ensures
        final(out)@ == old(out)@ + trace_branches(items@, c),
    decreases items@,
{
    let ghost start = out@;
    let mut i: usize = 0;
    while i < items.len()
        invariant
            i <= items@.len(),
            out@ == start + trace_branches(items@.subrange(0, i as int), c),
        decreases items@.len() - i,
    {
        proof {
            assert(items@.subrange(0, i as int + 1).drop_last() =~= items@.subrange(0, i as int));
            assert(decreases_to!(items@ => items@[i as int]));
        }
        match &items[i].kind {
            MatchBranchKind::Block(b) => walk_block(b, c, out),
            MatchBranchKind::Expr(x) => walk_expr(x, c, out),
        }
        proof {
            assert(out@ =~= start + trace_branches(items@.subrange(0, i as int + 1), c));
        }
        i = i + 1;
    }
    proof {
        assert(items@.subrange(0, i as int) =~= items@);
    }
}

fn walk_block<'a>(b: &'a Block, c: Ctx<'a>, out: &mut Vec<Event<'a>>)
    ensures
        final(out)@ == old(out)@ + trace_block(b, c),
    decreases b,
{
    let ghost start = out@;
    out.push(Event::Block(c, b));
    walk_statements(&b.statements, c, out);
    match &b.final_expr {
        Some(x) => walk_expr(x, c, out),
        None => {},
    }
    out.push(Event::LeaveBlock(c, b));
    proof {
        assert(out@ =~= start + trace_block(b, c));
    }
}

fn walk_statements<'a>(items: &'a Vec<Statement>, c: Ctx<'a>, out: &mut Vec<Event<'a>>)
    ensures
        final(out)@ == old(out)@ + trace_statements(items@, c),
    decreases items@,
{
    let ghost start = out@;
    let mut i: usize = 0;
    while i < items.len()
        invariant
            i <= items@.len(),
            out@ == start + trace_statements(items@.subrange(0, i as int), c),
        decreases items@.len() - i,
    {
        proof {
            assert(items@.subrange(0, i as int + 1).drop_last() =~= items@.subrange(0, i as int));
            assert(decreases_to!(items@ => items@[i as int]));
        }
        walk_statement(&items[i], c, out);
        proof {
            assert(out@ =~= start + trace_statements(items@.subrange(0, i as int + 1), c));
        }
        i = i + 1;
    }
    proof {
        assert(items@.subrange(0, i as int) =~= items@);
    }
}

fn walk_statement<'a>(s: &'a Statement, c: Ctx<'a>, out: &mut Vec<Event<'a>>)
    ensures
        final(out)@ == old(out)@ + trace_statement(s, c),
    decreases s,
{
    let ghost start = out@;
    let sc = Ctx { statement: Some(s), ..c };
    out.push(Event::Statement(sc, s));
    match &s.kind {
        StatementKind::Let(l) => {
            out.push(Event::StatementLet(sc, l));
            walk_expr(&l.expr, sc, out);
        },
        StatementKind::Item(it) => walk_item(it, sc, out),
        StatementKind::Expr { expr, .. } => walk_expr(expr, sc, out),
        StatementKind::Error => {},
    }
    out.push(Event::LeaveStatement(sc, s));
    proof {
        assert(out@ =~= start + trace_statement(s, c));
    }
}

fn walk_fn<'a>(f: &'a ItemFn, fc: Ctx<'a>, out: &mut Vec<Event<'a>>)
    ensures
        final(out)@ == old(out)@ + trace_fn(f, fc),
    decreases f,
{
    let ghost start = out@;
    out.push(Event::Fn(fc, f));
    walk_block(&f.body, fc, out);
    out.push(Event::LeaveFn(fc, f));
    proof {
        assert(out@ =~= start + trace_fn(f, fc));
    }
}

fn walk_const<'a>(k: &'a ItemConst, c: Ctx<'a>, out: &mut Vec<Event<'a>>)
    ensures
        final(out)@ == old(out)@ + trace_const(k, c),
    decreases k,
{
    let ghost start = out@;
    match &k.expr {
        Some(x) => walk_expr(x, Ctx { in_const: true, ..c }, out),
        None => {},
    }
    proof {
        assert(out@ =~= start + trace_const(k, c));
    }
}

fn walk_impl_items<'a>(i: &'a ItemImpl, items: &'a Vec<ImplItem>, out: &mut Vec<Event<'a>>)
    ensures
        final(out)@ == old(out)@ + trace_impl_items(i, items@),
    decreases items@,
{
    let ghost start = out@;
    let mut k: usize = 0;
    while k < items.len()
        invariant
            k <= items@.len(),
            out@ == start + trace_impl_items(i, items@.subrange(0, k as int)),
        decreases items@.len() - k,
    {
        proof {
            assert(items@.subrange(0, k as int + 1).drop_last() =~= items@.subrange(0, k as int));
            assert(decreases_to!(items@ => items@[k as int]));
        }
        let it = &items[k];
        match &it.kind {
            ImplItemKind::Fn(f) => walk_fn(f, Ctx {
                item: ItemRef::Fn(f), item_impl: Some(i), item_fn: Some(f), fn_attributes: Some(&it.attributes),
                statement: None, in_const: false,
            }, out),
            ImplItemKind::Const(kc) => walk_const(kc, Ctx {
                item: ItemRef::Const(kc), item_impl: Some(i), item_fn: None, fn_attributes: None, statement: None, in_const: false,
            }, out),
            ImplItemKind::Type(_) => {},
        }
        proof {
            assert(out@ =~= start + trace_impl_items(i, items@.subrange(0, k as int + 1)));
        }
        k = k + 1;
    }
    proof {
        assert(items@.subrange(0, k as int) =~= items@);
    }
}

fn walk_storage_fields<'a>(item: &'a ItemKind, items: &'a Vec<AnnotatedField<StorageField>>, out: &mut Vec<Event<'a>>)
    ensures
        final(out)@ == old(out)@ + trace_storage_fields(item, items@),
    decreases items@,
{
    let ghost start = out@;
    let mut k: usize = 0;
    while k < items.len()
        invariant
            k <= items@.len(),
            out@ == start + trace_storage_fields(item, items@.subrange(0, k as int)),
        decreases items@.len() - k,
    {
        proof {
            assert(items@.subrange(0, k as int + 1).drop_last() =~= items@.subrange(0, k as int));
            assert(decreases_to!(items@ => items@[k as int]));
        }
        let top = Ctx { item: ItemRef::Kind(item), item_impl: None, item_fn: None, fn_attributes: None, statement: None, in_const: false };
        out.push(Event::StorageField(top, &items[k].value));
        walk_expr(&items[k].value.initializer, Ctx { in_const: true, ..top }, out);
        proof {
            assert(out@ =~= start + trace_storage_fields(item, items@.subrange(0, k as int + 1)));
        }
        k = k + 1;
    }
    proof {
        assert(items@.subrange(0, k as int) =~= items@);
    }
}

fn walk_configurable_fields<'a>(item: &'a ItemKind, items: &'a Vec<AnnotatedField<ConfigurableField>>, out: &mut Vec<Event<'a>>)
    ensures
        final(out)@ == old(out)@ + trace_configurable_fields(item, items@),
    decreases items@,
{
    let ghost start = out@;
    let mut k: usize = 0;
    while k < items.len()
        invariant
            k <= items@.len(),
            out@ == start + trace_configurable_fields(item, items@.subrange(0, k as int)),
        decreases items@.len() - k,
    {
        proof {
            assert(items@.subrange(0, k as int + 1).drop_last() =~= items@.subrange(0, k as int));
            assert(decreases_to!(items@ => items@[k as int]));
        }
        let top = Ctx { item: ItemRef::Kind(item), item_impl: None, item_fn: None, fn_attributes: None, statement: None, in_const: false };
        out.push(Event::ConfigurableField(top, &items[k].value));
        walk_expr(&items[k].value.initializer, Ctx { in_const: true, ..top }, out);
        proof {
            assert(out@ =~= start + trace_configurable_fields(item, items@.subrange(0, k as int + 1)));
        }
        k = k + 1;
    }
    proof {
        assert(items@.subrange(0, k as int) =~= items@);
    }
}

fn walk_item<'a>(item: &'a Item, outer: Ctx<'a>, out: &mut Vec<Event<'a>>)
    ensures
        final(out)@ == old(out)@ + trace_item(item, outer),
    decreases item,
{
    let ghost start = out@;
    let ic = Ctx { item: ItemRef::Kind(&item.kind), ..outer };
    out.push(Event::Item(ic, item));
    match &item.kind {
        ItemKind::Use(u) => out.push(Event::Use(ic, u)),
        ItemKind::Fn(f) => walk_fn(f, Ctx {
            item: ItemRef::Kind(&item.kind), item_impl: None, item_fn: Some(f), fn_attributes: Some(&item.attributes),
            statement: None, in_const: false,
        }, out),
        ItemKind::Impl(i) => walk_impl_items(i, &i.contents, out),
        ItemKind::Const(k) => walk_const(k, Ctx { item_impl: None, ..ic }, out),
        ItemKind::Storage { fields, .. } => {
            out.push(Event::Storage(ic, fields));
            walk_storage_fields(&item.kind, fields, out);
        },
        ItemKind::Configurable { fields, .. } => {
            out.push(Event::Configurable(ic, fields));
            walk_configurable_fields(&item.kind, fields, out);
        },
        _ => {},
    }
    out.push(Event::LeaveItem(ic, item));
    proof {
        assert(out@ =~= start + trace_item(item, outer));
    }
}

/// The visit events of a module, in the order of the walk.
pub fn module_events<'a>(m: &'a Module) -> (r: Vec<Event<'a>>)
    ensures
        r@ == trace_module(m),
{
    let mut out: Vec<Event<'a>> = Vec::new();
    out.push(Event::Module(m));
    let mut k: usize = 0;
    while k < m.items.len()
        invariant
            k <= m.items@.len(),
            out@ == seq![Event::Module(m)] + trace_items(m.items@.subrange(0, k as int)),
        decreases m.items@.len() - k,
    {
        proof {
            assert(m.items@.subrange(0, k as int + 1).drop_last() =~= m.items@.subrange(0, k as int));
        }
        let it = &m.items[k];
        walk_item(it, Ctx { item: ItemRef::Kind(&it.kind), item_impl: None, item_fn: None, fn_attributes: None, statement: None, in_const: false }, &mut out);
        proof {
            assert(out@ =~= seq![Event::Module(m)] + trace_items(m.items@.subrange(0, k as int + 1)));
        }
        k = k + 1;
    }
    out.push(Event::LeaveModule(m));
    proof {
        assert(m.items@.subrange(0, k as int) =~= m.items@);
        assert(out@ =~= trace_module(m));
    }
    out
}

} // verus!
