//! Where an expression reads storage, and the spans of the names it mentions.
use vstd::prelude::*;
use crate::ast::{Block, ContractArg, ElseBranch, Expr, ExprKind, ExprStructField, IfCondition, IfExpr, MatchBranch, MatchBranchKind,
    Span, Statement, StatementKind};
use crate::text::str_eq;
use crate::utils::{expr_idents, fold_expr_idents};

verus! {

/// The first of two results that is present.
pub open spec fn first_some(a: Option<Expr>, b: Option<Expr>) -> Option<Expr> {
    if a is Some { a } else { b }
}

/// The first storage access in an expression, in the order the expression is read: a method
/// call whose receiver path starts with `storage` and has at least three names.
pub open spec fn storage_access(e: Expr) -> Option<Expr>
    decreases e,
{
    match e.kind {
        ExprKind::AbiCast { address, .. } => storage_access(*address),
        ExprKind::Struct { fields, .. } => storage_access_fields(fields@),
        ExprKind::Tuple(items) => storage_access_exprs(items@),
        ExprKind::Parens(inner) => storage_access(*inner),
        ExprKind::Block(b) => storage_access_block(b),
        ExprKind::Array(items) => storage_access_exprs(items@),
        ExprKind::ArrayRepeat { value, length } => first_some(storage_access(*value), storage_access(*length)),
        ExprKind::Return(Some(inner)) => storage_access(*inner),
        ExprKind::If(ifx) => storage_access_if(*ifx),
        ExprKind::Match { value, branches } => first_some(storage_access(*value), storage_access_branches(branches@)),
        ExprKind::While { condition, body } => first_some(storage_access(*condition), storage_access_block(body)),
        ExprKind::For { iterator, body, .. } => first_some(storage_access(*iterator), storage_access_block(body)),
        ExprKind::FuncApp { func, args, .. } => first_some(storage_access(*func), storage_access_exprs(args@)),
        ExprKind::Index { target, arg } => first_some(storage_access(*target), storage_access(*arg)),
        ExprKind::MethodCall { target, contract_args, args, .. } => {
            let ids = expr_idents(e);
            if ids.len() >= 3 && ids[0].span.text@ == "storage"@ {
                Some(e)
            } else {
                first_some(storage_access(*target), first_some(storage_access_contract_args(contract_args@),
                    storage_access_exprs(args@)))
            }
        },
        ExprKind::FieldProjection { target, .. } => storage_access(*target),
        ExprKind::TupleFieldProjection { target, .. } => storage_access(*target),
        ExprKind::Ref(inner) => storage_access(*inner),
        ExprKind::Deref(inner) => storage_access(*inner),
        ExprKind::Not(inner) => storage_access(*inner),
        ExprKind::Binary { lhs, rhs, .. } => first_some(storage_access(*lhs), storage_access(*rhs)),
        ExprKind::Reassignment { value, .. } => storage_access(*value),
        _ => None,
    }
}

/// The first storage access among expressions.
pub open spec fn storage_access_exprs(s: Seq<Expr>) -> Option<Expr>
    decreases s,
{
    if s.len() == 0 { None } else { first_some(storage_access_exprs(s.drop_last()), storage_access(s.last())) }
}

/// The first storage access among the values of struct fields.
pub open spec fn storage_access_fields(s: Seq<ExprStructField>) -> Option<Expr>
    decreases s,
{
    if s.len() == 0 {
        None
    } else {
        first_some(storage_access_fields(s.drop_last()), match s.last().value {
            Some(v) => storage_access(*v),
            None => None,
        })
    }
}

/// The first storage access among the values of contract arguments.
pub open spec fn storage_access_contract_args(s: Seq<ContractArg>) -> Option<Expr>
    decreases s,
{
    if s.len() == 0 {
        None
    } else {
        first_some(storage_access_contract_args(s.drop_last()), match s.last().value {
            Some(v) => storage_access(*v),
            None => None,
        })
    }
}

/// The first storage access in a statement.
pub open spec fn storage_access_statement(s: Statement) -> Option<Expr>
    decreases s,
{
    match s.kind {
        StatementKind::Let(l) => storage_access(l.expr),
        StatementKind::Expr { expr, .. } => storage_access(expr),
        _ => None,
    }
}

/// The first storage access among statements.
pub open spec fn storage_access_statements(s: Seq<Statement>) -> Option<Expr>
    decreases s,
{
    if s.len() == 0 { None } else { first_some(storage_access_statements(s.drop_last()), storage_access_statement(s.last())) }
}

/// The first storage access in a block.
pub open spec fn storage_access_block(b: Block) -> Option<Expr>
    decreases b,
{
    first_some(storage_access_statements(b.statements@), match b.final_expr {
        Some(x) => storage_access(*x),
        None => None,
    })
}

/// The first storage access in an `if` expression and the `else` parts that follow it.
pub open spec fn storage_access_if(i: IfExpr) -> Option<Expr>
    decreases i,
{
    first_some(match i.condition {
        IfCondition::Expr(c) => storage_access(*c),
        IfCondition::Let { rhs, .. } => storage_access(*rhs),
    }, first_some(storage_access_block(i.then_block), match i.else_opt {
        Some(ElseBranch::ElseIf(next)) => storage_access_if(*next),
        Some(ElseBranch::Else(b)) => storage_access_block(b),
        None => None,
    }))
}

/// The first storage access among match branches.
pub open spec fn storage_access_branches(s: Seq<MatchBranch>) -> Option<Expr>
    decreases s,
{
    if s.len() == 0 {
        None
    } else {
        first_some(storage_access_branches(s.drop_last()), match s.last().kind {
            MatchBranchKind::Block(b) => storage_access_block(b),
            MatchBranchKind::Expr(x) => storage_access(*x),
        })
    }
}

/// A method call whose receiver path starts with `storage` and has at least three names.
pub open spec fn is_storage_call(x: Expr) -> bool {
    x.kind is MethodCall && expr_idents(x).len() >= 3 && expr_idents(x)[0].span.text@ == "storage"@
}

/// What the search for a storage access finds is a storage call: a method call whose receiver
/// path starts with `storage` and has at least three names.
pub proof fn law_storage_access_is_storage_call(e: Expr)
    ensures
        storage_access(e) matches Some(x) ==> is_storage_call(x),
    decreases e,
{
    match e.kind {
        ExprKind::AbiCast { address, .. } => law_storage_access_is_storage_call(*address),
        ExprKind::Struct { fields, .. } => lemma_fields_storage_call(fields@),
        ExprKind::Tuple(items) => lemma_exprs_storage_call(items@),
        ExprKind::Parens(inner) => law_storage_access_is_storage_call(*inner),
        ExprKind::Block(b) => lemma_block_storage_call(b),
        ExprKind::Array(items) => lemma_exprs_storage_call(items@),
        ExprKind::ArrayRepeat { value, length } => {
            law_storage_access_is_storage_call(*value);
            law_storage_access_is_storage_call(*length);
        },
        ExprKind::Return(Some(inner)) => law_storage_access_is_storage_call(*inner),
        ExprKind::If(ifx) => lemma_if_storage_call(*ifx),
        ExprKind::Match { value, branches } => {
            law_storage_access_is_storage_call(*value);
            lemma_branches_storage_call(branches@);
        },
        ExprKind::While { condition, body } => {
            law_storage_access_is_storage_call(*condition);
            lemma_block_storage_call(body);
        },
        ExprKind::For { iterator, body, .. } => {
            law_storage_access_is_storage_call(*iterator);
            lemma_block_storage_call(body);
        },
        ExprKind::FuncApp { func, args, .. } => {
            law_storage_access_is_storage_call(*func);
            lemma_exprs_storage_call(args@);
        },
        ExprKind::Index { target, arg } => {
            law_storage_access_is_storage_call(*target);
            law_storage_access_is_storage_call(*arg);
        },
        ExprKind::MethodCall { target, contract_args, args, .. } => {
            law_storage_access_is_storage_call(*target);
            lemma_contract_args_storage_call(contract_args@);
            lemma_exprs_storage_call(args@);
        },
        ExprKind::FieldProjection { target, .. } => law_storage_access_is_storage_call(*target),
        ExprKind::TupleFieldProjection { target, .. } => law_storage_access_is_storage_call(*target),
        ExprKind::Ref(inner) => law_storage_access_is_storage_call(*inner),
        ExprKind::Deref(inner) => law_storage_access_is_storage_call(*inner),
        ExprKind::Not(inner) => law_storage_access_is_storage_call(*inner),
        ExprKind::Binary { lhs, rhs, .. } => {
            law_storage_access_is_storage_call(*lhs);
            law_storage_access_is_storage_call(*rhs);
        },
        ExprKind::Reassignment { value, .. } => law_storage_access_is_storage_call(*value),
        _ => {},
    }
}

proof fn lemma_exprs_storage_call(s: Seq<Expr>)
    ensures
        storage_access_exprs(s) matches Some(x) ==> is_storage_call(x),
    decreases s,
{
    if s.len() > 0 {
        lemma_exprs_storage_call(s.drop_last());
        law_storage_access_is_storage_call(s.last());
    }
}

proof fn lemma_fields_storage_call(s: Seq<ExprStructField>)
    ensures
        storage_access_fields(s) matches Some(x) ==> is_storage_call(x),
    decreases s,
{
    if s.len() > 0 {
        lemma_fields_storage_call(s.drop_last());
        match s.last().value {
            Some(v) => law_storage_access_is_storage_call(*v),
            None => {},
        }
    }
}

proof fn lemma_contract_args_storage_call(s: Seq<ContractArg>)
    ensures
        storage_access_contract_args(s) matches Some(x) ==> is_storage_call(x),
    decreases s,
{
    if s.len() > 0 {
        lemma_contract_args_storage_call(s.drop_last());
        match s.last().value {
            Some(v) => law_storage_access_is_storage_call(*v),
            None => {},
        }
    }
}

proof fn lemma_statement_storage_call(s: Statement)
    ensures
        storage_access_statement(s) matches Some(x) ==> is_storage_call(x),
    decreases s,
{
    match s.kind {
        StatementKind::Let(l) => law_storage_access_is_storage_call(l.expr),
        StatementKind::Expr { expr, .. } => law_storage_access_is_storage_call(expr),
        _ => {},
    }
}

proof fn lemma_statements_storage_call(s: Seq<Statement>)
    ensures
        storage_access_statements(s) matches Some(x) ==> is_storage_call(x),
    decreases s,
{
    if s.len() > 0 {
        lemma_statements_storage_call(s.drop_last());
        lemma_statement_storage_call(s.last());
    }
}

proof fn lemma_block_storage_call(b: Block)
    ensures
        storage_access_block(b) matches Some(x) ==> is_storage_call(x),
    decreases b,
{
    lemma_statements_storage_call(b.statements@);
    match b.final_expr {
        Some(x) => law_storage_access_is_storage_call(*x),
        None => {},
    }
}

proof fn lemma_if_storage_call(i: IfExpr)
    ensures
        storage_access_if(i) matches Some(x) ==> is_storage_call(x),
    decreases i,
{
    match i.condition {
        IfCondition::Expr(c) => law_storage_access_is_storage_call(*c),
        IfCondition::Let { rhs, .. } => law_storage_access_is_storage_call(*rhs),
    }
    lemma_block_storage_call(i.then_block);
    match i.else_opt {
        Some(ElseBranch::ElseIf(next)) => lemma_if_storage_call(*next),
        Some(ElseBranch::Else(b)) => lemma_block_storage_call(b),
        None => {},
    }
}

proof fn lemma_branches_storage_call(s: Seq<MatchBranch>)
    ensures
        storage_access_branches(s) matches Some(x) ==> is_storage_call(x),
    decreases s,
{
    if s.len() > 0 {
        lemma_branches_storage_call(s.drop_last());
        match s.last().kind {
            MatchBranchKind::Block(b) => lemma_block_storage_call(b),
            MatchBranchKind::Expr(x) => law_storage_access_is_storage_call(*x),
        }
    }
}

/// The expressions that the search for a storage access reads, in the order it reads them: each
/// expression before the expressions inside it, these from left to right. The search does not
/// read into `asm` blocks, items declared in blocks, the targets of assignments or the value of
/// a `panic`.
pub open spec fn read_order(e: Expr) -> Seq<Expr>
    decreases e,
{
    seq![e] + match e.kind {
        ExprKind::AbiCast { address, .. } => read_order(*address),
        ExprKind::Struct { fields, .. } => read_order_fields(fields@),
        ExprKind::Tuple(items) => read_order_exprs(items@),
        ExprKind::Parens(inner) => read_order(*inner),
        ExprKind::Block(b) => read_order_block(b),
        ExprKind::Array(items) => read_order_exprs(items@),
        ExprKind::ArrayRepeat { value, length } => read_order(*value) + read_order(*length),
        ExprKind::Return(Some(inner)) => read_order(*inner),
        ExprKind::If(ifx) => read_order_if(*ifx),
        ExprKind::Match { value, branches } => read_order(*value) + read_order_branches(branches@),
        ExprKind::While { condition, body } => read_order(*condition) + read_order_block(body),
        ExprKind::For { iterator, body, .. } => read_order(*iterator) + read_order_block(body),
        ExprKind::FuncApp { func, args, .. } => read_order(*func) + read_order_exprs(args@),
        ExprKind::Index { target, arg } => read_order(*target) + read_order(*arg),
        ExprKind::MethodCall { target, contract_args, args, .. } => read_order(*target)
            + read_order_contract_args(contract_args@) + read_order_exprs(args@),
        ExprKind::FieldProjection { target, .. } => read_order(*target),
        ExprKind::TupleFieldProjection { target, .. } => read_order(*target),
        ExprKind::Ref(inner) => read_order(*inner),
        ExprKind::Deref(inner) => read_order(*inner),
        ExprKind::Not(inner) => read_order(*inner),
        ExprKind::Binary { lhs, rhs, .. } => read_order(*lhs) + read_order(*rhs),
        ExprKind::Reassignment { value, .. } => read_order(*value),
        _ => Seq::empty(),
    }
}

/// The expressions read in a list of expressions, in order.
pub open spec fn read_order_exprs(s: Seq<Expr>) -> Seq<Expr>
    decreases s,
{
    if s.len() == 0 { Seq::empty() } else { read_order_exprs(s.drop_last()) + read_order(s.last()) }
}

/// The expressions read in the values of struct fields, in order.
pub open spec fn read_order_fields(s: Seq<ExprStructField>) -> Seq<Expr>
    decreases s,
{
    if s.len() == 0 {
        Seq::empty()
    } else {
        read_order_fields(s.drop_last()) + match s.last().value {
            Some(v) => read_order(*v),
            None => Seq::empty(),
        }
    }
}

/// The expressions read in the values of contract arguments, in order.
pub open spec fn read_order_contract_args(s: Seq<ContractArg>) -> Seq<Expr>
    decreases s,
{
    if s.len() == 0 {
        Seq::empty()
    } else {
        read_order_contract_args(s.drop_last()) + match s.last().value {
            Some(v) => read_order(*v),
            None => Seq::empty(),
        }
    }
}

/// The expressions read in a statement.
pub open spec fn read_order_statement(s: Statement) -> Seq<Expr>
    decreases s,
{
    match s.kind {
        StatementKind::Let(l) => read_order(l.expr),
        StatementKind::Expr { expr, .. } => read_order(expr),
        _ => Seq::empty(),
    }
}

/// The expressions read in a list of statements, in order.
pub open spec fn read_order_statements(s: Seq<Statement>) -> Seq<Expr>
    decreases s,
{
    if s.len() == 0 { Seq::empty() } else { read_order_statements(s.drop_last()) + read_order_statement(s.last()) }
}

/// The expressions read in a block: its statements, then its final expression.
pub open spec fn read_order_block(b: Block) -> Seq<Expr>
    decreases b,
{
    read_order_statements(b.statements@) + match b.final_expr {
        Some(x) => read_order(*x),
        None => Seq::empty(),
    }
}

/// The expressions read in an `if` expression: its condition, its block, then its `else` part.
pub open spec fn read_order_if(i: IfExpr) -> Seq<Expr>
    decreases i,
{
    let head = match i.condition {
        IfCondition::Expr(c) => read_order(*c),
        IfCondition::Let { rhs, .. } => read_order(*rhs),
    };
    let tail = match i.else_opt {
        Some(ElseBranch::ElseIf(next)) => read_order_if(*next),
        Some(ElseBranch::Else(b)) => read_order_block(b),
        None => Seq::empty(),
    };
    head + read_order_block(i.then_block) + tail
}

/// The expressions read in match branches, in order.
pub open spec fn read_order_branches(s: Seq<MatchBranch>) -> Seq<Expr>
    decreases s,
{
    if s.len() == 0 {
        Seq::empty()
    } else {
        read_order_branches(s.drop_last()) + match s.last().kind {
            MatchBranchKind::Block(b) => read_order_block(b),
            MatchBranchKind::Expr(x) => read_order(*x),
        }
    }
}

/// The first storage call of a list of expressions.
pub open spec fn first_storage_call(s: Seq<Expr>) -> Option<Expr>
    decreases s.len(),
{
    if s.len() == 0 {
        None
    } else if is_storage_call(s[0]) {
        Some(s[0])
    } else {
        first_storage_call(s.drop_first())
    }
}

proof fn lemma_first_storage_call_concat(a: Seq<Expr>, b: Seq<Expr>)
    ensures
        first_storage_call(a + b) == first_some(first_storage_call(a), first_storage_call(b)),
    decreases a.len(),
{
    if a.len() == 0 {
        assert(a + b =~= b);
    } else {
        assert((a + b)[0] == a[0]);
        if !is_storage_call(a[0]) {
            assert((a + b).drop_first() =~= a.drop_first() + b);
            lemma_first_storage_call_concat(a.drop_first(), b);
        }
    }
}

/// The search reads the node itself first, then what the rest of its list of reads holds.
proof fn lemma_first_storage_call_node(e: Expr, rest: Seq<Expr>)
    ensures
        first_storage_call(seq![e] + rest) == if is_storage_call(e) { Some(e) } else { first_storage_call(rest) },
{
    assert((seq![e] + rest)[0] == e);
    assert((seq![e] + rest).drop_first() =~= rest);
}

/// The search for a storage access finds the first storage call in the order it reads an
/// expression: the expression before the expressions inside it, these from left to right, not
/// reading into `asm` blocks, items declared in blocks, the targets of assignments or the value
/// of a `panic`; it finds none when there is no storage call in that order.
pub proof fn law_storage_access_first_in_read_order(e: Expr)
    ensures
        storage_access(e) == first_storage_call(read_order(e)),
    decreases e,
{
    let inside = match e.kind {
        ExprKind::AbiCast { address, .. } => read_order(*address),
        ExprKind::Struct { fields, .. } => read_order_fields(fields@),
        ExprKind::Tuple(items) => read_order_exprs(items@),
        ExprKind::Parens(inner) => read_order(*inner),
        ExprKind::Block(b) => read_order_block(b),
        ExprKind::Array(items) => read_order_exprs(items@),
        ExprKind::ArrayRepeat { value, length } => read_order(*value) + read_order(*length),
        ExprKind::Return(Some(inner)) => read_order(*inner),
        ExprKind::If(ifx) => read_order_if(*ifx),
        ExprKind::Match { value, branches } => read_order(*value) + read_order_branches(branches@),
        ExprKind::While { condition, body } => read_order(*condition) + read_order_block(body),
        ExprKind::For { iterator, body, .. } => read_order(*iterator) + read_order_block(body),
        ExprKind::FuncApp { func, args, .. } => read_order(*func) + read_order_exprs(args@),
        ExprKind::Index { target, arg } => read_order(*target) + read_order(*arg),
        ExprKind::MethodCall { target, contract_args, args, .. } => read_order(*target)
            + read_order_contract_args(contract_args@) + read_order_exprs(args@),
        ExprKind::FieldProjection { target, .. } => read_order(*target),
        ExprKind::TupleFieldProjection { target, .. } => read_order(*target),
        ExprKind::Ref(inner) => read_order(*inner),
        ExprKind::Deref(inner) => read_order(*inner),
        ExprKind::Not(inner) => read_order(*inner),
        ExprKind::Binary { lhs, rhs, .. } => read_order(*lhs) + read_order(*rhs),
        ExprKind::Reassignment { value, .. } => read_order(*value),
        _ => Seq::empty(),
    };
    assert(read_order(e) == seq![e] + inside);
    lemma_first_storage_call_node(e, inside);
    assert(!(e.kind is MethodCall) ==> !is_storage_call(e));
    match e.kind {
        ExprKind::AbiCast { address, .. } => law_storage_access_first_in_read_order(*address),
        ExprKind::Struct { fields, .. } => lemma_fields_read_order(fields@),
        ExprKind::Tuple(items) => lemma_exprs_read_order(items@),
        ExprKind::Parens(inner) => law_storage_access_first_in_read_order(*inner),
        ExprKind::Block(b) => lemma_block_read_order(b),
        ExprKind::Array(items) => lemma_exprs_read_order(items@),
        ExprKind::ArrayRepeat { value, length } => {
            law_storage_access_first_in_read_order(*value);
            law_storage_access_first_in_read_order(*length);
            lemma_first_storage_call_concat(read_order(*value), read_order(*length));
        },
        ExprKind::Return(Some(inner)) => law_storage_access_first_in_read_order(*inner),
        ExprKind::If(ifx) => lemma_if_read_order(*ifx),
        ExprKind::Match { value, branches } => {
            law_storage_access_first_in_read_order(*value);
            lemma_branches_read_order(branches@);
            lemma_first_storage_call_concat(read_order(*value), read_order_branches(branches@));
        },
        ExprKind::While { condition, body } => {
            law_storage_access_first_in_read_order(*condition);
            lemma_block_read_order(body);
            lemma_first_storage_call_concat(read_order(*condition), read_order_block(body));
        },
        ExprKind::For { iterator, body, .. } => {
            law_storage_access_first_in_read_order(*iterator);
            lemma_block_read_order(body);
            lemma_first_storage_call_concat(read_order(*iterator), read_order_block(body));
        },
        ExprKind::FuncApp { func, args, .. } => {
            law_storage_access_first_in_read_order(*func);
            lemma_exprs_read_order(args@);
            lemma_first_storage_call_concat(read_order(*func), read_order_exprs(args@));
        },
        ExprKind::Index { target, arg } => {
            law_storage_access_first_in_read_order(*target);
            law_storage_access_first_in_read_order(*arg);
            lemma_first_storage_call_concat(read_order(*target), read_order(*arg));
        },
        ExprKind::MethodCall { target, contract_args, args, .. } => {
            law_storage_access_first_in_read_order(*target);
            lemma_contract_args_read_order(contract_args@);
            lemma_exprs_read_order(args@);
            let a = read_order(*target);
            let b = read_order_contract_args(contract_args@);
            let c = read_order_exprs(args@);
            lemma_first_storage_call_concat(a + b, c);
            lemma_first_storage_call_concat(a, b);
        },
        ExprKind::FieldProjection { target, .. } => law_storage_access_first_in_read_order(*target),
        ExprKind::TupleFieldProjection { target, .. } => law_storage_access_first_in_read_order(*target),
        ExprKind::Ref(inner) => law_storage_access_first_in_read_order(*inner),
        ExprKind::Deref(inner) => law_storage_access_first_in_read_order(*inner),
        ExprKind::Not(inner) => law_storage_access_first_in_read_order(*inner),
        ExprKind::Binary { lhs, rhs, .. } => {
            law_storage_access_first_in_read_order(*lhs);
            law_storage_access_first_in_read_order(*rhs);
            lemma_first_storage_call_concat(read_order(*lhs), read_order(*rhs));
        },
        ExprKind::Reassignment { value, .. } => law_storage_access_first_in_read_order(*value),
        _ => {},
    }
}

proof fn lemma_exprs_read_order(s: Seq<Expr>)
    ensures
        storage_access_exprs(s) == first_storage_call(read_order_exprs(s)),
    decreases s,
{
    if s.len() > 0 {
        lemma_exprs_read_order(s.drop_last());
        law_storage_access_first_in_read_order(s.last());
        lemma_first_storage_call_concat(read_order_exprs(s.drop_last()), read_order(s.last()));
    }
}

proof fn lemma_fields_read_order(s: Seq<ExprStructField>)
    ensures
        storage_access_fields(s) == first_storage_call(read_order_fields(s)),
    decreases s,
{
    if s.len() > 0 {
        lemma_fields_read_order(s.drop_last());
        let tail = match s.last().value {
            Some(v) => read_order(*v),
            None => Seq::empty(),
        };
        match s.last().value {
            Some(v) => law_storage_access_first_in_read_order(*v),
            None => {},
        }
        lemma_first_storage_call_concat(read_order_fields(s.drop_last()), tail);
    }
}

proof fn lemma_contract_args_read_order(s: Seq<ContractArg>)
    ensures
        storage_access_contract_args(s) == first_storage_call(read_order_contract_args(s)),
    decreases s,
{
    if s.len() > 0 {
        lemma_contract_args_read_order(s.drop_last());
        let tail = match s.last().value {
            Some(v) => read_order(*v),
            None => Seq::empty(),
        };
        match s.last().value {
            Some(v) => law_storage_access_first_in_read_order(*v),
            None => {},
        }
        lemma_first_storage_call_concat(read_order_contract_args(s.drop_last()), tail);
    }
}

proof fn lemma_statement_read_order(s: Statement)
    ensures
        storage_access_statement(s) == first_storage_call(read_order_statement(s)),
    decreases s,
{
    match s.kind {
        StatementKind::Let(l) => law_storage_access_first_in_read_order(l.expr),
        StatementKind::Expr { expr, .. } => law_storage_access_first_in_read_order(expr),
        _ => {},
    }
}

proof fn lemma_statements_read_order(s: Seq<Statement>)
    ensures
        storage_access_statements(s) == first_storage_call(read_order_statements(s)),
    decreases s,
{
    if s.len() > 0 {
        lemma_statements_read_order(s.drop_last());
        lemma_statement_read_order(s.last());
        lemma_first_storage_call_concat(read_order_statements(s.drop_last()), read_order_statement(s.last()));
    }
}

proof fn lemma_block_read_order(b: Block)
    ensures
        storage_access_block(b) == first_storage_call(read_order_block(b)),
    decreases b,
{
    lemma_statements_read_order(b.statements@);
    let tail = match b.final_expr {
        Some(x) => read_order(*x),
        None => Seq::empty(),
    };
    match b.final_expr {
        Some(x) => law_storage_access_first_in_read_order(*x),
        None => {},
    }
    lemma_first_storage_call_concat(read_order_statements(b.statements@), tail);
}

proof fn lemma_if_read_order(i: IfExpr)
    ensures
        storage_access_if(i) == first_storage_call(read_order_if(i)),
    decreases i,
{
    let head = match i.condition {
        IfCondition::Expr(c) => read_order(*c),
        IfCondition::Let { rhs, .. } => read_order(*rhs),
    };
    let tail = match i.else_opt {
        Some(ElseBranch::ElseIf(next)) => read_order_if(*next),
        Some(ElseBranch::Else(b)) => read_order_block(b),
        None => Seq::empty(),
    };
    match i.condition {
        IfCondition::Expr(c) => law_storage_access_first_in_read_order(*c),
        IfCondition::Let { rhs, .. } => law_storage_access_first_in_read_order(*rhs),
    }
    lemma_block_read_order(i.then_block);
    match i.else_opt {
        Some(ElseBranch::ElseIf(next)) => lemma_if_read_order(*next),
        Some(ElseBranch::Else(b)) => lemma_block_read_order(b),
        None => {},
    }
    lemma_first_storage_call_concat(head + read_order_block(i.then_block), tail);
    lemma_first_storage_call_concat(head, read_order_block(i.then_block));
}

proof fn lemma_branches_read_order(s: Seq<MatchBranch>)
    ensures
        storage_access_branches(s) == first_storage_call(read_order_branches(s)),
    decreases s,
{
    if s.len() > 0 {
        lemma_branches_read_order(s.drop_last());
        let tail = match s.last().kind {
            MatchBranchKind::Block(b) => read_order_block(b),
            MatchBranchKind::Expr(x) => read_order(*x),
        };
        match s.last().kind {
            MatchBranchKind::Block(b) => lemma_block_read_order(b),
            MatchBranchKind::Expr(x) => law_storage_access_first_in_read_order(*x),
        }
        lemma_first_storage_call_concat(read_order_branches(s.drop_last()), tail);
    }
}

/// The value of an optional reference to an expression.
pub open spec fn opt_expr<'a>(r: Option<&'a Expr>) -> Option<Expr> {
    match r {
        Some(x) => Some(*x),
        None => None,
    }
}

/// The first storage access in an expression, in the order the expression is read.
pub fn find_storage_access_in_expr<'a>(e: &'a Expr) -> (r: Option<&'a Expr>)
    ensures
        opt_expr(r) == storage_access(*e),
    decreases e,
{
    match &e.kind {
        ExprKind::AbiCast { address, .. } => find_storage_access_in_expr(address),
        ExprKind::Struct { fields, .. } => find_in_fields(fields),
        ExprKind::Tuple(items) => find_in_exprs(items),
        ExprKind::Parens(inner) => find_storage_access_in_expr(inner),
        ExprKind::Block(b) => find_in_block(b),
        ExprKind::Array(items) => find_in_exprs(items),
        ExprKind::ArrayRepeat { value, length } => {
            let r = find_storage_access_in_expr(value);
            if r.is_some() { r } else { find_storage_access_in_expr(length) }
        },
        ExprKind::Return(Some(inner)) => find_storage_access_in_expr(inner),
        ExprKind::If(ifx) => find_in_if(ifx),
        ExprKind::Match { value, branches } => {
            let r = find_storage_access_in_expr(value);
            if r.is_some() { r } else { find_in_branches(branches) }
        },
        ExprKind::While { condition, body } => {
            let r = find_storage_access_in_expr(condition);
            if r.is_some() { r } else { find_in_block(body) }
        },
        ExprKind::For { iterator, body, .. } => {
            let r = find_storage_access_in_expr(iterator);
            if r.is_some() { r } else { find_in_block(body) }
        },
        ExprKind::FuncApp { func, args, .. } => {
            let r = find_storage_access_in_expr(func);
            if r.is_some() { r } else { find_in_exprs(args) }
        },
        ExprKind::Index { target, arg } => {
            let r = find_storage_access_in_expr(target);
            if r.is_some() { r } else { find_storage_access_in_expr(arg) }
        },
        ExprKind::MethodCall { target, contract_args, args, .. } => {
            let ids = fold_expr_idents(e);
            if ids.len() >= 3 && str_eq(ids[0].span.text.as_str(), "storage") {
                return Some(e);
            }
            let r = find_storage_access_in_expr(target);
            if r.is_some() {
                return r;
            }
            let r = find_in_contract_args(contract_args);
            if r.is_some() { r } else { find_in_exprs(args) }
        },
        ExprKind::FieldProjection { target, .. } => find_storage_access_in_expr(target),
        ExprKind::TupleFieldProjection { target, .. } => find_storage_access_in_expr(target),
        ExprKind::Ref(inner) => find_storage_access_in_expr(inner),
        ExprKind::Deref(inner) => find_storage_access_in_expr(inner),
        ExprKind::Not(inner) => find_storage_access_in_expr(inner),
        ExprKind::Binary { lhs, rhs, .. } => {
            let r = find_storage_access_in_expr(lhs);
            if r.is_some() { r } else { find_storage_access_in_expr(rhs) }
        },
        ExprKind::Reassignment { value, .. } => find_storage_access_in_expr(value),
        _ => None,
    }
}

fn find_in_exprs<'a>(items: &'a Vec<Expr>) -> (r: Option<&'a Expr>)
    ensures
        opt_expr(r) == storage_access_exprs(items@),
    decreases items@,
{
    let mut k: usize = 0;
    while k < items.len()
        invariant
            k <= items@.len(),
            storage_access_exprs(items@.take(k as int)) is None,
        decreases items@.len() - k,
    {
        proof {
            assert(items@.take(k + 1).drop_last() =~= items@.take(k as int));
            assert(decreases_to!(items@ => items@[k as int]));
        }
        let r = find_storage_access_in_expr(&items[k]);
        if r.is_some() {
            proof {
                lemma_first_some_prefix_exprs(items@, k as int);
            }
            return r;
        }
        k = k + 1;
    }
    proof {
        assert(items@.take(k as int) =~= items@);
    }
    None
}

/// Once a prefix holds a storage access, the whole sequence yields that one.
proof fn lemma_first_some_prefix_exprs(s: Seq<Expr>, k: int)
    requires
        0 <= k < s.len(),
        storage_access_exprs(s.take(k)) is None,
        storage_access(s[k]) is Some,
    ensures
        storage_access_exprs(s) == storage_access(s[k]),
    decreases s.len(),
{
    if s.len() == k + 1 {
        assert(s.drop_last() =~= s.take(k));
    } else {
        assert(s.drop_last().take(k) =~= s.take(k));
        lemma_first_some_prefix_exprs(s.drop_last(), k);
    }
}

fn find_in_fields<'a>(items: &'a Vec<ExprStructField>) -> (r: Option<&'a Expr>)
    ensures
        opt_expr(r) == storage_access_fields(items@),
    decreases items@,
{
    let mut k: usize = 0;
    while k < items.len()
        invariant
            k <= items@.len(),
            storage_access_fields(items@.take(k as int)) is None,
        decreases items@.len() - k,
    {
        proof {
            assert(items@.take(k + 1).drop_last() =~= items@.take(k as int));
            assert(decreases_to!(items@ => items@[k as int]));
        }
        match &items[k].value {
            Some(v) => {
                let r = find_storage_access_in_expr(v);
                if r.is_some() {
                    proof {
                        lemma_first_some_prefix_fields(items@, k as int);
                    }
                    return r;
                }
            },
            None => {},
        }
        k = k + 1;
    }
    proof {
        assert(items@.take(k as int) =~= items@);
    }
    None
}

proof fn lemma_first_some_prefix_fields(s: Seq<ExprStructField>, k: int)
    requires
        0 <= k < s.len(),
        storage_access_fields(s.take(k)) is None,
        (match s[k].value { Some(v) => storage_access(*v), None => None }) is Some,
    ensures
        storage_access_fields(s) == (match s[k].value { Some(v) => storage_access(*v), None => None }),
    decreases s.len(),
{
    if s.len() == k + 1 {
        assert(s.drop_last() =~= s.take(k));
    } else {
        assert(s.drop_last().take(k) =~= s.take(k));
        lemma_first_some_prefix_fields(s.drop_last(), k);
    }
}

fn find_in_contract_args<'a>(items: &'a Vec<ContractArg>) -> (r: Option<&'a Expr>)
    ensures
        opt_expr(r) == storage_access_contract_args(items@),
    decreases items@,
{
    let mut k: usize = 0;
    while k < items.len()
        invariant
            k <= items@.len(),
            storage_access_contract_args(items@.take(k as int)) is None,
        decreases items@.len() - k,
    {
        proof {
            assert(items@.take(k + 1).drop_last() =~= items@.take(k as int));
            assert(decreases_to!(items@ => items@[k as int]));
        }
        match &items[k].value {
            Some(v) => {
                let r = find_storage_access_in_expr(v);
                if r.is_some() {
                    proof {
                        lemma_first_some_prefix_contract_args(items@, k as int);
                    }
                    return r;
                }
            },
            None => {},
        }
        k = k + 1;
    }
    proof {
        assert(items@.take(k as int) =~= items@);
    }
    None
}

proof fn lemma_first_some_prefix_contract_args(s: Seq<ContractArg>, k: int)
    requires
        0 <= k < s.len(),
        storage_access_contract_args(s.take(k)) is None,
        (match s[k].value { Some(v) => storage_access(*v), None => None }) is Some,
    ensures
        storage_access_contract_args(s) == (match s[k].value { Some(v) => storage_access(*v), None => None }),
    decreases s.len(),
{
    if s.len() == k + 1 {
        assert(s.drop_last() =~= s.take(k));
    } else {
        assert(s.drop_last().take(k) =~= s.take(k));
        lemma_first_some_prefix_contract_args(s.drop_last(), k);
    }
}

fn find_in_statement<'a>(s: &'a Statement) -> (r: Option<&'a Expr>)
    ensures
        opt_expr(r) == storage_access_statement(*s),
    decreases s,
{
    match &s.kind {
        StatementKind::Let(l) => find_storage_access_in_expr(&l.expr),
        StatementKind::Expr { expr, .. } => find_storage_access_in_expr(expr),
        _ => None,
    }
}

proof fn lemma_first_some_prefix_statements(s: Seq<Statement>, k: int)
    requires
        0 <= k < s.len(),
        storage_access_statements(s.take(k)) is None,
        storage_access_statement(s[k]) is Some,
    ensures
        storage_access_statements(s) == storage_access_statement(s[k]),
    decreases s.len(),
{
    if s.len() == k + 1 {
        assert(s.drop_last() =~= s.take(k));
    } else {
        assert(s.drop_last().take(k) =~= s.take(k));
        lemma_first_some_prefix_statements(s.drop_last(), k);
    }
}

fn find_in_block<'a>(b: &'a Block) -> (r: Option<&'a Expr>)
    ensures
        opt_expr(r) == storage_access_block(*b),
    decreases b,
{
    let mut k: usize = 0;
    while k < b.statements.len()
        invariant
            k <= b.statements@.len(),
            storage_access_statements(b.statements@.take(k as int)) is None,
        decreases b.statements@.len() - k,
    {
        proof {
            assert(b.statements@.take(k + 1).drop_last() =~= b.statements@.take(k as int));
            assert(decreases_to!(b => b.statements));
            assert(decreases_to!(b.statements@ => b.statements@[k as int]));
        }
        let r = find_in_statement(&b.statements[k]);
        if r.is_some() {
            proof {
                lemma_first_some_prefix_statements(b.statements@, k as int);
            }
            return r;
        }
        k = k + 1;
    }
    proof {
        assert(b.statements@.take(k as int) =~= b.statements@);
    }
    match &b.final_expr {
        Some(x) => find_storage_access_in_expr(x),
        None => None,
    }
}

fn find_in_if<'a>(i: &'a IfExpr) -> (r: Option<&'a Expr>)
    ensures
        opt_expr(r) == storage_access_if(*i),
    decreases i,
{
    let r = match &i.condition {
        IfCondition::Expr(c) => find_storage_access_in_expr(c),
        IfCondition::Let { rhs, .. } => find_storage_access_in_expr(rhs),
    };
    if r.is_some() {
        return r;
    }
    let r = find_in_block(&i.then_block);
    if r.is_some() {
        return r;
    }
    match &i.else_opt {
        Some(ElseBranch::ElseIf(next)) => find_in_if(next),
        Some(ElseBranch::Else(b)) => find_in_block(b),
        None => None,
    }
}

proof fn lemma_first_some_prefix_branches(s: Seq<MatchBranch>, k: int)
    requires
        0 <= k < s.len(),
        storage_access_branches(s.take(k)) is None,
        (match s[k].kind { MatchBranchKind::Block(b) => storage_access_block(b), MatchBranchKind::Expr(x) => storage_access(*x) }) is Some,
    ensures
        storage_access_branches(s) == (match s[k].kind {
            MatchBranchKind::Block(b) => storage_access_block(b),
            MatchBranchKind::Expr(x) => storage_access(*x),
        }),
    decreases s.len(),
{
    if s.len() == k + 1 {
        assert(s.drop_last() =~= s.take(k));
    } else {
        assert(s.drop_last().take(k) =~= s.take(k));
        lemma_first_some_prefix_branches(s.drop_last(), k);
    }
}

fn find_in_branches<'a>(items: &'a Vec<MatchBranch>) -> (r: Option<&'a Expr>)
    ensures
        opt_expr(r) == storage_access_branches(items@),
    decreases items@,
{
    let mut k: usize = 0;
    while k < items.len()
        invariant
            k <= items@.len(),
            storage_access_branches(items@.take(k as int)) is None,
        decreases items@.len() - k,
    {
        proof {
            assert(items@.take(k + 1).drop_last() =~= items@.take(k as int));
            assert(decreases_to!(items@ => items@[k as int]));
        }
        let r = match &items[k].kind {
            MatchBranchKind::Block(b) => find_in_block(b),
            MatchBranchKind::Expr(x) => find_storage_access_in_expr(x),
        };
        if r.is_some() {
            proof {
                lemma_first_some_prefix_branches(items@, k as int);
            }
            return r;
        }
        k = k + 1;
    }
    proof {
        assert(items@.take(k as int) =~= items@);
    }
    None
}


/// The spans of the names an expression mentions: paths, field projections (each with the
/// names below it), shorthand struct fields and reassignment targets.
pub open spec fn ident_spans(e: Expr) -> Seq<Span>
    decreases e,
{
    match e.kind {
        ExprKind::Path(_) => seq![e.span],
        ExprKind::AbiCast { address, .. } => ident_spans(*address),
        ExprKind::Struct { fields, .. } => ident_spans_fields(fields@),
        ExprKind::Tuple(items) => ident_spans_exprs(items@),
        ExprKind::Parens(inner) => ident_spans(*inner),
        ExprKind::Array(items) => ident_spans_exprs(items@),
        ExprKind::ArrayRepeat { value, length } => ident_spans(*value) + ident_spans(*length),
        ExprKind::Return(Some(inner)) => ident_spans(*inner),
        ExprKind::FuncApp { func, args, .. } => ident_spans(*func) + ident_spans_exprs(args@),
        ExprKind::Index { target, arg } => ident_spans(*target) + ident_spans(*arg),
        ExprKind::MethodCall { target, args, .. } => ident_spans(*target) + ident_spans_exprs(args@),
        ExprKind::FieldProjection { target, .. } => seq![e.span] + ident_spans(*target),
        ExprKind::TupleFieldProjection { target, .. } => seq![e.span] + ident_spans(*target),
        ExprKind::Ref(inner) => ident_spans(*inner),
        ExprKind::Deref(inner) => ident_spans(*inner),
        ExprKind::Not(inner) => ident_spans(*inner),
        ExprKind::Binary { lhs, rhs, .. } => ident_spans(*lhs) + ident_spans(*rhs),
        ExprKind::Reassignment { assignable, value, .. } => seq![assignable.span] + ident_spans(*value),
        _ => Seq::empty(),
    }
}

/// The spans of the names that expressions mention.
pub open spec fn ident_spans_exprs(s: Seq<Expr>) -> Seq<Span>
    decreases s,
{
    if s.len() == 0 { Seq::empty() } else { ident_spans_exprs(s.drop_last()) + ident_spans(s.last()) }
}

/// The spans of the names that the fields of a struct expression mention.
pub open spec fn ident_spans_fields(s: Seq<ExprStructField>) -> Seq<Span>
    decreases s,
{
    if s.len() == 0 {
        Seq::empty()
    } else {
        ident_spans_fields(s.drop_last()) + match s.last().value {
            Some(v) => ident_spans(*v),
            None => seq![s.last().field_name.span],
        }
    }
}

/// The spans a sequence of references points to.
pub open spec fn span_refs<'a>(v: Seq<&'a Span>) -> Seq<Span> {
    v.map_values(|x: &'a Span| *x)
}

fn append_spans<'a>(out: &mut Vec<&'a Span>, more: Vec<&'a Span>)
    ensures
        span_refs(final(out)@) == span_refs(old(out)@) + span_refs(more@),
{
    let mut more = more;
    let ghost a = span_refs(out@);
    let ghost b = span_refs(more@);
    out.append(&mut more);
    proof {
        assert(span_refs(out@) =~= a + b);
    }
}

fn push_span<'a>(out: &mut Vec<&'a Span>, s: &'a Span)
    ensures
        span_refs(final(out)@) == span_refs(old(out)@).push(*s),
{
    let ghost a = span_refs(out@);
    out.push(s);
    proof {
        assert(span_refs(out@) =~= a.push(*s));
    }
}

/// The spans of the names an expression mentions.
pub fn fold_expr_ident_spans<'a>(e: &'a Expr) -> (r: Vec<&'a Span>)
    ensures
        span_refs(r@) == ident_spans(*e),
    decreases e,
{
    let mut r: Vec<&'a Span> = Vec::new();
    match &e.kind {
        ExprKind::Path(_) => push_span(&mut r, &e.span),
        ExprKind::AbiCast { address, .. } => append_spans(&mut r, fold_expr_ident_spans(address)),
        ExprKind::Struct { fields, .. } => append_spans(&mut r, fold_fields_ident_spans(fields)),
        ExprKind::Tuple(items) => append_spans(&mut r, fold_exprs_ident_spans(items)),
        ExprKind::Parens(inner) => append_spans(&mut r, fold_expr_ident_spans(inner)),
        ExprKind::Array(items) => append_spans(&mut r, fold_exprs_ident_spans(items)),
        ExprKind::ArrayRepeat { value, length } => {
            append_spans(&mut r, fold_expr_ident_spans(value));
            append_spans(&mut r, fold_expr_ident_spans(length));
        },
        ExprKind::Return(Some(inner)) => append_spans(&mut r, fold_expr_ident_spans(inner)),
        ExprKind::FuncApp { func, args, .. } => {
            append_spans(&mut r, fold_expr_ident_spans(func));
            append_spans(&mut r, fold_exprs_ident_spans(args));
        },
        ExprKind::Index { target, arg } => {
            append_spans(&mut r, fold_expr_ident_spans(target));
            append_spans(&mut r, fold_expr_ident_spans(arg));
        },
        ExprKind::MethodCall { target, args, .. } => {
            append_spans(&mut r, fold_expr_ident_spans(target));
            append_spans(&mut r, fold_exprs_ident_spans(args));
        },
        ExprKind::FieldProjection { target, .. } => {
            push_span(&mut r, &e.span);
            append_spans(&mut r, fold_expr_ident_spans(target));
        },
        ExprKind::TupleFieldProjection { target, .. } => {
            push_span(&mut r, &e.span);
            append_spans(&mut r, fold_expr_ident_spans(target));
        },
        ExprKind::Ref(inner) => append_spans(&mut r, fold_expr_ident_spans(inner)),
        ExprKind::Deref(inner) => append_spans(&mut r, fold_expr_ident_spans(inner)),
        ExprKind::Not(inner) => append_spans(&mut r, fold_expr_ident_spans(inner)),
        ExprKind::Binary { lhs, rhs, .. } => {
            append_spans(&mut r, fold_expr_ident_spans(lhs));
            append_spans(&mut r, fold_expr_ident_spans(rhs));
        },
        ExprKind::Reassignment { assignable, value, .. } => {
            push_span(&mut r, &assignable.span);
            append_spans(&mut r, fold_expr_ident_spans(value));
        },
        _ => {},
    }
    proof {
        assert(span_refs(r@) =~= ident_spans(*e));
    }
    r
}

fn fold_exprs_ident_spans<'a>(items: &'a Vec<Expr>) -> (r: Vec<&'a Span>)
    ensures
        span_refs(r@) == ident_spans_exprs(items@),
    decreases items@,
{
    let mut r: Vec<&'a Span> = Vec::new();
    let mut k: usize = 0;
    while k < items.len()
        invariant
            k <= items@.len(),
            span_refs(r@) == ident_spans_exprs(items@.take(k as int)),
        decreases items@.len() - k,
    {
        proof {
            assert(items@.take(k + 1).drop_last() =~= items@.take(k as int));
            assert(decreases_to!(items@ => items@[k as int]));
        }
        append_spans(&mut r, fold_expr_ident_spans(&items[k]));
        k = k + 1;
    }
    proof {
        assert(items@.take(k as int) =~= items@);
    }
    r
}


fn fold_fields_ident_spans<'a>(fields: &'a Vec<ExprStructField>) -> (r: Vec<&'a Span>)
    ensures
        span_refs(r@) == ident_spans_fields(fields@),
    decreases fields@,
{
    let mut r: Vec<&'a Span> = Vec::new();
    let mut k: usize = 0;
    while k < fields.len()
        invariant
            k <= fields@.len(),
            span_refs(r@) == ident_spans_fields(fields@.take(k as int)),
        decreases fields@.len() - k,
    {
        proof {
            assert(fields@.take(k + 1).drop_last() =~= fields@.take(k as int));
            assert(decreases_to!(fields@ => fields@[k as int]));
        }
        match &fields[k].value {
            Some(v) => append_spans(&mut r, fold_expr_ident_spans(v)),
            None => push_span(&mut r, &fields[k].field_name.span),
        }
        proof {
            assert(span_refs(r@) =~= ident_spans_fields(fields@.take(k + 1)));
        }
        k = k + 1;
    }
    proof {
        assert(fields@.take(k as int) =~= fields@);
    }
    r
}

} // verus!
