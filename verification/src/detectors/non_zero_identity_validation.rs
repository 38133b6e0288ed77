//! Reports `Address`, `ContractId` and `Identity` parameters that a function never checks
//! against the zero value.
use vstd::prelude::*;
use crate::ast::{BinaryOp, Block, Expr, ExprKind, FnArg, IfCondition, IfExpr, ElseBranch, ItemFn, MatchBranch, MatchBranchKind,
    Pattern, Statement, StatementKind};
use crate::detectors::{gather, lemma_gather_step, ctx_location, context_location, finding, findings_view, FindingView, Finding,
    ctx_fn_key, fn_key, fn_key_of, block_key, open_blocks, lemma_open_blocks_step, BlockStack, opt_key_view};
use crate::report::Severity;
use crate::text::{push_str, str_eq, copy_string};
use crate::utils::{name, pattern_idents, fold_pattern_idents, zero_value_comparison, is_zero_value_comparison, has_revert,
    block_has_revert, constructor_suffix_and_value, pattern_to_constructor_suffix_and_value};
use crate::walk::{Ctx, Event};

verus! {

/// A variable of a function: the key of its function, the key of the block it lives in, its name.
pub type VarRec = ((int, int), (int, int), Seq<char>);

/// A check found in a function: the key of the function, the name of the parameter and what
/// was checked (`0`: an `Address` parameter, `1`: a `ContractId` parameter, `2` and `3`: the
/// address and the contract id an `Identity` parameter may hold).
pub type CheckRec = ((int, int), Seq<char>, u8);

/// The variables one event declares: the names bound by a `let` (in the innermost open block)
/// and by an `if let` (in its `then` block).
pub open spec fn nz_vars<'a>(evs: Seq<Event<'a>>, j: int, ev: Event<'a>) -> Seq<VarRec> {
    match ev {
        Event::Statement(c, s) => match (c.item_fn, s.kind) {
            (Some(f), StatementKind::Let(l)) => {
                let open = open_blocks(evs.take(j));
                if open.len() > 0 {
                    pattern_idents(l.pattern).map_values(|x: crate::ast::Ident| (fn_key(f), open.last().1, name(x)))
                } else {
                    Seq::empty()
                }
            },
            _ => Seq::empty(),
        },
        Event::If(c, _, ifx) => match (c.item_fn, ifx.condition) {
            (Some(f), IfCondition::Let { lhs, .. }) =>
                pattern_idents(*lhs).map_values(|x: crate::ast::Ident| (fn_key(f), block_key(&ifx.then_block), name(x))),
            _ => Seq::empty(),
        },
        _ => Seq::empty(),
    }
}

/// Whether an expression names a local variable of the function, declared in one of its open blocks.
pub open spec fn is_var(vars: Seq<VarRec>, open: Seq<(Option<(int, int)>, (int, int))>, key: (int, int), e: Expr) -> bool {
    exists|k: int, m: int| 0 <= k < vars.len() && 0 <= m < open.len()
        && (#[trigger] vars[k]).0 == key && #[trigger] open[m] == (Some(key), vars[k].1) && vars[k].2 == e.span.text@
}

/// Whether the function has a parameter with the given name and type.
pub open spec fn has_param(f: &ItemFn, text: Seq<char>, ty: Seq<char>) -> bool {
    exists|k: int| 0 <= k < f.fn_signature.args@.len() && (#[trigger] f.fn_signature.args@[k]).pattern.span.text@ == text
        && f.fn_signature.args@[k].ty.span.text@ == ty
}

/// The checks that a comparison `lhs` against `rhs` makes of `Address` or `ContractId` parameters.
pub open spec fn direct_checks(f: &ItemFn, lhs: Expr, rhs: Expr) -> Seq<(Seq<char>, u8)> {
    if has_param(f, lhs.span.text@, "Address"@) {
        if zero_value_comparison("Address"@, lhs.span.text@, lhs, rhs) { seq![(lhs.span.text@, 0u8)] } else { Seq::empty() }
    } else if has_param(f, rhs.span.text@, "Address"@) {
        if zero_value_comparison("Address"@, rhs.span.text@, lhs, rhs) { seq![(rhs.span.text@, 0u8)] } else { Seq::empty() }
    } else if has_param(f, lhs.span.text@, "ContractId"@) {
        if zero_value_comparison("ContractId"@, lhs.span.text@, lhs, rhs) { seq![(lhs.span.text@, 1u8)] } else { Seq::empty() }
    } else if has_param(f, rhs.span.text@, "ContractId"@) {
        if zero_value_comparison("ContractId"@, rhs.span.text@, lhs, rhs) { seq![(rhs.span.text@, 1u8)] } else { Seq::empty() }
    } else {
        Seq::empty()
    }
}

/// Whether `e` compares the bound value `v` of kind `x` with the zero value, by `==` (`eq`) or `!=`.
pub open spec fn compares_zero(x: Seq<char>, v: Seq<char>, e: Expr, eq: bool) -> bool {
    match e.kind {
        ExprKind::Binary { op, lhs, rhs } => (if eq { op == BinaryOp::Equal } else { op == BinaryOp::NotEqual })
            && zero_value_comparison(x, v, *lhs, *rhs),
        _ => false,
    }
}

/// Whether `e` is `require(v != x::from(ZERO_B256), ...)` or `if v == x::from(ZERO_B256) { revert(..) }`.
pub open spec fn guards_zero(x: Seq<char>, v: Seq<char>, e: Expr) -> bool {
    (match e.kind {
        ExprKind::FuncApp { func, args, .. } => func.span.text@ == "require"@ && args@.len() > 0
            && compares_zero(x, v, args@[0], false),
        _ => false,
    }) || (match e.kind {
        ExprKind::If(ifx) => has_revert(ifx.then_block) && match ifx.condition {
            IfCondition::Expr(input) => compares_zero(x, v, *input, true),
            _ => false,
        },
        _ => false,
    })
}

/// How a branch body is checked: `0` for a guard, `1` for `==`, `2` for `!=`.
pub open spec fn checks_expr(mode: u8, x: Seq<char>, v: Seq<char>, e: Expr) -> bool {
    if mode == 0 { guards_zero(x, v, e) } else if mode == 1 { compares_zero(x, v, e, true) } else { compares_zero(x, v, e, false) }
}

/// The flag of an `Identity` parameter that a check of kind `x` sets.
pub open spec fn identity_flag(x: Seq<char>) -> Option<u8> {
    if x == "Address"@ { Some(2u8) } else if x == "ContractId"@ { Some(3u8) } else { None }
}

/// The expressions of the expression statements among `s`.
pub open spec fn statement_exprs(s: Seq<Statement>) -> Seq<Expr>
    decreases s.len(),
{
    if s.len() == 0 {
        Seq::empty()
    } else {
        statement_exprs(s.drop_last()) + match s.last().kind {
            StatementKind::Expr { expr, .. } => seq![expr],
            _ => Seq::empty(),
        }
    }
}

/// The expressions of a block that are checked: its expression statements and final expression.
pub open spec fn block_exprs(b: Block) -> Seq<Expr> {
    statement_exprs(b.statements@) + match b.final_expr {
        Some(x) => seq![*x],
        None => Seq::empty(),
    }
}

/// The checks the expressions make of the identity parameter `param`, bound as `v` of kind `x`.
pub open spec fn exprs_checks(param: Seq<char>, x: Seq<char>, v: Seq<char>, exprs: Seq<Expr>, mode: u8) -> Seq<(Seq<char>, u8)>
    decreases exprs.len(),
{
    if exprs.len() == 0 {
        Seq::empty()
    } else {
        exprs_checks(param, x, v, exprs.drop_last(), mode) + if checks_expr(mode, x, v, exprs.last()) {
            match identity_flag(x) {
                Some(flag) => seq![(param, flag)],
                None => Seq::empty(),
            }
        } else {
            Seq::empty()
        }
    }
}

/// The expressions of a match branch that are checked.
pub open spec fn branch_exprs(b: MatchBranch) -> Seq<Expr> {
    match b.kind {
        MatchBranchKind::Block(block) => block_exprs(block),
        MatchBranchKind::Expr(x) => seq![*x],
    }
}

/// The checks the branches of a `match` on the identity parameter `param` make.
pub open spec fn branches_checks(param: Seq<char>, branches: Seq<MatchBranch>, mode: u8) -> Seq<(Seq<char>, u8)>
    decreases branches.len(),
{
    if branches.len() == 0 {
        Seq::empty()
    } else {
        branches_checks(param, branches.drop_last(), mode) + match constructor_suffix_and_value("Identity"@, branches.last().pattern) {
            Some((x, v)) => exprs_checks(param, name(x), name(v), branch_exprs(branches.last()), mode),
            None => Seq::empty(),
        }
    }
}

/// The checks of a `match` on `value`, unless `value` is a local variable or no identity parameter.
pub open spec fn match_checks(f: &ItemFn, local: bool, value: Expr, branches: Seq<MatchBranch>, mode: u8) -> Seq<(Seq<char>, u8)> {
    if local || !has_param(f, value.span.text@, "Identity"@) {
        Seq::empty()
    } else {
        branches_checks(value.span.text@, branches, mode)
    }
}

/// The checks of one `if let` of a chain.
pub open spec fn if_let_checks(f: &ItemFn, local: spec_fn(Expr) -> bool, ifx: IfExpr, mode: u8) -> Seq<(Seq<char>, u8)> {
    match ifx.condition {
        IfCondition::Let { lhs, rhs } => if local(*rhs) || !has_param(f, rhs.span.text@, "Identity"@) {
            Seq::empty()
        } else {
            match constructor_suffix_and_value("Identity"@, *lhs) {
                Some((x, v)) => exprs_checks(rhs.span.text@, name(x), name(v), block_exprs(ifx.then_block), mode),
                None => Seq::empty(),
            }
        },
        _ => Seq::empty(),
    }
}

/// The checks of a chain of `if let ... else if let ...`, up to its first part that is no `if let`.
pub open spec fn chain_checks(f: &ItemFn, local: spec_fn(Expr) -> bool, ifx: IfExpr, mode: u8) -> Seq<(Seq<char>, u8)>
    decreases ifx,
{
    if ifx.condition is Let {
        if_let_checks(f, local, ifx, mode) + match ifx.else_opt {
            Some(ElseBranch::ElseIf(next)) => chain_checks(f, local, *next, mode),
            _ => Seq::empty(),
        }
    } else {
        Seq::empty()
    }
}

/// The checks a statement of the function `f` makes, `local` telling the local variables.
pub open spec fn statement_checks(f: &ItemFn, local: spec_fn(Expr) -> bool, s: Statement) -> Seq<(Seq<char>, u8)> {
    match s.kind {
        StatementKind::Expr { expr, .. } => match expr.kind {
            ExprKind::Match { value, branches } => match_checks(f, local(*value), *value, branches@, 0),
            ExprKind::If(ifx) => match ifx.condition {
                IfCondition::Expr(cond) => match cond.kind {
                    ExprKind::Binary { op: BinaryOp::Equal, lhs, rhs } =>
                        if local(*lhs) || !has_revert(ifx.then_block) { Seq::empty() } else { direct_checks(f, *lhs, *rhs) },
                    ExprKind::Match { value, branches } =>
                        if !has_revert(ifx.then_block) { Seq::empty() } else { match_checks(f, local(*value), *value, branches@, 1) },
                    ExprKind::If(first) => if !has_revert(ifx.then_block) { Seq::empty() } else { chain_checks(f, local, *first, 1) },
                    _ => Seq::empty(),
                },
                IfCondition::Let { .. } => chain_checks(f, local, *ifx, 0),
            },
            ExprKind::FuncApp { func, args, .. } => if func.span.text@ == "require"@ && args@.len() > 0 {
                match args@[0].kind {
                    ExprKind::Binary { op: BinaryOp::NotEqual, lhs, rhs } =>
                        if local(*lhs) { Seq::empty() } else { direct_checks(f, *lhs, *rhs) },
                    ExprKind::Match { value, branches } => match_checks(f, local(*value), *value, branches@, 2),
                    ExprKind::If(first) => chain_checks(f, local, *first, 2),
                    _ => Seq::empty(),
                }
            } else {
                Seq::empty()
            },
            _ => Seq::empty(),
        },
        _ => Seq::empty(),
    }
}

/// The checks one event makes, given the events before it.
pub open spec fn nz_checks<'a>(evs: Seq<Event<'a>>, j: int, ev: Event<'a>) -> Seq<CheckRec> {
    match ev {
        Event::Statement(c, s) => match c.item_fn {
            Some(f) => {
                let vars = gather(evs.take(j), |k: int, x: Event<'a>| nz_vars(evs, k, x));
                let open = open_blocks(evs.take(j));
                if open.len() > 0 {
                    statement_checks(f, locals(vars, open, fn_key(f)), *s)
                        .map_values(|x: (Seq<char>, u8)| (fn_key(f), x.0, x.1))
                } else {
                    Seq::empty()
                }
            },
            None => Seq::empty(),
        },
        _ => Seq::empty(),
    }
}

/// Whether a parameter of the given type was left unchecked.
pub open spec fn param_unchecked(key: (int, int), a: FnArg, checks: Seq<CheckRec>) -> bool {
    let t = a.pattern.span.text@;
    if a.ty.span.text@ == "Address"@ {
        !checks.contains((key, t, 0u8))
    } else if a.ty.span.text@ == "ContractId"@ {
        !checks.contains((key, t, 1u8))
    } else if a.ty.span.text@ == "Identity"@ {
        !checks.contains((key, t, 2u8)) || !checks.contains((key, t, 3u8))
    } else {
        false
    }
}

/// The findings for the unchecked parameters of type `ty`, in the order of declaration.
pub open spec fn unchecked_findings(i: int, loc: Seq<char>, key: (int, int), args: Seq<FnArg>, ty: Seq<char>,
    checks: Seq<CheckRec>) -> Seq<FindingView>
    decreases args.len(),
{
    if args.len() == 0 {
        Seq::empty()
    } else {
        let a = args.last();
        unchecked_findings(i, loc, key, args.drop_last(), ty, checks) + if a.ty.span.text@ == ty && param_unchecked(key, a, checks) {
            finding(i, a.pattern.span.start as int, Severity::Low,
                loc + " does not check its `"@ + a.pattern.span.text@ + "` parameter for a zero value."@)
        } else {
            Seq::empty()
        }
    }
}

/// What the detector reports at one event, given the events before it: at the end of each
/// function, its unchecked parameters, `Address` ones first, then `ContractId`, then `Identity`.
pub open spec fn non_zero_identity_at<'a>(evs: Seq<Event<'a>>, i: int, ev: Event<'a>) -> Seq<FindingView> {
    match ev {
        Event::LeaveFn(c, f) => {
            let checks = gather(evs.take(i), |j: int, x: Event<'a>| nz_checks(evs, j, x));
            let args = f.fn_signature.args@;
            unchecked_findings(i, ctx_location(c), fn_key(f), args, "Address"@, checks)
                + unchecked_findings(i, ctx_location(c), fn_key(f), args, "ContractId"@, checks)
                + unchecked_findings(i, ctx_location(c), fn_key(f), args, "Identity"@, checks)
        },
        _ => Seq::empty(),
    }
}


/// The value of a list of variables.
pub open spec fn vars_view(v: Seq<((usize, usize), (usize, usize), String)>) -> Seq<VarRec> {
    v.map_values(|x: ((usize, usize), (usize, usize), String)| ((x.0.0 as int, x.0.1 as int), (x.1.0 as int, x.1.1 as int), x.2@))
}

/// The value of a list of checks of one function.
pub open spec fn checks_view(v: Seq<(String, u8)>) -> Seq<(Seq<char>, u8)> {
    v.map_values(|x: (String, u8)| (x.0@, x.1))
}

/// The value of a list of checks.
pub open spec fn all_checks_view(v: Seq<((usize, usize), String, u8)>) -> Seq<CheckRec> {
    v.map_values(|x: ((usize, usize), String, u8)| ((x.0.0 as int, x.0.1 as int), x.1@, x.2))
}

/// The local variables of a function, as a predicate on expressions.
pub open spec fn locals(vars: Seq<VarRec>, open: Seq<(Option<(int, int)>, (int, int))>, key: (int, int)) -> spec_fn(Expr) -> bool {
    |e: Expr| is_var(vars, open, key, e)
}

fn is_var_exec(vars: &Vec<((usize, usize), (usize, usize), String)>, stack: &BlockStack, key: (usize, usize), e: &Expr) -> (r: bool)
    ensures
        r == is_var(vars_view(vars@), stack.view(), (key.0 as int, key.1 as int), *e),
{
    let ghost vv = vars_view(vars@);
    let ghost open = stack.view();
    let ghost kk = (key.0 as int, key.1 as int);
    let mut k: usize = 0;
    while k < vars.len()
        invariant
            k <= vars@.len(),
            vv == vars_view(vars@),
            open == stack.view(),
            kk == (key.0 as int, key.1 as int),
            forall|a: int, m: int| 0 <= a < k && 0 <= m < open.len() ==> !((#[trigger] vv[a]).0 == kk
                && #[trigger] open[m] == (Some(kk), vv[a].1) && vv[a].2 == e.span.text@),
        decreases vars@.len() - k,
    {
        if vars[k].0.0 == key.0 && vars[k].0.1 == key.1 && str_eq(vars[k].2.as_str(), e.span.text.as_str()) {
            let mut m: usize = 0;
            while m < stack.entries.len()
                invariant
                    k < vars@.len(),
                    m <= stack.entries@.len(),
                    vv == vars_view(vars@),
                    open == stack.view(),
                    kk == (key.0 as int, key.1 as int),
                    vv[k as int].0 == kk,
                    vv[k as int].2 == e.span.text@,
                    forall|b: int| 0 <= b < m ==> #[trigger] open[b] != (Some(kk), vv[k as int].1),
                decreases stack.entries@.len() - m,
            {
                let entry = &stack.entries[m];
                let same = match entry.0 {
                    Some(fk) => fk.0 == key.0 && fk.1 == key.1,
                    None => false,
                } && entry.1.0 == vars[k].1.0 && entry.1.1 == vars[k].1.1;
                if same {
                    proof {
                        assert(open[m as int] == (Some(kk), vv[k as int].1));
                        assert(is_var(vv, open, kk, *e));
                    }
                    return true;
                }
                proof {
                    assert(open[m as int] != (Some(kk), vv[k as int].1));
                }
                m = m + 1;
            }
        }
        k = k + 1;
    }
    false
}

fn has_param_exec(f: &ItemFn, text: &str, ty: &str) -> (r: bool)
    ensures
        r == has_param(f, text@, ty@),
{
    let mut k: usize = 0;
    while k < f.fn_signature.args.len()
        invariant
            k <= f.fn_signature.args@.len(),
            forall|m: int| 0 <= m < k ==> !((#[trigger] f.fn_signature.args@[m]).pattern.span.text@ == text@
                && f.fn_signature.args@[m].ty.span.text@ == ty@),
        decreases f.fn_signature.args@.len() - k,
    {
        let a = &f.fn_signature.args[k];
        if str_eq(a.pattern.span.text.as_str(), text) && str_eq(a.ty.span.text.as_str(), ty) {
            return true;
        }
        k = k + 1;
    }
    false
}

fn push_check(out: &mut Vec<(String, u8)>, text: &str, flag: u8)
    ensures
        checks_view(final(out)@) == checks_view(old(out)@).push((text@, flag)),
{
    let ghost before = checks_view(out@);
    out.push((copy_string(text), flag));
    proof {
        assert(checks_view(out@) =~= before.push((text@, flag)));
    }
}

fn direct_checks_exec(f: &ItemFn, lhs: &Expr, rhs: &Expr, out: &mut Vec<(String, u8)>)
    ensures
        checks_view(final(out)@) == checks_view(old(out)@) + direct_checks(f, *lhs, *rhs),
{
    let ghost before = checks_view(out@);
    let l = lhs.span.text.as_str();
    let r = rhs.span.text.as_str();
    if has_param_exec(f, l, "Address") {
        if is_zero_value_comparison("Address", l, lhs, rhs) {
            push_check(out, l, 0);
        }
    } else if has_param_exec(f, r, "Address") {
        if is_zero_value_comparison("Address", r, lhs, rhs) {
            push_check(out, r, 0);
        }
    } else if has_param_exec(f, l, "ContractId") {
        if is_zero_value_comparison("ContractId", l, lhs, rhs) {
            push_check(out, l, 1);
        }
    } else if has_param_exec(f, r, "ContractId") {
        if is_zero_value_comparison("ContractId", r, lhs, rhs) {
            push_check(out, r, 1);
        }
    }
    proof {
        assert(checks_view(out@) =~= before + direct_checks(f, *lhs, *rhs));
    }
}

fn compares_zero_exec(x: &str, v: &str, e: &Expr, eq: bool) -> (r: bool)
    ensures
        r == compares_zero(x@, v@, *e, eq),
{
    match &e.kind {
        ExprKind::Binary { op, lhs, rhs } => (if eq { *op == BinaryOp::Equal } else { *op == BinaryOp::NotEqual })
            && is_zero_value_comparison(x, v, lhs, rhs),
        _ => false,
    }
}

fn guards_zero_exec(x: &str, v: &str, e: &Expr) -> (r: bool)
    ensures
        r == guards_zero(x@, v@, *e),
{
    let a = match &e.kind {
        ExprKind::FuncApp { func, args, .. } => str_eq(func.span.text.as_str(), "require") && args.len() > 0
            && compares_zero_exec(x, v, &args[0], false),
        _ => false,
    };
    let b = match &e.kind {
        ExprKind::If(ifx) => block_has_revert(&ifx.then_block) && match &ifx.condition {
            IfCondition::Expr(input) => compares_zero_exec(x, v, input, true),
            _ => false,
        },
        _ => false,
    };
    a || b
}

fn checks_expr_exec(mode: u8, x: &str, v: &str, e: &Expr) -> (r: bool)
    ensures
        r == checks_expr(mode, x@, v@, *e),
{
    if mode == 0 {
        guards_zero_exec(x, v, e)
    } else if mode == 1 {
        compares_zero_exec(x, v, e, true)
    } else {
        compares_zero_exec(x, v, e, false)
    }
}

fn identity_flag_exec(x: &str) -> (r: Option<u8>)
    ensures
        r == identity_flag(x@),
{
    if str_eq(x, "Address") {
        Some(2)
    } else if str_eq(x, "ContractId") {
        Some(3)
    } else {
        None
    }
}

fn block_exprs_exec<'b>(b: &'b Block) -> (r: Vec<&'b Expr>)
    ensures
        r@.map_values(|e: &'b Expr| *e) == block_exprs(*b),
{
    let mut r: Vec<&'b Expr> = Vec::new();
    let mut k: usize = 0;
    while k < b.statements.len()
        invariant
            k <= b.statements@.len(),
            r@.map_values(|e: &'b Expr| *e) == statement_exprs(b.statements@.take(k as int)),
        decreases b.statements@.len() - k,
    {
        proof {
            assert(b.statements@.take(k + 1).drop_last() =~= b.statements@.take(k as int));
        }
        let ghost before = r@.map_values(|e: &'b Expr| *e);
        match &b.statements[k].kind {
            StatementKind::Expr { expr, .. } => {
                r.push(expr);
                proof {
                    assert(r@.map_values(|e: &'b Expr| *e) =~= before.push(*expr));
                }
            },
            _ => {},
        }
        proof {
            assert(r@.map_values(|e: &'b Expr| *e) =~= statement_exprs(b.statements@.take(k + 1)));
        }
        k = k + 1;
    }
    proof {
        assert(b.statements@.take(k as int) =~= b.statements@);
    }
    let ghost before = r@.map_values(|e: &'b Expr| *e);
    match &b.final_expr {
        Some(x) => {
            r.push(&**x);
            proof {
                assert(r@.map_values(|e: &'b Expr| *e) =~= before.push(**x));
            }
        },
        None => {},
    }
    proof {
        assert(r@.map_values(|e: &'b Expr| *e) =~= block_exprs(*b));
    }
    r
}

fn exprs_checks_exec<'b>(param: &str, x: &str, v: &str, exprs: &Vec<&'b Expr>, mode: u8, out: &mut Vec<(String, u8)>)
    ensures
        checks_view(final(out)@) == checks_view(old(out)@)
            + exprs_checks(param@, x@, v@, exprs@.map_values(|e: &'b Expr| *e), mode),
{
    let ghost start = checks_view(out@);
    let ghost es = exprs@.map_values(|e: &'b Expr| *e);
    let flag = identity_flag_exec(x);
    let mut k: usize = 0;
    while k < exprs.len()
        invariant
            k <= exprs@.len(),
            es == exprs@.map_values(|e: &'b Expr| *e),
            flag == identity_flag(x@),
            checks_view(out@) == start + exprs_checks(param@, x@, v@, es.take(k as int), mode),
        decreases exprs@.len() - k,
    {
        proof {
            assert(es.take(k + 1).drop_last() =~= es.take(k as int));
            assert(es.take(k + 1).last() == *exprs@[k as int]);
        }
        let ghost before = checks_view(out@);
        if checks_expr_exec(mode, x, v, exprs[k]) {
            match flag {
                Some(fl) => push_check(out, param, fl),
                None => {},
            }
        }
        proof {
            assert(checks_view(out@) =~= start + exprs_checks(param@, x@, v@, es.take(k + 1), mode));
        }
        k = k + 1;
    }
    proof {
        assert(es.take(k as int) =~= es);
    }
}

fn branch_exprs_exec<'b>(b: &'b MatchBranch) -> (r: Vec<&'b Expr>)
    ensures
        r@.map_values(|e: &'b Expr| *e) == branch_exprs(*b),
{
    match &b.kind {
        MatchBranchKind::Block(block) => block_exprs_exec(block),
        MatchBranchKind::Expr(x) => {
            let mut r: Vec<&'b Expr> = Vec::new();
            r.push(&**x);
            proof {
                assert(r@.map_values(|e: &'b Expr| *e) =~= seq![**x]);
            }
            r
        },
    }
}

fn branches_checks_exec(param: &str, branches: &Vec<MatchBranch>, mode: u8, out: &mut Vec<(String, u8)>)
    ensures
        checks_view(final(out)@) == checks_view(old(out)@) + branches_checks(param@, branches@, mode),
{
    let ghost start = checks_view(out@);
    let mut k: usize = 0;
    while k < branches.len()
        invariant
            k <= branches@.len(),
            checks_view(out@) == start + branches_checks(param@, branches@.take(k as int), mode),
        decreases branches@.len() - k,
    {
        proof {
            assert(branches@.take(k + 1).drop_last() =~= branches@.take(k as int));
        }
        let ghost before = checks_view(out@);
        let b = &branches[k];
        match pattern_to_constructor_suffix_and_value("Identity", &b.pattern) {
            Some((x, v)) => {
                let es = branch_exprs_exec(b);
                exprs_checks_exec(param, x.span.text.as_str(), v.span.text.as_str(), &es, mode, out);
            },
            None => {},
        }
        proof {
            assert(checks_view(out@) =~= start + branches_checks(param@, branches@.take(k + 1), mode));
        }
        k = k + 1;
    }
    proof {
        assert(branches@.take(k as int) =~= branches@);
    }
}

fn match_checks_exec(f: &ItemFn, local: bool, value: &Expr, branches: &Vec<MatchBranch>, mode: u8, out: &mut Vec<(String, u8)>)
    ensures
        checks_view(final(out)@) == checks_view(old(out)@) + match_checks(f, local, *value, branches@, mode),
{
    if local || !has_param_exec(f, value.span.text.as_str(), "Identity") {
        proof {
            assert(checks_view(out@) =~= checks_view(old(out)@) + match_checks(f, local, *value, branches@, mode));
        }
        return;
    }
    branches_checks_exec(value.span.text.as_str(), branches, mode, out);
}

fn chain_checks_exec(f: &ItemFn, vars: &Vec<((usize, usize), (usize, usize), String)>, stack: &BlockStack, key: (usize, usize),
    ifx: &IfExpr, mode: u8, out: &mut Vec<(String, u8)>)
    ensures
        checks_view(final(out)@) == checks_view(old(out)@)
            + chain_checks(f, locals(vars_view(vars@), stack.view(), (key.0 as int, key.1 as int)), *ifx, mode),
    decreases ifx,
{
    let ghost local = locals(vars_view(vars@), stack.view(), (key.0 as int, key.1 as int));
    let ghost start = checks_view(out@);
    match &ifx.condition {
        IfCondition::Let { lhs, rhs } => {
            let is_local = is_var_exec(vars, stack, key, rhs);
            proof {
                assert(is_local == local(**rhs));
            }
            if !is_local && has_param_exec(f, rhs.span.text.as_str(), "Identity") {
                match pattern_to_constructor_suffix_and_value("Identity", lhs) {
                    Some((x, v)) => {
                        let es = block_exprs_exec(&ifx.then_block);
                        exprs_checks_exec(rhs.span.text.as_str(), x.span.text.as_str(), v.span.text.as_str(), &es, mode, out);
                    },
                    None => {},
                }
            }
            proof {
                assert(checks_view(out@) =~= start + if_let_checks(f, local, *ifx, mode));
            }
            let ghost mid = checks_view(out@);
            match &ifx.else_opt {
                Some(ElseBranch::ElseIf(next)) => chain_checks_exec(f, vars, stack, key, next, mode, out),
                _ => {},
            }
            proof {
                assert(checks_view(out@) =~= start + chain_checks(f, local, *ifx, mode));
            }
        },
        _ => {
            proof {
                assert(checks_view(out@) =~= start + chain_checks(f, local, *ifx, mode));
            }
        },
    }
}

fn statement_checks_exec(f: &ItemFn, vars: &Vec<((usize, usize), (usize, usize), String)>, stack: &BlockStack, key: (usize, usize),
    s: &Statement) -> (r: Vec<(String, u8)>)
    ensures
        checks_view(r@) == statement_checks(f, locals(vars_view(vars@), stack.view(), (key.0 as int, key.1 as int)), *s),
{
    let ghost local = locals(vars_view(vars@), stack.view(), (key.0 as int, key.1 as int));
    let mut out: Vec<(String, u8)> = Vec::new();
    proof {
        assert(checks_view(out@) =~= Seq::<(Seq<char>, u8)>::empty());
    }
    match &s.kind {
        StatementKind::Expr { expr, .. } => match &expr.kind {
            ExprKind::Match { value, branches } => {
                let l = is_var_exec(vars, stack, key, value);
                match_checks_exec(f, l, value, branches, 0, &mut out);
            },
            ExprKind::If(ifx) => match &ifx.condition {
                IfCondition::Expr(cond) => match &cond.kind {
                    ExprKind::Binary { op: BinaryOp::Equal, lhs, rhs } => {
                        if !is_var_exec(vars, stack, key, lhs) && block_has_revert(&ifx.then_block) {
                            direct_checks_exec(f, lhs, rhs, &mut out);
                        }
                    },
                    ExprKind::Match { value, branches } => {
                        if block_has_revert(&ifx.then_block) {
                            let l = is_var_exec(vars, stack, key, value);
                            match_checks_exec(f, l, value, branches, 1, &mut out);
                        }
                    },
                    ExprKind::If(first) => {
                        if block_has_revert(&ifx.then_block) {
                            chain_checks_exec(f, vars, stack, key, first, 1, &mut out);
                        }
                    },
                    _ => {},
                },
                IfCondition::Let { .. } => chain_checks_exec(f, vars, stack, key, ifx, 0, &mut out),
            },
            ExprKind::FuncApp { func, args, .. } => {
                if str_eq(func.span.text.as_str(), "require") && args.len() > 0 {
                    match &args[0].kind {
                        ExprKind::Binary { op: BinaryOp::NotEqual, lhs, rhs } => {
                            if !is_var_exec(vars, stack, key, lhs) {
                                direct_checks_exec(f, lhs, rhs, &mut out);
                            }
                        },
                        ExprKind::Match { value, branches } => {
                            let l = is_var_exec(vars, stack, key, value);
                            match_checks_exec(f, l, value, branches, 2, &mut out);
                        },
                        ExprKind::If(first) => chain_checks_exec(f, vars, stack, key, first, 2, &mut out),
                        _ => {},
                    }
                }
            },
            _ => {},
        },
        _ => {},
    }
    proof {
        assert(checks_view(out@) =~= statement_checks(f, local, *s));
    }
    out
}


fn checks_contain(checks: &Vec<((usize, usize), String, u8)>, key: (usize, usize), text: &str, flag: u8) -> (r: bool)
    ensures
        r == all_checks_view(checks@).contains(((key.0 as int, key.1 as int), text@, flag)),
{
    let ghost cv = all_checks_view(checks@);
    let mut k: usize = 0;
    while k < checks.len()
        invariant
            k <= checks@.len(),
            cv == all_checks_view(checks@),
            forall|m: int| 0 <= m < k ==> cv[m] != ((key.0 as int, key.1 as int), text@, flag),
        decreases checks@.len() - k,
    {
        let c = &checks[k];
        if c.0.0 == key.0 && c.0.1 == key.1 && c.2 == flag && str_eq(c.1.as_str(), text) {
            proof {
                assert(cv[k as int] == ((key.0 as int, key.1 as int), text@, flag));
            }
            return true;
        }
        k = k + 1;
    }
    false
}

fn unchecked_findings_exec(i: usize, loc: &str, key: (usize, usize), args: &Vec<FnArg>, ty: &str,
    checks: &Vec<((usize, usize), String, u8)>, out: &mut Vec<Finding>)
    ensures
        findings_view(final(out)@) == findings_view(old(out)@)
            + unchecked_findings(i as int, loc@, (key.0 as int, key.1 as int), args@, ty@, all_checks_view(checks@)),
{
    let ghost start = findings_view(out@);
    let ghost kk = (key.0 as int, key.1 as int);
    let ghost cv = all_checks_view(checks@);
    let mut k: usize = 0;
    while k < args.len()
        invariant
            k <= args@.len(),
            kk == (key.0 as int, key.1 as int),
            cv == all_checks_view(checks@),
            findings_view(out@) == start + unchecked_findings(i as int, loc@, kk, args@.take(k as int), ty@, cv),
        decreases args@.len() - k,
    {
        proof {
            assert(args@.take(k + 1).drop_last() =~= args@.take(k as int));
        }
        let ghost before = findings_view(out@);
        let a = &args[k];
        let t = a.pattern.span.text.as_str();
        let tyt = a.ty.span.text.as_str();
        let unchecked = if str_eq(tyt, "Address") {
            !checks_contain(checks, key, t, 0)
        } else if str_eq(tyt, "ContractId") {
            !checks_contain(checks, key, t, 1)
        } else if str_eq(tyt, "Identity") {
            !checks_contain(checks, key, t, 2) || !checks_contain(checks, key, t, 3)
        } else {
            false
        };
        if str_eq(tyt, ty) && unchecked {
            let mut text = copy_string(loc);
            push_str(&mut text, " does not check its `");
            push_str(&mut text, t);
            push_str(&mut text, "` parameter for a zero value.");
            out.push(Finding { event: i, start: a.pattern.span.start, severity: Severity::Low, text, reference: None });
            proof {
                assert(findings_view(out@) =~= before + finding(i as int, a.pattern.span.start as int, Severity::Low,
                    loc@ + " does not check its `"@ + t@ + "` parameter for a zero value."@));
            }
        } else {
            proof {
                assert(findings_view(out@) =~= before);
            }
        }
        proof {
            assert(args@.take(k + 1).last() == args@[k as int]);
            assert(unchecked == param_unchecked(kk, args@[k as int], cv));
            assert(findings_view(out@) =~= start + unchecked_findings(i as int, loc@, kk, args@.take(k + 1), ty@, cv));
        }
        k = k + 1;
    }
    proof {
        assert(args@.take(k as int) =~= args@);
    }
}

/// The detector of this module; `detect` runs it over the events of a module.
pub struct NonZeroIdentityValidationVisitor;

impl NonZeroIdentityValidationVisitor {
    /// Reports the parameters that functions never check against the zero value.
    pub fn detect<'a>(&self, events: &Vec<Event<'a>>) -> (r: Vec<Finding>)
        ensures
            findings_view(r@) == gather(events@, |i: int, ev: Event<'a>| non_zero_identity_at(events@, i, ev)),
    {
        let ghost f = |i: int, ev: Event<'a>| non_zero_identity_at(events@, i, ev);
        let ghost gv = |k: int, x: Event<'a>| nz_vars(events@, k, x);
        let ghost gc = |j: int, x: Event<'a>| nz_checks(events@, j, x);
        let mut r: Vec<Finding> = Vec::new();
        let mut vars: Vec<((usize, usize), (usize, usize), String)> = Vec::new();
        let mut checks: Vec<((usize, usize), String, u8)> = Vec::new();
        let mut stack = BlockStack::new();
        let mut i: usize = 0;
        while i < events.len()
            invariant
                i <= events@.len(),
                f == (|i: int, ev: Event<'a>| non_zero_identity_at(events@, i, ev)),
                gv == (|k: int, x: Event<'a>| nz_vars(events@, k, x)),
                gc == (|j: int, x: Event<'a>| nz_checks(events@, j, x)),
                findings_view(r@) == gather(events@.take(i as int), f),
                vars_view(vars@) == gather(events@.take(i as int), gv),
                all_checks_view(checks@) == gather(events@.take(i as int), gc),
                stack.view() == open_blocks(events@.take(i as int)),
            decreases events@.len() - i,
        {
            proof {
                lemma_gather_step(events@, f, i as int);
                lemma_gather_step(events@, gv, i as int);
                lemma_gather_step(events@, gc, i as int);
                lemma_open_blocks_step(events@, i as int);
            }
            let ghost before = findings_view(r@);
            let ghost vars_before = vars_view(vars@);
            let ghost checks_before = all_checks_view(checks@);
            let ev = &events[i];
            match ev {
                Event::Statement(c, s) => {
                    match c.item_fn {
                        Some(func) => {
                            let key = fn_key_of(func);
                            if stack.entries.len() > 0 {
                                let found = statement_checks_exec(func, &vars, &stack, key, s);
                                let mut k: usize = 0;
                                while k < found.len()
                                    invariant
                                        k <= found@.len(),
                                        all_checks_view(checks@) == checks_before
                                            + checks_view(found@).take(k as int).map_values(|x: (Seq<char>, u8)| ((key.0 as int, key.1 as int), x.0, x.1)),
                                    decreases found@.len() - k,
                                {
                                    let ghost cb = all_checks_view(checks@);
                                    checks.push((key, copy_string(found[k].0.as_str()), found[k].1));
                                    proof {
                                        assert(all_checks_view(checks@) =~= cb.push(((key.0 as int, key.1 as int), found@[k as int].0@, found@[k as int].1)));
                                        assert(checks_view(found@).take(k + 1) =~= checks_view(found@).take(k as int).push((found@[k as int].0@, found@[k as int].1)));
                                        assert(all_checks_view(checks@) =~= checks_before
                                            + checks_view(found@).take(k + 1).map_values(|x: (Seq<char>, u8)| ((key.0 as int, key.1 as int), x.0, x.1)));
                                    }
                                    k = k + 1;
                                }
                                proof {
                                    assert(checks_view(found@).take(k as int) =~= checks_view(found@));
                                }
                                match &s.kind {
                                    StatementKind::Let(l) => {
                                        let inner = stack.entries[stack.entries.len() - 1].1;
                                        let ids = fold_pattern_idents(&l.pattern);
                                        let mut k: usize = 0;
                                        while k < ids.len()
                                            invariant
                                                k <= ids@.len(),
                                                stack.view().len() > 0,
                                                (inner.0 as int, inner.1 as int) == stack.view().last().1,
                                                vars_view(vars@) == vars_before + crate::utils::derefs(ids@).take(k as int)
                                                    .map_values(|x: crate::ast::Ident| ((key.0 as int, key.1 as int), (inner.0 as int, inner.1 as int), name(x))),
                                            decreases ids@.len() - k,
                                        {
                                            let ghost vb = vars_view(vars@);
                                            vars.push((key, inner, copy_string(ids[k].span.text.as_str())));
                                            proof {
                                                assert(vars_view(vars@) =~= vb.push(((key.0 as int, key.1 as int), (inner.0 as int, inner.1 as int), ids@[k as int].span.text@)));
                                                assert(crate::utils::derefs(ids@).take(k + 1) =~= crate::utils::derefs(ids@).take(k as int).push(*ids@[k as int]));
                                                assert(vars_view(vars@) =~= vars_before + crate::utils::derefs(ids@).take(k + 1)
                                                    .map_values(|x: crate::ast::Ident| ((key.0 as int, key.1 as int), (inner.0 as int, inner.1 as int), name(x))));
                                            }
                                            k = k + 1;
                                        }
                                        proof {
                                            assert(crate::utils::derefs(ids@).take(k as int) =~= crate::utils::derefs(ids@));
                                        }
                                    },
                                    _ => {},
                                }
                            }
                        },
                        None => {},
                    }
                    proof {
                        assert(vars_view(vars@) =~= vars_before + gv(i as int, events@[i as int]));
                        assert(all_checks_view(checks@) =~= checks_before + gc(i as int, events@[i as int]));
                        assert(findings_view(r@) =~= before + f(i as int, events@[i as int]));
                    }
                },
                Event::If(c, _, ifx) => {
                    match (c.item_fn, &ifx.condition) {
                        (Some(func), IfCondition::Let { lhs, .. }) => {
                            let key = fn_key_of(func);
                            let bk = (ifx.then_block.span.start, ifx.then_block.span.end);
                            let ids = fold_pattern_idents(lhs);
                            let mut k: usize = 0;
                            while k < ids.len()
                                invariant
                                    k <= ids@.len(),
                                    vars_view(vars@) == vars_before + crate::utils::derefs(ids@).take(k as int)
                                        .map_values(|x: crate::ast::Ident| ((key.0 as int, key.1 as int), (bk.0 as int, bk.1 as int), name(x))),
                                decreases ids@.len() - k,
                            {
                                let ghost vb = vars_view(vars@);
                                vars.push((key, bk, copy_string(ids[k].span.text.as_str())));
                                proof {
                                    assert(vars_view(vars@) =~= vb.push(((key.0 as int, key.1 as int), (bk.0 as int, bk.1 as int), ids@[k as int].span.text@)));
                                    assert(crate::utils::derefs(ids@).take(k + 1) =~= crate::utils::derefs(ids@).take(k as int).push(*ids@[k as int]));
                                    assert(vars_view(vars@) =~= vars_before + crate::utils::derefs(ids@).take(k + 1)
                                        .map_values(|x: crate::ast::Ident| ((key.0 as int, key.1 as int), (bk.0 as int, bk.1 as int), name(x))));
                                }
                                k = k + 1;
                            }
                            proof {
                                assert(crate::utils::derefs(ids@).take(k as int) =~= crate::utils::derefs(ids@));
                            }
                        },
                        _ => {},
                    }
                    proof {
                        assert(vars_view(vars@) =~= vars_before + gv(i as int, events@[i as int]));
                        assert(all_checks_view(checks@) =~= checks_before + gc(i as int, events@[i as int]));
                        assert(findings_view(r@) =~= before + f(i as int, events@[i as int]));
                    }
                },
                Event::LeaveFn(c, func) => {
                    let loc = context_location(c);
                    let key = fn_key_of(func);
                    unchecked_findings_exec(i, loc.as_str(), key, &func.fn_signature.args, "Address", &checks, &mut r);
                    unchecked_findings_exec(i, loc.as_str(), key, &func.fn_signature.args, "ContractId", &checks, &mut r);
                    unchecked_findings_exec(i, loc.as_str(), key, &func.fn_signature.args, "Identity", &checks, &mut r);
                    proof {
                        assert(vars_view(vars@) =~= vars_before + gv(i as int, events@[i as int]));
                        assert(all_checks_view(checks@) =~= checks_before + gc(i as int, events@[i as int]));
                        assert(findings_view(r@) =~= before + f(i as int, events@[i as int]));
                    }
                },
                _ => {
                    proof {
                        assert(vars_view(vars@) =~= vars_before + gv(i as int, events@[i as int]));
                        assert(all_checks_view(checks@) =~= checks_before + gc(i as int, events@[i as int]));
                        assert(findings_view(r@) =~= before + f(i as int, events@[i as int]));
                    }
                },
            }
            stack.step(ev);
            i = i + 1;
        }
        proof {
            assert(events@.take(i as int) =~= events@);
        }
        r
    }
}

} // verus!
