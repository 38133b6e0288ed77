//! What single detectors report, stated over the shape of the syntax they see.
use vstd::prelude::*;
use crate::ast::{Assignable, BinaryOp, Block, Expr, ExprKind, ItemFn, ReassignmentOp, Statement, StatementKind};
use crate::detectors::{gather, FindingView};
use crate::detectors::division_before_multiplication::{division_before_multiplication_at, is_division, division_vars, is_division_var};
use crate::detectors::{fn_key, open_blocks};
use crate::detectors::explicit_return_statement::explicit_return_at;
use crate::detectors::inline_assembly_usage::inline_assembly_at;
use crate::detectors::potential_infinite_loop::{updates_condition, loop_recs, loop_marks, innermost_loop, loop_condition, infinite_loop_at};
use crate::detectors::unprotected_initialization::{is_requirement, protected, init_findings, init_records, calls_of, InitRec};
use crate::text::is_infix;
use crate::detectors::boolean_comparison::boolean_comparison_at;
use crate::detectors::strict_equality::strict_equality_at;
use crate::detectors::unsafe_timestamp_usage::unsafe_timestamp_at;
use crate::detectors::weak_prng::weak_prng_at;
use crate::report::Severity;
use crate::utils::{assignable_idents, expr_idents};
use crate::walk::{Ctx, Event};

verus! {

/// A division, written as such, possibly in parentheses.
pub open spec fn written_division(e: Expr) -> bool {
    ||| e.kind matches ExprKind::Binary { op: BinaryOp::Div, .. }
    ||| e.kind matches ExprKind::Parens(x) && x.kind matches ExprKind::Binary { op: BinaryOp::Div, .. }
}

/// A multiplication whose left operand is a division, with or without parentheses around it
/// (`x / 2 * 3` or `(x / 2) * 3`), is reported once, as low, at the multiplication.
pub proof fn law_division_then_multiplication_reported<'a>(evs: Seq<Event<'a>>, i: int, c: Ctx<'a>, e: &'a Expr)
    requires
        e.kind matches ExprKind::Binary { op: BinaryOp::Mul, lhs, .. } && written_division(*lhs),
    ensures
        division_before_multiplication_at(evs, i, Event::Expr(c, e)).len() == 1,
        division_before_multiplication_at(evs, i, Event::Expr(c, e))[0].0 == i,
        division_before_multiplication_at(evs, i, Event::Expr(c, e))[0].1 == e.span.start,
        division_before_multiplication_at(evs, i, Event::Expr(c, e))[0].2 == Severity::Low,
{
    match e.kind {
        ExprKind::Binary { lhs, .. } => match lhs.kind {
            ExprKind::Parens(x) => {
                assert(is_division(*x));
                assert(is_division(*lhs));
            },
            _ => {
                assert(is_division(*lhs));
            },
        },
        _ => {},
    }
}

/// A `let` of a function that binds a pattern to a division, as statement event `ev`.
pub open spec fn let_division<'a>(ev: Event<'a>, f: &'a ItemFn, pat: Seq<char>) -> bool {
    match ev {
        Event::Statement(c, s) => c.item_fn == Some(f) && match s.kind {
            StatementKind::Let(l) => l.pattern.span.text@ == pat && l.expr.kind matches ExprKind::Binary { op: BinaryOp::Div, .. },
            _ => false,
        },
        _ => false,
    }
}

/// A multiplication in a function whose left operand names a variable bound to a division by a
/// `let` of the same function, in a block that is still open, is reported once, as low.
pub proof fn law_division_variable_then_multiplication_reported<'a>(evs: Seq<Event<'a>>, i: int, c: Ctx<'a>, e: &'a Expr,
    f: &'a ItemFn, j: int, m: int)
    requires
        0 <= j < i <= evs.len(),
        c.item_fn == Some(f),
        !c.in_const,
        open_blocks(evs.take(j)).len() > 0,
        let_division(evs[j], f, (e.kind->Binary_lhs).span.text@),
        e.kind matches ExprKind::Binary { op: BinaryOp::Mul, .. },
        0 <= m < open_blocks(evs.take(i)).len(),
        open_blocks(evs.take(i))[m] == (Some(fn_key(f)), open_blocks(evs.take(j)).last().1),
    ensures
        division_before_multiplication_at(evs, i, Event::Expr(c, e)).len() == 1,
        division_before_multiplication_at(evs, i, Event::Expr(c, e))[0].1 == e.span.start,
        division_before_multiplication_at(evs, i, Event::Expr(c, e))[0].2 == Severity::Low,
{
    let g = |jj: int, x: Event<'a>| division_vars(evs, jj, x);
    let pre = evs.take(i);
    let v = (fn_key(f), open_blocks(evs.take(j)).last().1, (e.kind->Binary_lhs).span.text@);
    assert(pre[j] == evs[j]);
    assert(g(j, pre[j]) == seq![v]);
    assert(g(j, pre[j]).contains(v)) by {
        assert(g(j, pre[j])[0] == v);
    }
    lemma_gather_holds(pre, g, j, v);
    let vars = gather(pre, g);
    let k = choose|k: int| 0 <= k < vars.len() && vars[k] == v;
    assert(is_division_var(vars, open_blocks(pre), fn_key(f), (e.kind->Binary_lhs).span.text@)) by {
        assert(vars[k].0 == fn_key(f) && open_blocks(pre)[m] == (Some(fn_key(f)), vars[k].1));
    }
}

/// An expression that is not a multiplication is never reported as one.
pub proof fn law_division_only_on_multiplication<'a>(evs: Seq<Event<'a>>, i: int, ev: Event<'a>)
    requires
        !(ev matches Event::Expr(_, e) && e.kind matches ExprKind::Binary { op: BinaryOp::Mul, .. }),
    ensures
        division_before_multiplication_at(evs, i, ev).len() == 0,
{
}

/// A function whose body ends, with no final expression, in the statement `return v;` (or
/// `return;`), is reported once, as low, at that last statement, whatever comes before it; one
/// whose body ends in a final expression `return v` is reported at that expression; one whose
/// body ends in anything else is not reported.
pub proof fn law_explicit_return_reported<'a>(i: int, c: Ctx<'a>, f: &'a ItemFn)
    ensures
        ({
            let st = f.body.statements@;
            let r = explicit_return_at(i, Event::Fn(c, f));
            match f.body.final_expr {
                Some(x) => if x.kind is Return {
                    r.len() == 1 && r[0].1 == x.span.start && r[0].2 == Severity::Low
                } else {
                    r.len() == 0
                },
                None => if st.len() > 0 && return_statement(st[st.len() - 1]) {
                    r.len() == 1 && r[0].1 == st[st.len() - 1].span.start && r[0].2 == Severity::Low
                } else {
                    r.len() == 0
                },
            }
        }),
{
}

/// A statement `return v;` or `return;`.
pub open spec fn return_statement(s: Statement) -> bool {
    s.kind matches StatementKind::Expr { expr, .. } && expr.kind is Return
}

/// Only the start of a function is reported as an explicit return.
pub proof fn law_explicit_return_only_at_functions<'a>(i: int, ev: Event<'a>)
    requires
        !(ev is Fn),
    ensures
        explicit_return_at(i, ev).len() == 0,
{
}

/// Every inline assembly block is reported once, as medium, at the block, whatever item it
/// stands in (a free function, a method of an `impl` block or anything else); nothing else is.
pub proof fn law_inline_assembly_reported<'a>(i: int, ev: Event<'a>)
    ensures
        ev is AsmBlock ==> inline_assembly_at(i, ev).len() == 1 && inline_assembly_at(i, ev)[0].0 == i
            && inline_assembly_at(i, ev)[0].2 == Severity::Medium
            && (ev matches Event::AsmBlock(_, a) ==> inline_assembly_at(i, ev)[0].1 == a.span.start),
        !(ev is AsmBlock) ==> inline_assembly_at(i, ev).len() == 0,
{
}

/// The number of inline assembly blocks among the events.
pub open spec fn asm_count<'a>(evs: Seq<Event<'a>>) -> nat
    decreases evs.len(),
{
    if evs.len() == 0 {
        0
    } else {
        asm_count(evs.drop_last()) + if evs.last() is AsmBlock { 1nat } else { 0nat }
    }
}

/// A module's inline assembly findings are as many as its inline assembly blocks.
pub proof fn law_inline_assembly_count<'a>(evs: Seq<Event<'a>>)
    ensures
        gather(evs, |i: int, ev: Event<'a>| inline_assembly_at(i, ev)).len() == asm_count(evs),
    decreases evs.len(),
{
    if evs.len() > 0 {
        law_inline_assembly_count(evs.drop_last());
        law_inline_assembly_reported(evs.len() - 1, evs.last());
    }
}

/// A statement that calls `revert`.
pub open spec fn revert_statement(s: Statement) -> bool {
    s.kind matches StatementKind::Expr { expr, .. } && expr.kind matches ExprKind::FuncApp { func, .. }
        && func.span.text@ == "revert"@
}

/// A block that calls `revert` in an expression statement or in its final expression.
pub open spec fn block_reverts(b: Block) -> bool {
    ||| exists|k: int| 0 <= k < b.statements@.len() && revert_statement(#[trigger] b.statements@[k])
    ||| b.final_expr matches Some(x) && x.kind matches ExprKind::FuncApp { func, .. } && func.span.text@ == "revert"@
}

/// In a function named `nm`, an `if` whose block calls `revert` is a requirement, as is a call
/// of `require`.
pub proof fn law_if_revert_is_requirement<'a>(c: Ctx<'a>, e: &'a Expr, nm: Seq<char>)
    requires
        c.item_fn matches Some(f) && f.fn_signature.name.span.text@ == nm,
        (e.kind matches ExprKind::If(ifx) && block_reverts(ifx.then_block))
            || (e.kind matches ExprKind::FuncApp { func, .. } && func.span.text@ == "require"@),
    ensures
        is_requirement(Event::Expr(c, e), nm),
{
    if e.kind matches ExprKind::If(ifx) && block_reverts(ifx.then_block) {
        let ifx = e.kind->If_0;
        let b = ifx.then_block;
        if exists|k: int| 0 <= k < b.statements@.len() && revert_statement(#[trigger] b.statements@[k]) {
            let k = choose|k: int| 0 <= k < b.statements@.len() && revert_statement(#[trigger] b.statements@[k]);
            assert(crate::utils::is_revert_statement(b.statements@[k]));
        }
    }
}

/// A function that makes a requirement is protected, however many calls deep one looks.
pub proof fn law_requirement_protects<'a>(evs: Seq<Event<'a>>, recs: Seq<InitRec>, k: nat, nm: Seq<char>, m: int)
    requires
        0 <= m < evs.len(),
        is_requirement(evs[m], nm),
    ensures
        protected(evs, recs, k, nm),
    decreases k,
{
    if k > 0 {
        law_requirement_protects(evs, recs, (k - 1) as nat, nm, m);
    }
}

/// Every unprotected-initializer finding is for a function whose name mentions `init` and that
/// is not protected: a protected function, such as one guarded by `if ... { revert(..) }` or
/// `require`, is never reported.
pub proof fn law_init_findings_unprotected<'a>(evs: Seq<Event<'a>>, all: Seq<InitRec>, recs: Seq<InitRec>, x: FindingView)
    requires
        init_findings(evs, all, recs).contains(x),
    ensures
        exists|j: int| 0 <= j < recs.len() && (#[trigger] recs[j]).1 && !protected(evs, all, all.len(), recs[j].0)
            && x.1 == recs[j].3 && x.2 == Severity::High,
    decreases recs.len(),
{
    let rest = init_findings(evs, all, recs.drop_last());
    let r = recs.last();
    let last = if r.1 && !protected(evs, all, all.len(), r.0) {
        crate::detectors::finding(evs.len() as int, r.3, Severity::High, r.2
            + " is an unprotected initializer function. Consider adding a requirement to prevent it from being called multiple times."@)
    } else {
        Seq::empty()
    };
    assert(init_findings(evs, all, recs) == rest + last);
    let t = choose|t: int| 0 <= t < (rest + last).len() && (rest + last)[t] == x;
    if t < rest.len() {
        assert(rest[t] == x);
        law_init_findings_unprotected(evs, all, recs.drop_last(), x);
        let j = choose|j: int| 0 <= j < recs.drop_last().len() && (#[trigger] recs.drop_last()[j]).1
            && !protected(evs, all, all.len(), recs.drop_last()[j].0) && x.1 == recs.drop_last()[j].3 && x.2 == Severity::High;
        assert(recs.drop_last()[j] == recs[j]);
    } else {
        assert(recs[recs.len() - 1] == r);
    }
}

/// An event of a function named `nm` that calls, by its path, the function named `g`.
pub open spec fn path_call_in<'a>(ev: Event<'a>, nm: Seq<char>, g: Seq<char>) -> bool {
    match ev {
        Event::Expr(c, e) => match (c.item_fn, e.kind) {
            (Some(f), ExprKind::FuncApp { func, .. }) => f.fn_signature.name.span.text@ == nm && func.kind is Path
                && func.span.text@ == g,
            _ => false,
        },
        _ => false,
    }
}

/// A function that calls, by its path, a function that makes a requirement is protected, when
/// one looks at least one call deep.
pub proof fn law_protected_through_call<'a>(evs: Seq<Event<'a>>, recs: Seq<InitRec>, k: nat, nm: Seq<char>, j: int,
    call: int, req: int)
    requires
        k >= 1,
        0 <= j < recs.len(),
        0 <= call < evs.len(),
        path_call_in(evs[call], nm, recs[j].0),
        0 <= req < evs.len(),
        is_requirement(evs[req], recs[j].0),
    ensures
        protected(evs, recs, k, nm),
{
    let g = |i: int, x: Event<'a>| calls_of(nm, i, x);
    assert(calls_of(nm, call, evs[call]) == seq![recs[j].0]);
    assert(g(call, evs[call]).contains(recs[j].0)) by {
        assert(g(call, evs[call])[0] == recs[j].0);
    }
    lemma_gather_holds(evs, g, call, recs[j].0);
    law_requirement_protects(evs, recs, (k - 1) as nat, recs[j].0, req);
}

/// What one gathered event gives is in what gathering gives.
proof fn lemma_gather_holds<'a, T>(evs: Seq<Event<'a>>, f: spec_fn(int, Event<'a>) -> Seq<T>, i: int, x: T)
    requires
        0 <= i < evs.len(),
        f(i, evs[i]).contains(x),
    ensures
        gather(evs, f).contains(x),
    decreases evs.len(),
{
    let g0 = gather(evs.drop_last(), f);
    let last = f(evs.len() - 1, evs.last());
    assert(gather(evs, f) == g0 + last);
    if i < evs.len() - 1 {
        assert(evs.drop_last()[i] == evs[i]);
        lemma_gather_holds(evs.drop_last(), f, i, x);
        let t = choose|t: int| 0 <= t < g0.len() && g0[t] == x;
        assert((g0 + last)[t] == x);
    } else {
        let t = choose|t: int| 0 <= t < last.len() && last[t] == x;
        assert((g0 + last)[g0.len() + t] == x);
    }
}

/// An initializer (a function whose name mentions `init`) that is not protected is reported, as
/// high, at its signature.
pub proof fn law_unprotected_init_reported<'a>(evs: Seq<Event<'a>>, all: Seq<InitRec>, recs: Seq<InitRec>, j: int)
    requires
        0 <= j < recs.len(),
        recs[j].1,
        !protected(evs, all, all.len(), recs[j].0),
    ensures
        exists|t: int| 0 <= t < init_findings(evs, all, recs).len()
            && (#[trigger] init_findings(evs, all, recs)[t]).1 == recs[j].3
            && init_findings(evs, all, recs)[t].2 == Severity::High,
    decreases recs.len(),
{
    let rest = init_findings(evs, all, recs.drop_last());
    let r = recs.last();
    let last = if r.1 && !protected(evs, all, all.len(), r.0) {
        crate::detectors::finding(evs.len() as int, r.3, Severity::High, r.2
            + " is an unprotected initializer function. Consider adding a requirement to prevent it from being called multiple times."@)
    } else {
        Seq::empty()
    };
    assert(init_findings(evs, all, recs) == rest + last);
    if j < recs.len() - 1 {
        assert(recs.drop_last()[j] == recs[j]);
        law_unprotected_init_reported(evs, all, recs.drop_last(), j);
        let t = choose|t: int| 0 <= t < rest.len() && (#[trigger] rest[t]).1 == recs[j].3 && rest[t].2 == Severity::High;
        assert((rest + last)[t] == rest[t]);
    } else {
        assert((rest + last)[rest.len() as int] == last[0]);
    }
}

/// Every function of the module is recorded by name, marked as an initializer exactly when its
/// name mentions `init`.
pub proof fn law_init_records_functions<'a>(evs: Seq<Event<'a>>, m: int)
    requires
        0 <= m < evs.len(),
        evs[m] is Fn,
    ensures
        exists|k: int| 0 <= k < init_records(evs).len()
            && (#[trigger] init_records(evs)[k]).0 == (evs[m]->Fn_1).fn_signature.name.span.text@
            && init_records(evs)[k].1 == is_infix("init"@, (evs[m]->Fn_1).fn_signature.name.span.text@),
    decreases evs.len(),
{
    lemma_init_records_names(evs);
    let pre = evs.drop_last();
    let recs = init_records(pre);
    if m < evs.len() - 1 {
        assert(pre[m] == evs[m]);
        law_init_records_functions(pre, m);
        let k = choose|k: int| 0 <= k < recs.len() && (#[trigger] recs[k]).0 == (pre[m]->Fn_1).fn_signature.name.span.text@
            && recs[k].1 == is_infix("init"@, (pre[m]->Fn_1).fn_signature.name.span.text@);
        assert(init_records(evs)[k] == recs[k]);
    } else {
        let nm = (evs[m]->Fn_1).fn_signature.name.span.text@;
        if exists|k: int| 0 <= k < recs.len() && (#[trigger] recs[k]).0 == nm {
            let k = choose|k: int| 0 <= k < recs.len() && (#[trigger] recs[k]).0 == nm;
            assert(init_records(evs)[k] == recs[k]);
        } else {
            assert(init_records(evs)[recs.len() as int].0 == nm);
        }
    }
}

/// Each record of `init_records` is marked as an initializer exactly when its name mentions `init`.
proof fn lemma_init_records_names<'a>(evs: Seq<Event<'a>>)
    ensures
        forall|k: int| 0 <= k < init_records(evs).len()
            ==> (#[trigger] init_records(evs)[k]).1 == is_infix("init"@, init_records(evs)[k].0),
    decreases evs.len(),
{
    if evs.len() > 0 {
        lemma_init_records_names(evs.drop_last());
        let recs = init_records(evs.drop_last());
        assert forall|k: int| 0 <= k < init_records(evs).len()
            implies (#[trigger] init_records(evs)[k]).1 == is_infix("init"@, init_records(evs)[k].0) by {
            if k < recs.len() {
                assert(init_records(evs)[k] == recs[k]);
            }
        }
    }
}

/// A `break` of a function, or an assignment of it that updates the condition of the loop it
/// stands in, inside the body `bk` of a loop of the function with key `key`.
pub open spec fn loop_exit_or_update<'a>(evs: Seq<Event<'a>>, j: int, key: (int, int), bk: (int, int)) -> bool {
    match evs[j] {
        Event::Expr(c, e) => match c.item_fn {
            Some(f) => fn_key(f) == key && {
                let loops = gather(evs.take(j), |k: int, x: Event<'a>| loop_recs(k, x));
                innermost_loop(open_blocks(evs.take(j)), key, loops) == Some(bk) && match e.kind {
                    ExprKind::Break => true,
                    ExprKind::Reassignment { assignable, op, value } => match loop_condition(loops, key, bk) {
                        Some(cond) => updates_condition(cond, assignable, op, *value),
                        None => false,
                    },
                    _ => false,
                }
            },
            None => false,
        },
        _ => false,
    }
}

/// A `while` loop whose body breaks, or updates what its condition reads, is not reported at
/// the end of its body.
pub proof fn law_loop_with_break_or_update_not_reported<'a>(evs: Seq<Event<'a>>, i: int, c: Ctx<'a>, blk: &'a Block, j: int)
    requires
        0 <= j < i < evs.len(),
        evs[i] == Event::LeaveBlock(c, blk),
        c.item_fn is Some,
        loop_exit_or_update(evs, j, fn_key(c.item_fn->0), crate::detectors::block_key(blk)),
    ensures
        infinite_loop_at(evs, i, evs[i]).len() == 0,
{
    let key = fn_key(c.item_fn->0);
    let bk = crate::detectors::block_key(blk);
    let g = |jj: int, x: Event<'a>| loop_marks(evs, jj, x);
    let pre = evs.take(i);
    assert(pre[j] == evs[j]);
    let e = evs[j]->Expr_1;
    let mark: ((int, int), (int, int), u8) = if e.kind is Break { (key, bk, 0u8) } else { (key, bk, 1u8) };
    assert(g(j, pre[j]) == seq![mark]);
    assert(g(j, pre[j]).contains(mark)) by {
        assert(g(j, pre[j])[0] == mark);
    }
    lemma_gather_holds(pre, g, j, mark);
}

/// For a loop condition `a > b` or `a >= b`: `a -= v` or `b += v` updates the condition, as
/// does `a = <subtraction>`. For `a < b` or `a <= b`: `a += v` or `b -= v` updates it, as does
/// `a = <addition>`. For `a == b` or `a != b`,
/// any assignment to either side updates it.
pub proof fn law_loop_condition_updates(cond: Expr, a: Assignable, op: ReassignmentOp, value: Expr)
    requires
        cond.kind matches ExprKind::Binary { op: cop, lhs, rhs } && ({
            let on_lhs = assignable_idents(a) == expr_idents(*lhs);
            let on_rhs = assignable_idents(a) == expr_idents(*rhs);
            let add = value.kind matches ExprKind::Binary { op: BinaryOp::Add, .. };
            let sub = value.kind matches ExprKind::Binary { op: BinaryOp::Sub, .. };
            ||| (cop == BinaryOp::GreaterThan || cop == BinaryOp::GreaterThanEq) && (
                (on_lhs && op == ReassignmentOp::SubEquals) || (on_rhs && op == ReassignmentOp::AddEquals)
                || (on_lhs && op == ReassignmentOp::Equals && sub))
            ||| (cop == BinaryOp::LessThan || cop == BinaryOp::LessThanEq) && (
                (on_lhs && op == ReassignmentOp::AddEquals) || (on_rhs && op == ReassignmentOp::SubEquals)
                || (on_lhs && op == ReassignmentOp::Equals && add))
            ||| (cop == BinaryOp::Equal || cop == BinaryOp::NotEqual) && (on_lhs || on_rhs)
        }),
    ensures
        updates_condition(cond, a, op, value),
{
}

/// The literal `false`.
pub open spec fn false_literal(e: Expr) -> bool {
    e.kind matches ExprKind::Literal(l) && l.kind == crate::ast::LiteralKind::Bool(false)
}

/// A loop condition that calls a function or method is taken as updated by any assignment in
/// the loop; a condition that is a plain flag `a` is updated by `a = false`.
pub proof fn law_loop_condition_call_or_flag(cond: Expr, a: Assignable, op: ReassignmentOp, value: Expr)
    requires
        cond.kind is FuncApp || cond.kind is MethodCall || (cond.kind is Path && op == ReassignmentOp::Equals
            && false_literal(value) && assignable_idents(a) == expr_idents(cond)),
    ensures
        updates_condition(cond, a, op, value),
{
}

/// The literal `true` or `false`, as written.
pub open spec fn bool_literal(e: Expr) -> bool {
    e.kind matches ExprKind::Literal(l) && (l.span.text@ == "true"@ || l.span.text@ == "false"@)
}

/// A comparison `==` or `!=` with `true` or `false` on either side is reported once, as low,
/// at the comparison.
pub proof fn law_boolean_comparison_reported<'a>(i: int, c: Ctx<'a>, e: &'a Expr)
    requires
        e.kind matches ExprKind::Binary { op, lhs, rhs } && (op == BinaryOp::Equal || op == BinaryOp::NotEqual)
            && (bool_literal(*lhs) || bool_literal(*rhs)),
    ensures
        boolean_comparison_at(i, Event::Expr(c, e)).len() == 1,
        boolean_comparison_at(i, Event::Expr(c, e))[0].1 == e.span.start,
        boolean_comparison_at(i, Event::Expr(c, e))[0].2 == Severity::Low,
{
}

/// An `if` whose condition is `true` or `false` is reported once, as low, at the condition.
pub proof fn law_boolean_condition_reported<'a>(i: int, c: Ctx<'a>, e: &'a Expr, ifx: &'a crate::ast::IfExpr)
    requires
        ifx.condition matches crate::ast::IfCondition::Expr(cond) && bool_literal(*cond),
    ensures
        boolean_comparison_at(i, Event::If(c, e, ifx)).len() == 1,
        boolean_comparison_at(i, Event::If(c, e, ifx))[0].1 == (ifx.condition->Expr_0).span.start,
        boolean_comparison_at(i, Event::If(c, e, ifx))[0].2 == Severity::Low,
{
}

/// In a function, `==` with a literal operand on an expression whose text mentions `balance`
/// is reported once, as high.
pub proof fn law_strict_balance_equality_reported<'a>(evs: Seq<Event<'a>>, i: int, c: Ctx<'a>, e: &'a Expr)
    requires
        c.item_fn is Some,
        e.kind matches ExprKind::Binary { op, lhs, rhs } && op == BinaryOp::Equal && (lhs.kind is Literal || rhs.kind is Literal),
        is_infix("balance"@, e.span.text@),
    ensures
        strict_equality_at(evs, i, Event::Expr(c, e)).len() == 1,
        strict_equality_at(evs, i, Event::Expr(c, e))[0].1 == e.span.start,
        strict_equality_at(evs, i, Event::Expr(c, e))[0].2 == Severity::High,
{
}

/// A call of `std::block::timestamp` or `std::block::timestamp_of_block` by its full path.
pub open spec fn timestamp_call(e: Expr) -> bool {
    e.kind matches ExprKind::FuncApp { func, .. } && func.kind matches ExprKind::Path(p)
        && (p.span.text@ == "std::block::timestamp"@ || p.span.text@ == "std::block::timestamp_of_block"@)
}

/// Every call of the block timestamp by its full path is reported once, as medium, wherever it
/// stands.
pub proof fn law_timestamp_call_reported<'a>(evs: Seq<Event<'a>>, i: int, c: Ctx<'a>, e: &'a Expr)
    requires
        timestamp_call(*e),
    ensures
        unsafe_timestamp_at(evs, i, Event::Expr(c, e)).len() == 1,
        unsafe_timestamp_at(evs, i, Event::Expr(c, e))[0].1 == e.span.start,
        unsafe_timestamp_at(evs, i, Event::Expr(c, e))[0].2 == Severity::Medium,
{
}

/// A remainder of the block timestamp, `timestamp() % n` by the full path, is reported once, as
/// medium, as a weak source of randomness.
pub proof fn law_timestamp_remainder_reported<'a>(evs: Seq<Event<'a>>, i: int, c: Ctx<'a>, e: &'a Expr)
    requires
        e.kind matches ExprKind::Binary { op, lhs, .. } && op == BinaryOp::Modulo && timestamp_call(*lhs),
    ensures
        weak_prng_at(evs, i, Event::Expr(c, e)).len() == 1,
        weak_prng_at(evs, i, Event::Expr(c, e))[0].1 == e.span.start,
        weak_prng_at(evs, i, Event::Expr(c, e))[0].2 == Severity::Medium,
{
}

} // verus!
