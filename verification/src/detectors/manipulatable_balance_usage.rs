//! Reports transfers whose amount derives from a balance kept in storage.
use vstd::prelude::*;
use crate::ast::{AnnotatedField, BinaryOp, Expr, ExprKind, Statement, StatementKind, StorageField};
use crate::detectors::{gather, lemma_gather_step, ctx_location, context_location, finding, findings_view, FindingView, Finding, opt_seq};
use crate::report::Severity;
use crate::text::{push_str, str_eq, str_contains, copy_string, strings_view, is_infix};
use crate::utils::{use_tree_name, use_tree_to_name};
use crate::walk::Event;

verus! {

/// The storage fields that one event declares whose declaration mentions `balance`.
pub open spec fn balance_fields<'a>(j: int, ev: Event<'a>) -> Seq<Seq<char>> {
    match ev {
        Event::Storage(_, fields) => fields@.filter(|f: AnnotatedField<StorageField>| is_infix("balance"@, f.value.span.text@))
            .map_values(|f: AnnotatedField<StorageField>| f.value.name.span.text@),
        _ => Seq::empty(),
    }
}

/// The transfer functions checked by their full path.
pub open spec fn token_transfer_paths() -> Seq<Seq<char>> {
    seq!["std::token::transfer"@, "std::token::transfer_to_address"@, "std::token::force_transfer_to_contract"@,
        "std::low_level_call::call_with_function_selector"@]
}

/// The local names under which a `use` item imports the transfer functions.
pub open spec fn token_transfer_imports<'a>(j: int, ev: Event<'a>) -> Seq<Seq<char>> {
    match ev {
        Event::Use(_, u) => opt_seq(use_tree_name(u.tree, "std::token::transfer"@))
            + opt_seq(use_tree_name(u.tree, "std::token::transfer_to_address"@))
            + opt_seq(use_tree_name(u.tree, "std::token::force_transfer_to_contract"@))
            + opt_seq(use_tree_name(u.tree, "std::low_level_call::call_with_function_selector"@)),
        _ => Seq::empty(),
    }
}

/// Whether a statement reads a balance field: its text mentions `storage.<field>`.
pub open spec fn reads_balance(text: Seq<char>, balances: Seq<Seq<char>>) -> bool {
    exists|k: int| 0 <= k < balances.len() && is_infix("storage."@ + #[trigger] balances[k], text)
}

/// The statements that read a balance field, added to those known.
pub open spec fn scan_reads(used: Seq<Seq<char>>, balances: Seq<Seq<char>>, s: Seq<Statement>) -> Seq<Seq<char>>
    decreases s.len(),
{
    if s.len() == 0 {
        used
    } else {
        let u = scan_reads(used, balances, s.drop_last());
        if reads_balance(s.last().span.text@, balances) { u.push(s.last().span.text@) } else { u }
    }
}

/// Whether a text occurs in one of the known statements.
pub open spec fn in_used(used: Seq<Seq<char>>, text: Seq<char>) -> bool {
    exists|k: int| 0 <= k < used.len() && is_infix(text, #[trigger] used[k])
}

/// Whether an expression is arithmetic on two operands (`/`, `*`, `+`, `-`).
pub open spec fn arithmetic_operands(e: Expr) -> Option<(Expr, Expr)> {
    match e.kind {
        ExprKind::Binary { op, lhs, rhs } => if op == BinaryOp::Div || op == BinaryOp::Mul || op == BinaryOp::Add || op == BinaryOp::Sub {
            Some((*lhs, *rhs))
        } else {
            None
        },
        _ => None,
    }
}

/// The `let` statements computing on known statements, added to those known, in turn.
pub open spec fn scan_derived(used: Seq<Seq<char>>, s: Seq<Statement>) -> Seq<Seq<char>>
    decreases s.len(),
{
    if s.len() == 0 {
        used
    } else {
        let u = scan_derived(used, s.drop_last());
        match s.last().kind {
            StatementKind::Let(l) => match arithmetic_operands(l.expr) {
                Some((lhs, rhs)) => if in_used(u, lhs.span.text@) || in_used(u, rhs.span.text@) {
                    u.push(s.last().span.text@)
                } else {
                    u
                },
                None => u,
            },
            _ => u,
        }
    }
}

/// The statements known to derive from balances after the given events.
pub open spec fn balance_uses<'a>(evs: Seq<Event<'a>>) -> Seq<Seq<char>>
    decreases evs.len(),
{
    if evs.len() == 0 {
        Seq::empty()
    } else {
        let pre = evs.drop_last();
        let used = balance_uses(pre);
        match evs.last() {
            Event::Fn(_, f) => scan_derived(scan_reads(used, gather(pre, |j: int, x: Event<'a>| balance_fields(j, x)), f.body.statements@),
                f.body.statements@),
            _ => used,
        }
    }
}

/// Whether a call transfers with an amount derived from a balance.
pub open spec fn is_manipulatable_call(s: Statement, calls: Seq<Seq<char>>, used: Seq<Seq<char>>) -> bool {
    match s.kind {
        StatementKind::Expr { expr, .. } => match expr.kind {
            ExprKind::FuncApp { func, args, .. } => (exists|k: int| 0 <= k < calls.len() && is_infix(func.span.text@, #[trigger] calls[k]))
                && args@.len() > 0 && in_used(used, args@.last().span.text@),
            _ => false,
        },
        _ => false,
    }
}

/// The findings for the calls among the statements.
pub open spec fn manipulatable_findings(i: int, loc: Seq<char>, s: Seq<Statement>, calls: Seq<Seq<char>>, used: Seq<Seq<char>>)
    -> Seq<FindingView>
    decreases s.len(),
{
    if s.len() == 0 {
        Seq::empty()
    } else {
        manipulatable_findings(i, loc, s.drop_last(), calls, used) + if is_manipulatable_call(s.last(), calls, used) {
            match s.last().kind {
                StatementKind::Expr { expr, .. } => finding(i, expr.span.start as int, Severity::Medium,
                    loc + " contains manipulatable balance usage: `"@ + expr.span.text@ + "`"@),
                _ => Seq::empty(),
            }
        } else {
            Seq::empty()
        }
    }
}

/// What the detector reports at one event, given the events before it: at the start of a
/// function, its top-level calls of transfer functions whose last argument derives from a
/// balance kept in storage.
pub open spec fn manipulatable_balance_at<'a>(evs: Seq<Event<'a>>, i: int, ev: Event<'a>) -> Seq<FindingView> {
    match ev {
        Event::Fn(c, f) => manipulatable_findings(i, ctx_location(c), f.body.statements@,
            token_transfer_paths() + gather(evs.take(i), |j: int, x: Event<'a>| token_transfer_imports(j, x)), balance_uses(evs.take(i + 1))),
        _ => Seq::empty(),
    }
}

fn reads_balance_exec(text: &str, balances: &Vec<String>) -> (r: bool)
    ensures
        r == reads_balance(text@, strings_view(balances@)),
{
    let ghost bv = strings_view(balances@);
    let mut k: usize = 0;
    while k < balances.len()
        invariant
            k <= balances@.len(),
            bv == strings_view(balances@),
            forall|m: int| 0 <= m < k ==> !is_infix("storage."@ + #[trigger] bv[m], text@),
        decreases balances@.len() - k,
    {
        let mut needle = String::new();
        push_str(&mut needle, "storage.");
        push_str(&mut needle, balances[k].as_str());
        if str_contains(text, needle.as_str()) {
            proof {
                assert(is_infix("storage."@ + bv[k as int], text@));
            }
            return true;
        }
        k = k + 1;
    }
    false
}

fn in_used_exec(used: &Vec<String>, text: &str) -> (r: bool)
    ensures
        r == in_used(strings_view(used@), text@),
{
    let ghost uv = strings_view(used@);
    let mut k: usize = 0;
    while k < used.len()
        invariant
            k <= used@.len(),
            uv == strings_view(used@),
            forall|m: int| 0 <= m < k ==> !is_infix(text@, #[trigger] uv[m]),
        decreases used@.len() - k,
    {
        if str_contains(used[k].as_str(), text) {
            proof {
                assert(is_infix(text@, uv[k as int]));
            }
            return true;
        }
        k = k + 1;
    }
    false
}

fn arithmetic_operands_exec(e: &Expr) -> (r: Option<(&Expr, &Expr)>)
    ensures
        match arithmetic_operands(*e) {
            Some((a, b)) => r matches Some((x, y)) && *x == a && *y == b,
            None => r is None,
        },
{
    match &e.kind {
        ExprKind::Binary { op, lhs, rhs } => {
            let op = *op;
            if op == BinaryOp::Div || op == BinaryOp::Mul || op == BinaryOp::Add || op == BinaryOp::Sub {
                Some((&**lhs, &**rhs))
            } else {
                None
            }
        },
        _ => None,
    }
}

fn scan_fn(used: &mut Vec<String>, balances: &Vec<String>, stmts: &Vec<Statement>)
    ensures
        strings_view(final(used)@) == scan_derived(scan_reads(strings_view(old(used)@), strings_view(balances@), stmts@), stmts@),
{
    let ghost start = strings_view(used@);
    let ghost bv = strings_view(balances@);
    let mut k: usize = 0;
    while k < stmts.len()
        invariant
            k <= stmts@.len(),
            bv == strings_view(balances@),
            strings_view(used@) == scan_reads(start, bv, stmts@.take(k as int)),
        decreases stmts@.len() - k,
    {
        proof {
            assert(stmts@.take(k + 1).drop_last() =~= stmts@.take(k as int));
            assert(stmts@.take(k + 1).last() == stmts@[k as int]);
        }
        let ghost before = strings_view(used@);
        if reads_balance_exec(stmts[k].span.text.as_str(), balances) {
            used.push(copy_string(stmts[k].span.text.as_str()));
            proof {
                assert(strings_view(used@) =~= before.push(stmts@[k as int].span.text@));
            }
        }
        k = k + 1;
    }
    proof {
        assert(stmts@.take(k as int) =~= stmts@);
    }
    let ghost mid = strings_view(used@);
    let mut k: usize = 0;
    while k < stmts.len()
        invariant
            k <= stmts@.len(),
            strings_view(used@) == scan_derived(mid, stmts@.take(k as int)),
        decreases stmts@.len() - k,
    {
        proof {
            assert(stmts@.take(k + 1).drop_last() =~= stmts@.take(k as int));
            assert(stmts@.take(k + 1).last() == stmts@[k as int]);
        }
        let ghost before = strings_view(used@);
        match &stmts[k].kind {
            StatementKind::Let(l) => match arithmetic_operands_exec(&l.expr) {
                Some((lhs, rhs)) => {
                    if in_used_exec(used, lhs.span.text.as_str()) || in_used_exec(used, rhs.span.text.as_str()) {
                        used.push(copy_string(stmts[k].span.text.as_str()));
                        proof {
                            assert(strings_view(used@) =~= before.push(stmts@[k as int].span.text@));
                        }
                    }
                },
                None => {},
            },
            _ => {},
        }
        k = k + 1;
    }
    proof {
        assert(stmts@.take(k as int) =~= stmts@);
    }
}

/// The detector of this module; `detect` runs it over the events of a module.
pub struct ManipulatableBalanceUsageVisitor;

impl ManipulatableBalanceUsageVisitor {
    /// Reports the manipulatable balance usage among the events of a module.
    pub fn detect<'a>(&self, events: &Vec<Event<'a>>) -> (r: Vec<Finding>)
        ensures
            findings_view(r@) == gather(events@, |i: int, ev: Event<'a>| manipulatable_balance_at(events@, i, ev)),
    {
        let ghost f = |i: int, ev: Event<'a>| manipulatable_balance_at(events@, i, ev);
        let ghost gb = |j: int, x: Event<'a>| balance_fields(j, x);
        let ghost gt = |j: int, x: Event<'a>| token_transfer_imports(j, x);
        let mut r: Vec<Finding> = Vec::new();
        let mut balances: Vec<String> = Vec::new();
        let mut used: Vec<String> = Vec::new();
        let mut calls: Vec<String> = Vec::new();
        calls.push(copy_string("std::token::transfer"));
        calls.push(copy_string("std::token::transfer_to_address"));
        calls.push(copy_string("std::token::force_transfer_to_contract"));
        calls.push(copy_string("std::low_level_call::call_with_function_selector"));
        proof {
            assert(strings_view(calls@) =~= token_transfer_paths() + gather(events@.take(0), gt));
            assert(strings_view(used@) =~= balance_uses(events@.take(0)));
        }
        let mut i: usize = 0;
        while i < events.len()
            invariant
                i <= events@.len(),
                f == (|i: int, ev: Event<'a>| manipulatable_balance_at(events@, i, ev)),
                gb == (|j: int, x: Event<'a>| balance_fields(j, x)),
                gt == (|j: int, x: Event<'a>| token_transfer_imports(j, x)),
                findings_view(r@) == gather(events@.take(i as int), f),
                strings_view(balances@) == gather(events@.take(i as int), gb),
                strings_view(calls@) == token_transfer_paths() + gather(events@.take(i as int), gt),
                strings_view(used@) == balance_uses(events@.take(i as int)),
            decreases events@.len() - i,
        {
            proof {
                lemma_gather_step(events@, f, i as int);
                lemma_gather_step(events@, gb, i as int);
                lemma_gather_step(events@, gt, i as int);
                assert(events@.take(i + 1).drop_last() =~= events@.take(i as int));
                assert(events@.take(i + 1).last() == events@[i as int]);
            }
            let ghost before = findings_view(r@);
            let ghost balances_before = strings_view(balances@);
            let ghost calls_before = strings_view(calls@);
            match &events[i] {
                Event::Use(_, u) => {
                    match use_tree_to_name(&u.tree, "std::token::transfer") { Some(n) => calls.push(n), None => {} }
                    match use_tree_to_name(&u.tree, "std::token::transfer_to_address") { Some(n) => calls.push(n), None => {} }
                    match use_tree_to_name(&u.tree, "std::token::force_transfer_to_contract") { Some(n) => calls.push(n), None => {} }
                    match use_tree_to_name(&u.tree, "std::low_level_call::call_with_function_selector") { Some(n) => calls.push(n), None => {} }
                    proof {
                        assert(strings_view(calls@) =~= calls_before + gt(i as int, events@[i as int]));
                    }
                },
                Event::Storage(_, fields) => {
                    let mut k: usize = 0;
                    while k < fields.len()
                        invariant
                            k <= fields@.len(),
                            strings_view(balances@) == balances_before + fields@.take(k as int)
                                .filter(|f: AnnotatedField<StorageField>| is_infix("balance"@, f.value.span.text@))
                                .map_values(|f: AnnotatedField<StorageField>| f.value.name.span.text@),
                        decreases fields@.len() - k,
                    {
                        let ghost bb = strings_view(balances@);
                        proof {
                            assert(fields@.take(k + 1).drop_last() =~= fields@.take(k as int));
                            assert(fields@.take(k + 1).last() == fields@[k as int]);
                            reveal_with_fuel(Seq::filter, 1);
                        }
                        if str_contains(fields[k].value.span.text.as_str(), "balance") {
                            balances.push(copy_string(fields[k].value.name.span.text.as_str()));
                            proof {
                                assert(strings_view(balances@) =~= bb.push(fields@[k as int].value.name.span.text@));
                            }
                        }
                        proof {
                            assert(strings_view(balances@) =~= balances_before + fields@.take(k + 1)
                                .filter(|f: AnnotatedField<StorageField>| is_infix("balance"@, f.value.span.text@))
                                .map_values(|f: AnnotatedField<StorageField>| f.value.name.span.text@));
                        }
                        k = k + 1;
                    }
                    proof {
                        assert(fields@.take(k as int) =~= fields@);
                        assert(strings_view(balances@) =~= balances_before + gb(i as int, events@[i as int]));
                    }
                },
                Event::Fn(c, func) => {
                    scan_fn(&mut used, &balances, &func.body.statements);
                    let loc = context_location(c);
                    let stmts = &func.body.statements;
                    let ghost uv = strings_view(used@);
                    let ghost cv = strings_view(calls@);
                    let mut k: usize = 0;
                    while k < stmts.len()
                        invariant
                            k <= stmts@.len(),
                            uv == strings_view(used@),
                            cv == strings_view(calls@),
                            findings_view(r@) == before + manipulatable_findings(i as int, loc@, stmts@.take(k as int), cv, uv),
                        decreases stmts@.len() - k,
                    {
                        proof {
                            assert(stmts@.take(k + 1).drop_last() =~= stmts@.take(k as int));
                            assert(stmts@.take(k + 1).last() == stmts@[k as int]);
                        }
                        let ghost fb = findings_view(r@);
                        match &stmts[k].kind {
                            StatementKind::Expr { expr, .. } => match &expr.kind {
                                ExprKind::FuncApp { func: callee, args, .. } => {
                                    let mut known = false;
                                    let mut q: usize = 0;
                                    while q < calls.len()
                                        invariant
                                            q <= calls@.len(),
                                            cv == strings_view(calls@),
                                            known == exists|m: int| 0 <= m < q && is_infix(callee.span.text@, #[trigger] cv[m]),
                                        decreases calls@.len() - q,
                                    {
                                        if str_contains(calls[q].as_str(), callee.span.text.as_str()) {
                                            known = true;
                                        }
                                        proof {
                                            assert(cv[q as int] == calls@[q as int]@);
                                        }
                                        q = q + 1;
                                    }
                                    if known && args.len() > 0 && in_used_exec(&used, args[args.len() - 1].span.text.as_str()) {
                                        let mut text = copy_string(loc.as_str());
                                        push_str(&mut text, " contains manipulatable balance usage: `");
                                        push_str(&mut text, expr.span.text.as_str());
                                        push_str(&mut text, "`");
                                        r.push(Finding { event: i, start: expr.span.start, severity: Severity::Medium, text, reference: None });
                                        proof {
                                            assert(findings_view(r@) =~= fb + finding(i as int, expr.span.start as int, Severity::Medium,
                                                loc@ + " contains manipulatable balance usage: `"@ + expr.span.text@ + "`"@));
                                        }
                                    }
                                },
                                _ => {},
                            },
                            _ => {},
                        }
                        k = k + 1;
                    }
                    proof {
                        assert(stmts@.take(k as int) =~= stmts@);
                    }
                },
                _ => {},
            }
            proof {
                assert(strings_view(balances@) =~= balances_before + gb(i as int, events@[i as int]));
                assert(strings_view(calls@) =~= calls_before + gt(i as int, events@[i as int]));
                assert(findings_view(r@) =~= before + f(i as int, events@[i as int]));
            }
            i = i + 1;
        }
        proof {
            assert(events@.take(i as int) =~= events@);
        }
        r
    }
}

} // verus!
