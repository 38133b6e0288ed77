//! Reports remainders taken of the block timestamp, a weak source of randomness.
use vstd::prelude::*;
use crate::ast::{AssignableKind, BinaryOp, ElementAccess, Expr, ExprKind, PatternKind, StatementKind};
use crate::detectors::{gather, lemma_gather_step, ctx_location, context_location, finding, findings_view, FindingView, Finding,
    fn_key, fn_key_of, open_blocks, lemma_open_blocks_step, BlockStack, strings_contain};
use crate::detectors::unsafe_timestamp_usage::{timestamp_imports, is_timestamp_call};
use crate::report::Severity;
use crate::text::{push_str, str_eq, copy_string, strings_view};
use crate::utils::use_tree_to_name;
use crate::walk::Event;

verus! {

/// A variable of a block of a function, and whether it holds the block timestamp.
pub type TsVar = ((int, int), (int, int), Seq<char>, bool);

/// Whether a name holds the timestamp in one of the open blocks of the function.
pub open spec fn is_timestamp_var(vars: Seq<TsVar>, open: Seq<(Option<(int, int)>, (int, int))>, key: (int, int), nm: Seq<char>) -> bool {
    exists|k: int, m: int| 0 <= k < vars.len() && 0 <= m < open.len() && (#[trigger] vars[k]).0 == key
        && #[trigger] open[m] == (Some(key), vars[k].1) && vars[k].2 == nm && vars[k].3
}

/// The position of the latest variable of the block with the given name.
pub open spec fn latest_var(vars: Seq<TsVar>, key: (int, int), b: (int, int), nm: Seq<char>) -> Option<int>
    decreases vars.len(),
{
    if vars.len() == 0 {
        None
    } else if vars.last().0 == key && vars.last().1 == b && vars.last().2 == nm {
        Some(vars.len() - 1)
    } else {
        latest_var(vars.drop_last(), key, b, nm)
    }
}

/// Whether a value is the timestamp: a call of a timestamp function or a variable holding it.
pub open spec fn holds_timestamp(e: Expr, names: Seq<Seq<char>>, vars: Seq<TsVar>, open: Seq<(Option<(int, int)>, (int, int))>,
    key: (int, int)) -> bool {
    is_timestamp_call(e, names) || is_timestamp_var(vars, open, key, e.span.text@)
}

/// The variables after one more event: a `let` of a single name declares it in the innermost
/// open block; assigning to a name updates its latest declaration there.
pub open spec fn prng_step<'a>(pre: Seq<Event<'a>>, vars: Seq<TsVar>, ev: Event<'a>) -> Seq<TsVar> {
    let names = gather(pre, |k: int, x: Event<'a>| timestamp_imports(k, x));
    let open = open_blocks(pre);
    match ev {
        Event::StatementLet(c, l) => match (c.item_fn, l.pattern.kind) {
            (Some(f), PatternKind::AmbiguousSingleIdent(x)) => if open.len() > 0 {
                vars.push((fn_key(f), open.last().1, x.span.text@, holds_timestamp(l.expr, names, vars, open, fn_key(f))))
            } else {
                vars
            },
            _ => vars,
        },
        Event::Statement(c, s) => match (c.item_fn, s.kind) {
            (Some(f), StatementKind::Expr { expr, .. }) => match expr.kind {
                ExprKind::Reassignment { assignable, value, .. } => match assignable.kind {
                    AssignableKind::ElementAccess(ElementAccess::Var(x)) => if open.len() > 0 {
                        match latest_var(vars, fn_key(f), open.last().1, x.span.text@) {
                            Some(k) => vars.update(k, (vars[k].0, vars[k].1, vars[k].2,
                                holds_timestamp(*value, names, vars, open, fn_key(f)))),
                            None => vars,
                        }
                    } else {
                        vars
                    },
                    _ => vars,
                },
                _ => vars,
            },
            _ => vars,
        },
        _ => vars,
    }
}

/// The variables after the given events.
pub open spec fn prng_state<'a>(evs: Seq<Event<'a>>) -> Seq<TsVar>
    decreases evs.len(),
{
    if evs.len() == 0 {
        Seq::empty()
    } else {
        prng_step(evs.drop_last(), prng_state(evs.drop_last()), evs.last())
    }
}

/// What the detector reports at one event, given the events before it: a remainder of the
/// timestamp or of a variable holding it.
pub open spec fn weak_prng_at<'a>(evs: Seq<Event<'a>>, i: int, ev: Event<'a>) -> Seq<FindingView> {
    let names = gather(evs.take(i), |k: int, x: Event<'a>| timestamp_imports(k, x));
    match ev {
        Event::Expr(c, e) => match e.kind {
            ExprKind::Binary { op: BinaryOp::Modulo, lhs, .. } => {
                let by_var = match c.item_fn {
                    Some(f) => !c.in_const && is_timestamp_var(prng_state(evs.take(i)), open_blocks(evs.take(i)), fn_key(f), lhs.span.text@),
                    None => false,
                };
                if is_timestamp_call(*lhs, names) || by_var {
                    finding(i, e.span.start as int, Severity::Medium, ctx_location(c)
                        + " contains weak PRNG due to dependence on a block timestamp: `"@ + e.span.text@ + "`"@)
                } else {
                    Seq::empty()
                }
            },
            _ => Seq::empty(),
        },
        _ => Seq::empty(),
    }
}

/// The value of a list of variables.
pub open spec fn ts_vars_view(v: Seq<((usize, usize), (usize, usize), String, bool)>) -> Seq<TsVar> {
    v.map_values(|x: ((usize, usize), (usize, usize), String, bool)| ((x.0.0 as int, x.0.1 as int), (x.1.0 as int, x.1.1 as int), x.2@, x.3))
}

fn is_timestamp_call_exec(e: &Expr, names: &Vec<String>) -> (r: bool)
    ensures
        r == is_timestamp_call(*e, strings_view(names@)),
{
    match &e.kind {
        ExprKind::FuncApp { func, .. } => match &func.kind {
            ExprKind::Path(p) => str_eq(p.span.text.as_str(), "std::block::timestamp")
                || str_eq(p.span.text.as_str(), "std::block::timestamp_of_block")
                || strings_contain(names, p.span.text.as_str()),
            _ => false,
        },
        _ => false,
    }
}

fn is_timestamp_var_exec(vars: &Vec<((usize, usize), (usize, usize), String, bool)>, stack: &BlockStack, key: (usize, usize), nm: &str)
    -> (r: bool)
    ensures
        r == is_timestamp_var(ts_vars_view(vars@), stack.view(), (key.0 as int, key.1 as int), nm@),
{
    let ghost vv = ts_vars_view(vars@);
    let ghost open = stack.view();
    let ghost kk = (key.0 as int, key.1 as int);
    let mut k: usize = 0;
    while k < vars.len()
        invariant
            k <= vars@.len(),
            vv == ts_vars_view(vars@),
            open == stack.view(),
            kk == (key.0 as int, key.1 as int),
            forall|a: int, m: int| 0 <= a < k && 0 <= m < open.len() ==> !((#[trigger] vv[a]).0 == kk
                && #[trigger] open[m] == (Some(kk), vv[a].1) && vv[a].2 == nm@ && vv[a].3),
        decreases vars@.len() - k,
    {
        if vars[k].0.0 == key.0 && vars[k].0.1 == key.1 && vars[k].3 && str_eq(vars[k].2.as_str(), nm) {
            let mut m: usize = 0;
            while m < stack.entries.len()
                invariant
                    k < vars@.len(),
                    m <= stack.entries@.len(),
                    vv == ts_vars_view(vars@),
                    open == stack.view(),
                    kk == (key.0 as int, key.1 as int),
                    vv[k as int].0 == kk,
                    vv[k as int].2 == nm@,
                    vv[k as int].3,
                    forall|b: int| 0 <= b < m ==> #[trigger] open[b] != (Some(kk), vv[k as int].1),
                decreases stack.entries@.len() - m,
            {
                let entry = &stack.entries[m];
                let same = match entry.0 {
                    Some(fk) => fk.0 == key.0 && fk.1 == key.1,
                    None => false,
                } && entry.1.0 == vars[k].1.0 && entry.1.1 == vars[k].1.1;
                if same {
                    proof {
                        assert(open[m as int] == (Some(kk), vv[k as int].1));
                        assert(is_timestamp_var(vv, open, kk, nm@));
                    }
                    return true;
                }
                proof {
                    assert(open[m as int] != (Some(kk), vv[k as int].1));
                }
                m = m + 1;
            }
        }
        k = k + 1;
    }
    false
}

fn latest_var_exec(vars: &Vec<((usize, usize), (usize, usize), String, bool)>, key: (usize, usize), b: (usize, usize), nm: &str)
    -> (r: Option<usize>)
    ensures
        match r {
            Some(k) => latest_var(ts_vars_view(vars@), (key.0 as int, key.1 as int), (b.0 as int, b.1 as int), nm@) == Some(k as int)
                && k < vars@.len(),
            None => latest_var(ts_vars_view(vars@), (key.0 as int, key.1 as int), (b.0 as int, b.1 as int), nm@) is None,
        },
{
    let ghost vv = ts_vars_view(vars@);
    let ghost kk = (key.0 as int, key.1 as int);
    let ghost bb = (b.0 as int, b.1 as int);
    let mut k: usize = vars.len();
    proof {
        assert(vv.take(k as int) =~= vv);
    }
    while k > 0
        invariant
            k <= vars@.len(),
            vv == ts_vars_view(vars@),
            kk == (key.0 as int, key.1 as int),
            bb == (b.0 as int, b.1 as int),
            latest_var(vv, kk, bb, nm@) == latest_var(vv.take(k as int), kk, bb, nm@),
        decreases k,
    {
        proof {
            assert(vv.take(k as int).last() == vv[k - 1]);
            assert(vv.take(k as int).drop_last() =~= vv.take(k - 1));
        }
        let x = &vars[k - 1];
        if x.0.0 == key.0 && x.0.1 == key.1 && x.1.0 == b.0 && x.1.1 == b.1 && str_eq(x.2.as_str(), nm) {
            return Some(k - 1);
        }
        k = k - 1;
    }
    None
}

/// The detector of this module; `detect` runs it over the events of a module.
pub struct WeakPrngVisitor;

impl WeakPrngVisitor {
    /// Reports the weak randomness among the events of a module.
    pub fn detect<'a>(&self, events: &Vec<Event<'a>>) -> (r: Vec<Finding>)
        ensures
            findings_view(r@) == gather(events@, |i: int, ev: Event<'a>| weak_prng_at(events@, i, ev)),
    {
        let ghost f = |i: int, ev: Event<'a>| weak_prng_at(events@, i, ev);
        let ghost gn = |k: int, x: Event<'a>| timestamp_imports(k, x);
        let mut r: Vec<Finding> = Vec::new();
        let mut names: Vec<String> = Vec::new();
        let mut vars: Vec<((usize, usize), (usize, usize), String, bool)> = Vec::new();
        let mut stack = BlockStack::new();
        let mut i: usize = 0;
        while i < events.len()
            invariant
                i <= events@.len(),
                f == (|i: int, ev: Event<'a>| weak_prng_at(events@, i, ev)),
                gn == (|k: int, x: Event<'a>| timestamp_imports(k, x)),
                findings_view(r@) == gather(events@.take(i as int), f),
                strings_view(names@) == gather(events@.take(i as int), gn),
                ts_vars_view(vars@) == prng_state(events@.take(i as int)),
                stack.view() == open_blocks(events@.take(i as int)),
            decreases events@.len() - i,
        {
            proof {
                lemma_gather_step(events@, f, i as int);
                lemma_gather_step(events@, gn, i as int);
                lemma_open_blocks_step(events@, i as int);
                assert(events@.take(i + 1).drop_last() =~= events@.take(i as int));
                assert(events@.take(i + 1).last() == events@[i as int]);
            }
            let ghost before = findings_view(r@);
            let ghost names_before = strings_view(names@);
            let ghost vars_before = ts_vars_view(vars@);
            let ev = &events[i];
            match ev {
                Event::Use(_, u) => {
                    match use_tree_to_name(&u.tree, "std::block::timestamp") {
                        Some(n) => names.push(n),
                        None => {},
                    }
                    match use_tree_to_name(&u.tree, "std::block::timestamp_of_block") {
                        Some(n) => names.push(n),
                        None => {},
                    }
                },
                Event::StatementLet(c, l) => {
                    match (c.item_fn, &l.pattern.kind) {
                        (Some(func), PatternKind::AmbiguousSingleIdent(x)) => if stack.entries.len() > 0 {
                            let key = fn_key_of(func);
                            let inner = stack.entries[stack.entries.len() - 1].1;
                            let ts = is_timestamp_call_exec(&l.expr, &names)
                                || is_timestamp_var_exec(&vars, &stack, key, l.expr.span.text.as_str());
                            vars.push((key, inner, copy_string(x.span.text.as_str()), ts));
                            proof {
                                assert(ts_vars_view(vars@) =~= vars_before.push(((key.0 as int, key.1 as int), (inner.0 as int, inner.1 as int), x.span.text@, ts)));
                            }
                        },
                        _ => {},
                    }
                },
                Event::Statement(c, s) => {
                    match (c.item_fn, &s.kind) {
                        (Some(func), StatementKind::Expr { expr, .. }) => match &expr.kind {
                            ExprKind::Reassignment { assignable, value, .. } => match &assignable.kind {
                                AssignableKind::ElementAccess(ElementAccess::Var(x)) => if stack.entries.len() > 0 {
                                    let key = fn_key_of(func);
                                    let inner = stack.entries[stack.entries.len() - 1].1;
                                    let ts = is_timestamp_call_exec(value, &names)
                                        || is_timestamp_var_exec(&vars, &stack, key, value.span.text.as_str());
                                    match latest_var_exec(&vars, key, inner, x.span.text.as_str()) {
                                        Some(k) => {
                                            let old_key = vars[k].0;
                                            let old_block = vars[k].1;
                                            let old_name = copy_string(vars[k].2.as_str());
                                            vars.set(k, (old_key, old_block, old_name, ts));
                                            proof {
                                                assert(ts_vars_view(vars@) =~= vars_before.update(k as int,
                                                    (vars_before[k as int].0, vars_before[k as int].1, vars_before[k as int].2, ts)));
                                            }
                                        },
                                        None => {},
                                    }
                                },
                                _ => {},
                            },
                            _ => {},
                        },
                        _ => {},
                    }
                },
                Event::Expr(c, e) => {
                    match &e.kind {
                        ExprKind::Binary { op: BinaryOp::Modulo, lhs, .. } => {
                            let by_var = match c.item_fn {
                                Some(func) => !c.in_const && is_timestamp_var_exec(&vars, &stack, fn_key_of(func), lhs.span.text.as_str()),
                                None => false,
                            };
                            if is_timestamp_call_exec(lhs, &names) || by_var {
                                let mut text = context_location(c);
                                push_str(&mut text, " contains weak PRNG due to dependence on a block timestamp: `");
                                push_str(&mut text, e.span.text.as_str());
                                push_str(&mut text, "`");
                                r.push(Finding { event: i, start: e.span.start, severity: Severity::Medium, text, reference: None });
                            }
                        },
                        _ => {},
                    }
                },
                _ => {},
            }
            proof {
                assert(strings_view(names@) =~= names_before + gn(i as int, events@[i as int]));
                assert(ts_vars_view(vars@) == prng_step(events@.take(i as int), vars_before, events@[i as int]));
                assert(findings_view(r@) =~= before + f(i as int, events@[i as int]));
            }
            stack.step(ev);
            i = i + 1;
        }
        proof {
            assert(events@.take(i as int) =~= events@);
        }
        r
    }
}

} // verus!
