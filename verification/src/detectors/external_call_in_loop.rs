//! Reports calls on contract instances made inside loops.
use vstd::prelude::*;
use crate::ast::{Expr, ExprKind, Ident, StatementKind};
use crate::detectors::{gather, lemma_gather_step, ctx_location, context_location, finding, findings_view, FindingView, Finding,
    fn_key, fn_key_of, open_blocks, lemma_open_blocks_step, BlockStack, loop_bodies, in_loop, in_loop_exec, pairs_view};
use crate::report::Severity;
use crate::text::{push_str, str_eq, copy_string};
use crate::utils::{name, derefs, pattern_idents, fold_pattern_idents, expr_idents, fold_expr_idents};
use crate::walk::Event;

verus! {

/// A variable of a block of a function, and whether it holds a contract instance (`abi(..)`).
pub type AbiVar = ((int, int), (int, int), Seq<char>, bool);

/// The variables a `let` declares in the innermost open block.
pub open spec fn abi_vars<'a>(evs: Seq<Event<'a>>, j: int, ev: Event<'a>) -> Seq<AbiVar> {
    match ev {
        Event::Statement(c, s) => match (c.item_fn, s.kind) {
            (Some(f), StatementKind::Let(l)) => {
                let open = open_blocks(evs.take(j));
                let ids = pattern_idents(l.pattern);
                if open.len() == 0 {
                    Seq::empty()
                } else if ids.len() == 1 {
                    seq![(fn_key(f), open.last().1, name(ids[0]), l.expr.kind is AbiCast)]
                } else {
                    ids.map_values(|x: Ident| (fn_key(f), open.last().1, name(x), false))
                }
            },
            _ => Seq::empty(),
        },
        _ => Seq::empty(),
    }
}

/// Whether a contract instance with the given name lives in an open block of the function.
pub open spec fn is_abi_var(vars: Seq<AbiVar>, open: Seq<(Option<(int, int)>, (int, int))>, key: (int, int), nm: Seq<char>) -> bool {
    exists|k: int, m: int| 0 <= k < vars.len() && 0 <= m < open.len() && (#[trigger] vars[k]).0 == key
        && #[trigger] open[m] == (Some(key), vars[k].1) && vars[k].2 == nm && vars[k].3
}

/// What the detector reports at one event, given the events before it: inside a loop, a method
/// call on a contract instance, named or made in place.
pub open spec fn external_call_at<'a>(evs: Seq<Event<'a>>, i: int, ev: Event<'a>) -> Seq<FindingView> {
    let open = open_blocks(evs.take(i));
    let loops = gather(evs.take(i), |j: int, x: Event<'a>| loop_bodies(j, x));
    let vars = gather(evs.take(i), |j: int, x: Event<'a>| abi_vars(evs, j, x));
    match ev {
        Event::Expr(c, e) => match (c.item_fn, e.kind) {
            (Some(f), ExprKind::MethodCall { target, .. }) => if in_loop(open, loops, fn_key(f)) && (match target.kind {
                ExprKind::Path(_) => {
                    let ids = expr_idents(*target);
                    ids.len() == 1 && is_abi_var(vars, open, fn_key(f), name(ids[0]))
                },
                ExprKind::AbiCast { .. } => true,
                _ => false,
            }) {
                finding(i, e.span.start as int, Severity::Medium, ctx_location(c) + " performs an external call in a loop: `"@
                    + e.span.text@ + "`"@)
            } else {
                Seq::empty()
            },
            _ => Seq::empty(),
        },
        _ => Seq::empty(),
    }
}

/// The value of a list of variables.
pub open spec fn abi_vars_view(v: Seq<((usize, usize), (usize, usize), String, bool)>) -> Seq<AbiVar> {
    v.map_values(|x: ((usize, usize), (usize, usize), String, bool)| ((x.0.0 as int, x.0.1 as int), (x.1.0 as int, x.1.1 as int), x.2@, x.3))
}

fn is_abi_var_exec(vars: &Vec<((usize, usize), (usize, usize), String, bool)>, stack: &BlockStack, key: (usize, usize), nm: &str) -> (r: bool)
    ensures
        r == is_abi_var(abi_vars_view(vars@), stack.view(), (key.0 as int, key.1 as int), nm@),
{
    let ghost vv = abi_vars_view(vars@);
    let ghost open = stack.view();
    let ghost kk = (key.0 as int, key.1 as int);
    let mut k: usize = 0;
    while k < vars.len()
        invariant
            k <= vars@.len(),
            vv == abi_vars_view(vars@),
            open == stack.view(),
            kk == (key.0 as int, key.1 as int),
            forall|a: int, m: int| 0 <= a < k && 0 <= m < open.len() ==> !((#[trigger] vv[a]).0 == kk
                && #[trigger] open[m] == (Some(kk), vv[a].1) && vv[a].2 == nm@ && vv[a].3),
        decreases vars@.len() - k,
    {
        if vars[k].0.0 == key.0 && vars[k].0.1 == key.1 && vars[k].3 && str_eq(vars[k].2.as_str(), nm) {
            let mut m: usize = 0;
            while m < stack.entries.len()
                invariant
                    k < vars@.len(),
                    m <= stack.entries@.len(),
                    vv == abi_vars_view(vars@),
                    open == stack.view(),
                    kk == (key.0 as int, key.1 as int),
                    vv[k as int].0 == kk,
                    vv[k as int].2 == nm@,
                    vv[k as int].3,
                    forall|b: int| 0 <= b < m ==> #[trigger] open[b] != (Some(kk), vv[k as int].1),
                decreases stack.entries@.len() - m,
            {
                let entry = &stack.entries[m];
                let same = match entry.0 {
                    Some(fk) => fk.0 == key.0 && fk.1 == key.1,
                    None => false,
                } && entry.1.0 == vars[k].1.0 && entry.1.1 == vars[k].1.1;
                if same {
                    proof {
                        assert(open[m as int] == (Some(kk), vv[k as int].1));
                        assert(is_abi_var(vv, open, kk, nm@));
                    }
                    return true;
                }
                proof {
                    assert(open[m as int] != (Some(kk), vv[k as int].1));
                }
                m = m + 1;
            }
        }
        k = k + 1;
    }
    false
}

/// The detector of this module; `detect` runs it over the events of a module.
pub struct ExternalCallInLoopVisitor;

impl ExternalCallInLoopVisitor {
    /// Reports the external calls in loops among the events of a module.
    pub fn detect<'a>(&self, events: &Vec<Event<'a>>) -> (r: Vec<Finding>)
        ensures
            findings_view(r@) == gather(events@, |i: int, ev: Event<'a>| external_call_at(events@, i, ev)),
    {
        let ghost f = |i: int, ev: Event<'a>| external_call_at(events@, i, ev);
        let ghost gl = |j: int, x: Event<'a>| loop_bodies(j, x);
        let ghost gv = |j: int, x: Event<'a>| abi_vars(events@, j, x);
        let mut r: Vec<Finding> = Vec::new();
        let mut loops: Vec<((usize, usize), (usize, usize))> = Vec::new();
        let mut vars: Vec<((usize, usize), (usize, usize), String, bool)> = Vec::new();
        let mut stack = BlockStack::new();
        let mut i: usize = 0;
        while i < events.len()
            invariant
                i <= events@.len(),
                f == (|i: int, ev: Event<'a>| external_call_at(events@, i, ev)),
                gl == (|j: int, x: Event<'a>| loop_bodies(j, x)),
                gv == (|j: int, x: Event<'a>| abi_vars(events@, j, x)),
                findings_view(r@) == gather(events@.take(i as int), f),
                pairs_view(loops@) == gather(events@.take(i as int), gl),
                abi_vars_view(vars@) == gather(events@.take(i as int), gv),
                stack.view() == open_blocks(events@.take(i as int)),
            decreases events@.len() - i,
        {
            proof {
                lemma_gather_step(events@, f, i as int);
                lemma_gather_step(events@, gl, i as int);
                lemma_gather_step(events@, gv, i as int);
                lemma_open_blocks_step(events@, i as int);
            }
            let ghost before = findings_view(r@);
            let ghost loops_before = pairs_view(loops@);
            let ghost vars_before = abi_vars_view(vars@);
            let ev = &events[i];
            match ev {
                Event::While(c, _, _, body) => {
                    match c.item_fn {
                        Some(func) => loops.push((fn_key_of(func), (body.span.start, body.span.end))),
                        None => {},
                    }
                },
                Event::Statement(c, s) => {
                    match (c.item_fn, &s.kind) {
                        (Some(func), StatementKind::Let(l)) => if stack.entries.len() > 0 {
                            let key = fn_key_of(func);
                            let inner = stack.entries[stack.entries.len() - 1].1;
                            let ids = fold_pattern_idents(&l.pattern);
                            if ids.len() == 1 {
                                let abi = match &l.expr.kind {
                                    ExprKind::AbiCast { .. } => true,
                                    _ => false,
                                };
                                vars.push((key, inner, copy_string(ids[0].span.text.as_str()), abi));
                            } else {
                                let mut k: usize = 0;
                                while k < ids.len()
                                    invariant
                                        k <= ids@.len(),
                                        abi_vars_view(vars@) == vars_before + derefs(ids@).take(k as int)
                                            .map_values(|x: Ident| ((key.0 as int, key.1 as int), (inner.0 as int, inner.1 as int), name(x), false)),
                                    decreases ids@.len() - k,
                                {
                                    let ghost vb = abi_vars_view(vars@);
                                    vars.push((key, inner, copy_string(ids[k].span.text.as_str()), false));
                                    proof {
                                        assert(abi_vars_view(vars@) =~= vb.push(((key.0 as int, key.1 as int), (inner.0 as int, inner.1 as int), ids@[k as int].span.text@, false)));
                                        assert(derefs(ids@).take(k + 1) =~= derefs(ids@).take(k as int).push(*ids@[k as int]));
                                        assert(abi_vars_view(vars@) =~= vars_before + derefs(ids@).take(k + 1)
                                            .map_values(|x: Ident| ((key.0 as int, key.1 as int), (inner.0 as int, inner.1 as int), name(x), false)));
                                    }
                                    k = k + 1;
                                }
                                proof {
                                    assert(derefs(ids@).take(k as int) =~= derefs(ids@));
                                }
                            }
                        },
                        _ => {},
                    }
                },
                Event::Expr(c, e) => {
                    match (c.item_fn, &e.kind) {
                        (Some(func), ExprKind::MethodCall { target, .. }) => {
                            let key = fn_key_of(func);
                            if in_loop_exec(&stack, &loops, key) {
                                let hit = match &target.kind {
                                    ExprKind::Path(_) => {
                                        let ids = fold_expr_idents(target);
                                        ids.len() == 1 && is_abi_var_exec(&vars, &stack, key, ids[0].span.text.as_str())
                                    },
                                    ExprKind::AbiCast { .. } => true,
                                    _ => false,
                                };
                                if hit {
                                    let mut text = context_location(c);
                                    push_str(&mut text, " performs an external call in a loop: `");
                                    push_str(&mut text, e.span.text.as_str());
                                    push_str(&mut text, "`");
                                    r.push(Finding { event: i, start: e.span.start, severity: Severity::Medium, text, reference: None });
                                }
                            }
                        },
                        _ => {},
                    }
                },
                _ => {},
            }
            proof {
                assert(pairs_view(loops@) =~= loops_before + gl(i as int, events@[i as int]));
                assert(abi_vars_view(vars@) =~= vars_before + gv(i as int, events@[i as int]));
                assert(findings_view(r@) =~= before + f(i as int, events@[i as int]));
            }
            stack.step(ev);
            i = i + 1;
        }
        proof {
            assert(events@.take(i as int) =~= events@);
        }
        r
    }
}

} // verus!
