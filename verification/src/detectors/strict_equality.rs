//! Reports strict equality checks on balances.
use vstd::prelude::*;
use crate::ast::{BinaryOp, Expr, ExprKind, LiteralKind, StatementKind};
use crate::detectors::{gather, lemma_gather_step, ctx_location, context_location, finding, findings_view, FindingView, Finding,
    opt_seq, keys_view, keys_contain, strings_contain, any_string_in, ctx_fn_key, ctx_fn_key_of, fn_key};
use crate::report::Severity;
use crate::text::{push_str, str_eq, str_contains, strings_view, is_infix};
use crate::utils::{use_tree_name, use_tree_to_name};
use crate::walk::{Ctx, Event, ItemRef};

verus! {

/// The variables that hold a balance: each `let` whose value mentions `balance`, with the key
/// of its function and the text of its pattern.
pub open spec fn balance_vars<'a>(j: int, ev: Event<'a>) -> Seq<((int, int), Seq<char>)> {
    match ev {
        Event::StatementLet(c, l) => match c.item_fn {
            Some(f) => if is_infix("balance"@, l.expr.span.text@) {
                seq![(fn_key(f), l.pattern.span.text@)]
            } else {
                Seq::empty()
            },
            None => Seq::empty(),
        },
        _ => Seq::empty(),
    }
}

/// Whether an expression mentions a balance: the word itself or a balance variable of its
/// function.
pub open spec fn mentions_balance(e: Expr, key: (int, int), vars: Seq<((int, int), Seq<char>)>) -> bool {
    is_infix("balance"@, e.span.text@)
        || exists|k: int| 0 <= k < vars.len() && (#[trigger] vars[k]).0 == key && is_infix(vars[k].1, e.span.text@)
}

/// What the detector reports at one event, given the events before it: an `==` in a function,
/// with a literal operand, on an expression that mentions a balance.
pub open spec fn strict_equality_at<'a>(evs: Seq<Event<'a>>, i: int, ev: Event<'a>) -> Seq<FindingView> {
    match ev {
        Event::Expr(c, e) => match c.item_fn {
            Some(f) => match e.kind {
                ExprKind::Binary { op, lhs, rhs } => if op == BinaryOp::Equal && (lhs.kind is Literal || rhs.kind is Literal)
                    && mentions_balance(*e, fn_key(f), gather(evs.take(i), |j: int, x: Event<'a>| balance_vars(j, x))) {
                    finding(i, e.span.start as int, Severity::High, ctx_location(c) + " contains a strict equality check: `"@
                        + e.span.text@ + "`. Don't use strict equality to determine if an account has enough balance."@)
                } else {
                    Seq::empty()
                },
                _ => Seq::empty(),
            },
            None => Seq::empty(),
        },
        _ => Seq::empty(),
    }
}

/// The value of a list of balance variables.
pub open spec fn vars_view(v: Seq<((usize, usize), String)>) -> Seq<((int, int), Seq<char>)> {
    v.map_values(|x: ((usize, usize), String)| ((x.0.0 as int, x.0.1 as int), x.1@))
}

fn mentions(e: &Expr, key: (usize, usize), vars: &Vec<((usize, usize), String)>) -> (r: bool)
    ensures
        r == mentions_balance(*e, (key.0 as int, key.1 as int), vars_view(vars@)),
{
    if str_contains(e.span.text.as_str(), "balance") {
        return true;
    }
    let mut k: usize = 0;
    while k < vars.len()
        invariant
            k <= vars@.len(),
            forall|m: int| 0 <= m < k ==> !((#[trigger] vars_view(vars@)[m]).0 == (key.0 as int, key.1 as int)
                && is_infix(vars_view(vars@)[m].1, e.span.text@)),
        decreases vars@.len() - k,
    {
        if vars[k].0.0 == key.0 && vars[k].0.1 == key.1 && str_contains(e.span.text.as_str(), vars[k].1.as_str()) {
            proof {
                assert(vars_view(vars@)[k as int].0 == (key.0 as int, key.1 as int));
            }
            return true;
        }
        k = k + 1;
    }
    false
}

/// The detector of this module; `detect` runs it over the events of a module.
pub struct StrictEqualityVisitor;

impl StrictEqualityVisitor {
    /// Reports the strict equality checks on balances among the events of a module.
    pub fn detect<'a>(&self, events: &Vec<Event<'a>>) -> (r: Vec<Finding>)
        ensures
            findings_view(r@) == gather(events@, |i: int, ev: Event<'a>| strict_equality_at(events@, i, ev)),
    {
        let ghost f = |i: int, ev: Event<'a>| strict_equality_at(events@, i, ev);
        let ghost g = |j: int, x: Event<'a>| balance_vars(j, x);
        let mut r: Vec<Finding> = Vec::new();
        let mut vars: Vec<((usize, usize), String)> = Vec::new();
        let mut i: usize = 0;
        while i < events.len()
            invariant
                i <= events@.len(),
                f == (|i: int, ev: Event<'a>| strict_equality_at(events@, i, ev)),
                g == (|j: int, x: Event<'a>| balance_vars(j, x)),
                findings_view(r@) == gather(events@.take(i as int), f),
                vars_view(vars@) == gather(events@.take(i as int), g),
            decreases events@.len() - i,
        {
            proof {
                lemma_gather_step(events@, f, i as int);
                lemma_gather_step(events@, g, i as int);
            }
            let ghost before = findings_view(r@);
            let ghost vars_before = vars_view(vars@);
            match &events[i] {
                Event::StatementLet(c, l) => {
                    match c.item_fn {
                        Some(func) => if str_contains(l.expr.span.text.as_str(), "balance") {
                            let key = crate::detectors::fn_key_of(func);
                            vars.push((key, crate::text::copy_string(l.pattern.span.text.as_str())));
                        },
                        None => {},
                    }
                    proof {
                        assert(vars_view(vars@) =~= vars_before + g(i as int, events@[i as int]));
                        assert(findings_view(r@) =~= before + f(i as int, events@[i as int]));
                    }
                },
                Event::Expr(c, e) => {
                    match c.item_fn {
                        Some(func) => match &e.kind {
                            ExprKind::Binary { op, lhs, rhs } => {
                                let lit = match (&lhs.kind, &rhs.kind) {
                                    (ExprKind::Literal(_), _) => true,
                                    (_, ExprKind::Literal(_)) => true,
                                    _ => false,
                                };
                                if *op == BinaryOp::Equal && lit && mentions(e, crate::detectors::fn_key_of(func), &vars) {
                                    let mut text = context_location(c);
                                    push_str(&mut text, " contains a strict equality check: `");
                                    push_str(&mut text, e.span.text.as_str());
                                    push_str(&mut text, "`. Don't use strict equality to determine if an account has enough balance.");
                                    r.push(Finding { event: i, start: e.span.start, severity: Severity::High, text, reference: None });
                                }
                            },
                            _ => {},
                        },
                        None => {},
                    }
                    proof {
                        assert(vars_view(vars@) =~= vars_before + g(i as int, events@[i as int]));
                        assert(findings_view(r@) =~= before + f(i as int, events@[i as int]));
                    }
                },
                _ => {
                    proof {
                        assert(vars_view(vars@) =~= vars_before + g(i as int, events@[i as int]));
                        assert(findings_view(r@) =~= before + f(i as int, events@[i as int]));
                    }
                },
            }
            i = i + 1;
        }
        proof {
            assert(events@.take(i as int) =~= events@);
        }
        r
    }
}

} // verus!
