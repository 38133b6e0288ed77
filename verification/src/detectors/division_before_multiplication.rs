//! Reports multiplications of the result of a division, which truncates first.
use vstd::prelude::*;
use crate::ast::{BinaryOp, Expr, ExprKind, StatementKind};
use crate::detectors::{gather, lemma_gather_step, ctx_location, context_location, finding, findings_view, FindingView, Finding,
    fn_key, fn_key_of, open_blocks, lemma_open_blocks_step, BlockStack};
use crate::report::Severity;
use crate::text::{push_str, str_eq, copy_string};
use crate::walk::Event;

verus! {

/// The variables bound to a division by one event, in the innermost open block.
pub open spec fn division_vars<'a>(evs: Seq<Event<'a>>, j: int, ev: Event<'a>) -> Seq<((int, int), (int, int), Seq<char>)> {
    match ev {
        Event::Statement(c, s) => match (c.item_fn, s.kind) {
            (Some(f), StatementKind::Let(l)) => {
                let open = open_blocks(evs.take(j));
                match l.expr.kind {
                    ExprKind::Binary { op: BinaryOp::Div, .. } => if open.len() > 0 {
                        seq![(fn_key(f), open.last().1, l.pattern.span.text@)]
                    } else {
                        Seq::empty()
                    },
                    _ => Seq::empty(),
                }
            },
            _ => Seq::empty(),
        },
        _ => Seq::empty(),
    }
}

/// Whether an expression is a division, possibly in parentheses.
pub open spec fn is_division(e: Expr) -> bool
    decreases e,
{
    match e.kind {
        ExprKind::Parens(x) => is_division(*x),
        ExprKind::Binary { op, .. } => op == BinaryOp::Div,
        _ => false,
    }
}

/// Whether a name holds a division in one of the open blocks of the function.
pub open spec fn is_division_var(vars: Seq<((int, int), (int, int), Seq<char>)>, open: Seq<(Option<(int, int)>, (int, int))>,
    key: (int, int), nm: Seq<char>) -> bool {
    exists|k: int, m: int| 0 <= k < vars.len() && 0 <= m < open.len() && (#[trigger] vars[k]).0 == key
        && #[trigger] open[m] == (Some(key), vars[k].1) && vars[k].2 == nm
}

/// What the detector reports at one event, given the events before it: a multiplication whose
/// left operand is a division or a variable bound to one.
pub open spec fn division_before_multiplication_at<'a>(evs: Seq<Event<'a>>, i: int, ev: Event<'a>) -> Seq<FindingView> {
    match ev {
        Event::Expr(c, e) => match e.kind {
            ExprKind::Binary { op: BinaryOp::Mul, lhs, .. } => {
                let by_var = match c.item_fn {
                    Some(f) => !c.in_const && is_division_var(gather(evs.take(i), |j: int, x: Event<'a>| division_vars(evs, j, x)),
                        open_blocks(evs.take(i)), fn_key(f), lhs.span.text@),
                    None => false,
                };
                if by_var || is_division(*lhs) {
                    finding(i, e.span.start as int, Severity::Low, ctx_location(c)
                        + " contains a multiplication on the result of a division, which can truncate: `"@ + e.span.text@
                        + "`. Consider refactoring in order to prevent value truncation."@)
                } else {
                    Seq::empty()
                }
            },
            _ => Seq::empty(),
        },
        _ => Seq::empty(),
    }
}

/// The value of a list of division variables.
pub open spec fn division_vars_view(v: Seq<((usize, usize), (usize, usize), String)>) -> Seq<((int, int), (int, int), Seq<char>)> {
    v.map_values(|x: ((usize, usize), (usize, usize), String)| ((x.0.0 as int, x.0.1 as int), (x.1.0 as int, x.1.1 as int), x.2@))
}

fn is_division_exec(e: &Expr) -> (r: bool)
    ensures
        r == is_division(*e),
    decreases e,
{
    match &e.kind {
        ExprKind::Parens(x) => is_division_exec(x),
        ExprKind::Binary { op, .. } => *op == BinaryOp::Div,
        _ => false,
    }
}

fn is_division_var_exec(vars: &Vec<((usize, usize), (usize, usize), String)>, stack: &BlockStack, key: (usize, usize), nm: &str) -> (r: bool)
    ensures
        r == is_division_var(division_vars_view(vars@), stack.view(), (key.0 as int, key.1 as int), nm@),
{
    let ghost vv = division_vars_view(vars@);
    let ghost open = stack.view();
    let ghost kk = (key.0 as int, key.1 as int);
    let mut k: usize = 0;
    while k < vars.len()
        invariant
            k <= vars@.len(),
            vv == division_vars_view(vars@),
            open == stack.view(),
            kk == (key.0 as int, key.1 as int),
            forall|a: int, m: int| 0 <= a < k && 0 <= m < open.len() ==> !((#[trigger] vv[a]).0 == kk
                && #[trigger] open[m] == (Some(kk), vv[a].1) && vv[a].2 == nm@),
        decreases vars@.len() - k,
    {
        if vars[k].0.0 == key.0 && vars[k].0.1 == key.1 && str_eq(vars[k].2.as_str(), nm) {
            let mut m: usize = 0;
            while m < stack.entries.len()
                invariant
                    k < vars@.len(),
                    m <= stack.entries@.len(),
                    vv == division_vars_view(vars@),
                    open == stack.view(),
                    kk == (key.0 as int, key.1 as int),
                    vv[k as int].0 == kk,
                    vv[k as int].2 == nm@,
                    forall|b: int| 0 <= b < m ==> #[trigger] open[b] != (Some(kk), vv[k as int].1),
                decreases stack.entries@.len() - m,
            {
                let entry = &stack.entries[m];
                let same = match entry.0 {
                    Some(fk) => fk.0 == key.0 && fk.1 == key.1,
                    None => false,
                } && entry.1.0 == vars[k].1.0 && entry.1.1 == vars[k].1.1;
                if same {
                    proof {
                        assert(open[m as int] == (Some(kk), vv[k as int].1));
                        assert(is_division_var(vv, open, kk, nm@));
                    }
                    return true;
                }
                proof {
                    assert(open[m as int] != (Some(kk), vv[k as int].1));
                }
                m = m + 1;
            }
        }
        k = k + 1;
    }
    false
}

/// The detector of this module; `detect` runs it over the events of a module.
pub struct DivisionBeforeMultiplicationVisitor;

impl DivisionBeforeMultiplicationVisitor {
    /// Reports the multiplications of divisions among the events of a module.
    pub fn detect<'a>(&self, events: &Vec<Event<'a>>) -> (r: Vec<Finding>)
        ensures
            findings_view(r@) == gather(events@, |i: int, ev: Event<'a>| division_before_multiplication_at(events@, i, ev)),
    {
        let ghost f = |i: int, ev: Event<'a>| division_before_multiplication_at(events@, i, ev);
        let ghost g = |j: int, x: Event<'a>| division_vars(events@, j, x);
        let mut r: Vec<Finding> = Vec::new();
        let mut vars: Vec<((usize, usize), (usize, usize), String)> = Vec::new();
        let mut stack = BlockStack::new();
        let mut i: usize = 0;
        while i < events.len()
            invariant
                i <= events@.len(),
                f == (|i: int, ev: Event<'a>| division_before_multiplication_at(events@, i, ev)),
                g == (|j: int, x: Event<'a>| division_vars(events@, j, x)),
                findings_view(r@) == gather(events@.take(i as int), f),
                division_vars_view(vars@) == gather(events@.take(i as int), g),
                stack.view() == open_blocks(events@.take(i as int)),
            decreases events@.len() - i,
        {
            proof {
                lemma_gather_step(events@, f, i as int);
                lemma_gather_step(events@, g, i as int);
                lemma_open_blocks_step(events@, i as int);
            }
            let ghost before = findings_view(r@);
            let ghost vars_before = division_vars_view(vars@);
            let ev = &events[i];
            match ev {
                Event::Statement(c, s) => {
                    match (c.item_fn, &s.kind) {
                        (Some(func), StatementKind::Let(l)) => match &l.expr.kind {
                            ExprKind::Binary { op: BinaryOp::Div, .. } => if stack.entries.len() > 0 {
                                let inner = stack.entries[stack.entries.len() - 1].1;
                                vars.push((fn_key_of(func), inner, copy_string(l.pattern.span.text.as_str())));
                            },
                            _ => {},
                        },
                        _ => {},
                    }
                },
                Event::Expr(c, e) => {
                    match &e.kind {
                        ExprKind::Binary { op: BinaryOp::Mul, lhs, .. } => {
                            let by_var = match c.item_fn {
                                Some(func) => !c.in_const && is_division_var_exec(&vars, &stack, fn_key_of(func), lhs.span.text.as_str()),
                                None => false,
                            };
                            if by_var || is_division_exec(lhs) {
                                let mut text = context_location(c);
                                push_str(&mut text, " contains a multiplication on the result of a division, which can truncate: `");
                                push_str(&mut text, e.span.text.as_str());
                                push_str(&mut text, "`. Consider refactoring in order to prevent value truncation.");
                                r.push(Finding { event: i, start: e.span.start, severity: Severity::Low, text, reference: None });
                            }
                        },
                        _ => {},
                    }
                },
                _ => {},
            }
            proof {
                assert(division_vars_view(vars@) =~= vars_before + g(i as int, events@[i as int]));
                assert(findings_view(r@) =~= before + f(i as int, events@[i as int]));
            }
            stack.step(ev);
            i = i + 1;
        }
        proof {
            assert(events@.take(i as int) =~= events@);
        }
        r
    }
}

} // verus!
