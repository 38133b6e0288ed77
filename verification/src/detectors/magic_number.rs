//! Reports literals used as operands where a named constant would say more.
use vstd::prelude::*;
use crate::ast::{BinaryOp, Expr, ExprKind, LiteralKind, StatementKind};
use crate::detectors::{gather, lemma_gather_step, ctx_location, context_location, finding, findings_view, FindingView, Finding,
    opt_seq, keys_view, keys_contain, strings_contain, any_string_in, ctx_fn_key, ctx_fn_key_of, fn_key};
use crate::report::Severity;
use crate::text::{push_str, str_eq, str_contains, strings_view, is_infix};
use crate::utils::{use_tree_name, use_tree_to_name};
use crate::walk::{Ctx, Event, ItemRef};

verus! {

/// A literal `0` or `1`, which counts as common and is not reported.
pub open spec fn is_common_literal(e: Expr) -> bool {
    match e.kind {
        ExprKind::Literal(l) => match l.kind {
            LiteralKind::Int(Some(v)) => v == 0 || v == 1,
            _ => false,
        },
        _ => false,
    }
}

/// A binary expression outside constants with a literal operand, neither operand `0` or `1`.
pub open spec fn magic_candidate<'a>(ev: Event<'a>) -> bool {
    match ev {
        Event::Expr(c, e) => {
            &&& !(c.item matches ItemRef::Kind(crate::ast::ItemKind::Const(_))) && !(c.item is Const)
            &&& match e.kind {
                ExprKind::Binary { lhs, rhs, .. } => (lhs.kind is Literal || rhs.kind is Literal)
                    && !is_common_literal(*lhs) && !is_common_literal(*rhs),
                _ => false,
            }
        },
        _ => false,
    }
}

/// The key of the statement of a candidate, which is reported once.
pub open spec fn magic_mark<'a>(j: int, ev: Event<'a>) -> Seq<(int, int)> {
    match ev {
        Event::Expr(c, _) => if magic_candidate(ev) {
            match c.statement {
                Some(s) => seq![(s.span.start as int, s.span.end as int)],
                None => Seq::empty(),
            }
        } else {
            Seq::empty()
        },
        _ => Seq::empty(),
    }
}

/// What the detector reports at one event, given the events before it: a candidate, unless an
/// earlier candidate of the same statement was reported.
pub open spec fn magic_number_at<'a>(evs: Seq<Event<'a>>, i: int, ev: Event<'a>) -> Seq<FindingView> {
    match ev {
        Event::Expr(c, e) => if magic_candidate(ev) && match c.statement {
            Some(s) => !gather(evs.take(i), |j: int, x: Event<'a>| magic_mark(j, x)).contains((s.span.start as int, s.span.end as int)),
            None => true,
        } {
            finding(i, e.span.start as int, Severity::Low, ctx_location(c) + " contains magic number usage: `"@
                + e.span.text@ + "`. Consider introducing a constant value."@)
        } else {
            Seq::empty()
        },
        _ => Seq::empty(),
    }
}

fn is_common(e: &Expr) -> (r: bool)
    ensures
        r == is_common_literal(*e),
{
    match &e.kind {
        ExprKind::Literal(l) => match &l.kind {
            LiteralKind::Int(Some(v)) => *v == 0 || *v == 1,
            _ => false,
        },
        _ => false,
    }
}

fn candidate<'a>(ev: &Event<'a>) -> (r: bool)
    ensures
        r == magic_candidate(*ev),
{
    match ev {
        Event::Expr(c, e) => {
            let in_const = match c.item {
                ItemRef::Kind(crate::ast::ItemKind::Const(_)) => true,
                ItemRef::Const(_) => true,
                _ => false,
            };
            if in_const {
                return false;
            }
            match &e.kind {
                ExprKind::Binary { lhs, rhs, .. } => {
                    let lit = match (&lhs.kind, &rhs.kind) {
                        (ExprKind::Literal(_), _) => true,
                        (_, ExprKind::Literal(_)) => true,
                        _ => false,
                    };
                    lit && !is_common(lhs) && !is_common(rhs)
                },
                _ => false,
            }
        },
        _ => false,
    }
}

/// The detector of this module; `detect` runs it over the events of a module.
pub struct MagicNumberVisitor;

impl MagicNumberVisitor {
    /// Reports the magic numbers among the events of a module, once per statement.
    pub fn detect<'a>(&self, events: &Vec<Event<'a>>) -> (r: Vec<Finding>)
        ensures
            findings_view(r@) == gather(events@, |i: int, ev: Event<'a>| magic_number_at(events@, i, ev)),
    {
        let ghost f = |i: int, ev: Event<'a>| magic_number_at(events@, i, ev);
        let ghost g = |j: int, x: Event<'a>| magic_mark(j, x);
        let mut r: Vec<Finding> = Vec::new();
        let mut marks: Vec<(usize, usize)> = Vec::new();
        let mut i: usize = 0;
        while i < events.len()
            invariant
                i <= events@.len(),
                f == (|i: int, ev: Event<'a>| magic_number_at(events@, i, ev)),
                g == (|j: int, x: Event<'a>| magic_mark(j, x)),
                findings_view(r@) == gather(events@.take(i as int), f),
                keys_view(marks@) == gather(events@.take(i as int), g),
            decreases events@.len() - i,
        {
            proof {
                lemma_gather_step(events@, f, i as int);
                lemma_gather_step(events@, g, i as int);
            }
            let ghost before = findings_view(r@);
            let ghost marks_before = keys_view(marks@);
            let ev = &events[i];
            if candidate(ev) {
                match ev {
                    Event::Expr(c, e) => {
                        let fresh = match c.statement {
                            Some(s) => {
                                let k = (s.span.start, s.span.end);
                                let seen = keys_contain(&marks, k);
                                marks.push(k);
                                !seen
                            },
                            None => true,
                        };
                        if fresh {
                            let mut text = context_location(c);
                            push_str(&mut text, " contains magic number usage: `");
                            push_str(&mut text, e.span.text.as_str());
                            push_str(&mut text, "`. Consider introducing a constant value.");
                            r.push(Finding { event: i, start: e.span.start, severity: Severity::Low, text, reference: None });
                        }
                    },
                    _ => {},
                }
                proof {
                    match events@[i as int] {
                        Event::Expr(c, _) => match c.statement {
                            Some(s) => {
                                assert(keys_view(marks@) =~= marks_before.push((s.span.start as int, s.span.end as int)));
                            },
                            None => {},
                        },
                        _ => {},
                    }
                    assert(keys_view(marks@) =~= marks_before + g(i as int, events@[i as int]));
                    assert(findings_view(r@) =~= before + f(i as int, events@[i as int]));
                }
            } else {
                proof {
                    assert(keys_view(marks@) =~= marks_before + g(i as int, events@[i as int]));
                    assert(findings_view(r@) =~= before + f(i as int, events@[i as int]));
                }
            }
            i = i + 1;
        }
        proof {
            assert(events@.take(i as int) =~= events@);
        }
        r
    }
}

} // verus!
