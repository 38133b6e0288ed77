//! Reports comparisons with a boolean literal, which are unnecessary.
use vstd::prelude::*;
use crate::ast::{BinaryOp, Expr, ExprKind, LiteralKind, StatementKind};
use crate::detectors::{gather, ctx_location, context_location, finding, findings_view, FindingView, lemma_gather_step, Finding, item_location, get_item_location};
use crate::report::Severity;
use crate::text::{push_str, has_prefix, str_starts_with, str_has_char, to_chars, string_from_chars};
use crate::utils::{is_bool_literal_or_negation, is_boolean_literal_or_negation, expr_idents, fold_expr_idents};
use crate::walk::{Ctx, Event};

verus! {

/// The message for a comparison with a boolean literal.
pub open spec fn boolean_comparison_text(loc: Seq<char>, e: Expr) -> Seq<char> {
    loc + " contains a comparison with a boolean literal, which is unnecessary: `"@ + e.span.text@ + "`"@
}

/// What the detector reports at one event: an `if` whose condition is a boolean literal (or a
/// negation of one), and an `==` or `!=` with a boolean literal on either side.
pub open spec fn boolean_comparison_at<'a>(i: int, ev: Event<'a>) -> Seq<FindingView> {
    match ev {
        Event::If(c, _, ifx) => match ifx.condition {
            crate::ast::IfCondition::Expr(cond) => if is_bool_literal_or_negation(*cond) {
                finding(i, cond.span.start as int, Severity::Low, boolean_comparison_text(ctx_location(c), *cond))
            } else {
                Seq::empty()
            },
            _ => Seq::empty(),
        },
        Event::Expr(c, e) => match e.kind {
            ExprKind::Binary { op, lhs, rhs } => if (op == BinaryOp::Equal || op == BinaryOp::NotEqual)
                && (is_bool_literal_or_negation(*lhs) || is_bool_literal_or_negation(*rhs)) {
                finding(i, e.span.start as int, Severity::Low, boolean_comparison_text(ctx_location(c), *e))
            } else {
                Seq::empty()
            },
            _ => Seq::empty(),
        },
        _ => Seq::empty(),
    }
}

fn boolean_comparison_finding(i: usize, c: &Ctx, e: &Expr) -> (r: Finding)
    ensures
        r.event == i,
        r.start == e.span.start,
        r.severity == Severity::Low,
        r.text@ == boolean_comparison_text(ctx_location(*c), *e),
        r.reference is None,
{
    let mut text = context_location(c);
    push_str(&mut text, " contains a comparison with a boolean literal, which is unnecessary: `");
    push_str(&mut text, e.span.text.as_str());
    push_str(&mut text, "`");
    Finding { event: i, start: e.span.start, severity: Severity::Low, text, reference: None }
}

fn boolean_comparison_event<'a>(i: usize, ev: &Event<'a>) -> (r: Vec<Finding>)
    ensures
        findings_view(r@) == boolean_comparison_at(i as int, *ev),
{
    let mut r: Vec<Finding> = Vec::new();
    match ev {
        Event::If(c, _, ifx) => match &ifx.condition {
            crate::ast::IfCondition::Expr(cond) => if is_boolean_literal_or_negation(cond) {
                r.push(boolean_comparison_finding(i, c, cond));
            },
            _ => {},
        },
        Event::Expr(c, e) => match &e.kind {
            ExprKind::Binary { op, lhs, rhs } => if (*op == BinaryOp::Equal || *op == BinaryOp::NotEqual)
                && (is_boolean_literal_or_negation(lhs) || is_boolean_literal_or_negation(rhs)) {
                r.push(boolean_comparison_finding(i, c, e));
            },
            _ => {},
        },
        _ => {},
    }
    proof {
        assert(findings_view(r@) =~= boolean_comparison_at(i as int, *ev));
    }
    r
}

/// The detector of this module; `detect` runs it over the events of a module.
pub struct BooleanComparisonVisitor;

impl BooleanComparisonVisitor {
    /// Reports the comparisons with boolean literals among the events of a module.
    pub fn detect<'a>(&self, events: &Vec<Event<'a>>) -> (r: Vec<Finding>)
        ensures
            findings_view(r@) == gather(events@, |i: int, ev: Event<'a>| boolean_comparison_at(i, ev)),
    {
        let ghost f = |i: int, ev: Event<'a>| boolean_comparison_at(i, ev);
        let mut r: Vec<Finding> = Vec::new();
        let mut i: usize = 0;
        while i < events.len()
            invariant
                i <= events@.len(),
                f == (|i: int, ev: Event<'a>| boolean_comparison_at(i, ev)),
                findings_view(r@) == gather(events@.take(i as int), f),
            decreases events@.len() - i,
        {
            proof {
                lemma_gather_step(events@, f, i as int);
            }
            let ghost before = findings_view(r@);
            let mut more = boolean_comparison_event(i, &events[i]);
            let ghost added = findings_view(more@);
            r.append(&mut more);
            proof {
                assert(findings_view(r@) =~= before + added);
            }
            i = i + 1;
        }
        proof {
            assert(events@.take(i as int) =~= events@);
        }
        r
    }
}

} // verus!
