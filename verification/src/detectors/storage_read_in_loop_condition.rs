//! Reports loop conditions that read the length of a storage collection.
use vstd::prelude::*;
use crate::ast::{BinaryOp, Expr, ExprKind, LiteralKind, StatementKind};
use crate::detectors::{gather, ctx_location, context_location, finding, findings_view, FindingView, lemma_gather_step, Finding, item_location, get_item_location};
use crate::report::Severity;
use crate::text::{push_str, has_prefix, str_starts_with, str_has_char, to_chars, string_from_chars};
use crate::utils::{is_bool_literal_or_negation, is_boolean_literal_or_negation, expr_idents, fold_expr_idents};
use crate::walk::{Ctx, Event};

verus! {

/// The operands of a loop condition, through binary operators, that read `storage. ... .len`.
pub open spec fn storage_len_reads(e: Expr) -> Seq<Expr>
    decreases e,
{
    match e.kind {
        ExprKind::Binary { lhs, rhs, .. } => storage_len_reads(*lhs) + storage_len_reads(*rhs),
        _ => {
            let ids = expr_idents(e);
            if ids.len() >= 3 && ids[0].span.text@ == "storage"@ && ids.last().span.text@ == "len"@ {
                seq![e]
            } else {
                Seq::empty()
            }
        },
    }
}

/// The message for a storage read in a loop condition.
pub open spec fn storage_read_text(loc: Seq<char>, e: Expr) -> Seq<char> {
    "The "@ + loc + " contains a loop with a condition that depends on a storage read: `"@ + e.span.text@
        + "`. Consider storing the expression in a local variable in order to reduce gas costs."@
}

/// The findings for the given storage reads.
pub open spec fn storage_read_findings(i: int, loc: Seq<char>, reads: Seq<Expr>) -> Seq<FindingView>
    decreases reads.len(),
{
    if reads.len() == 0 {
        Seq::empty()
    } else {
        storage_read_findings(i, loc, reads.drop_last())
            + finding(i, reads.last().span.start as int, Severity::Low, storage_read_text(loc, reads.last()))
    }
}

/// The findings for the storage reads of one expression.
pub proof fn lemma_storage_read_findings_append(i: int, loc: Seq<char>, a: Seq<Expr>, b: Seq<Expr>)
    ensures
        storage_read_findings(i, loc, a + b) == storage_read_findings(i, loc, a) + storage_read_findings(i, loc, b),
    decreases b.len(),
{
    if b.len() == 0 {
        assert(a + b =~= a);
    } else {
        lemma_storage_read_findings_append(i, loc, a, b.drop_last());
        assert((a + b).drop_last() =~= a + b.drop_last());
    }
}

/// What the detector reports at one event: each storage length read in a `while` condition.
pub open spec fn storage_read_in_loop_condition_at<'a>(i: int, ev: Event<'a>) -> Seq<FindingView> {
    match ev {
        Event::While(c, _, cond, _) => storage_read_findings(i, ctx_location(c), storage_len_reads(*cond)),
        _ => Seq::empty(),
    }
}

fn find_storage_read(i: usize, loc: &str, e: &Expr, out: &mut Vec<Finding>)
    ensures
        findings_view(final(out)@) == findings_view(old(out)@) + storage_read_findings(i as int, loc@, storage_len_reads(*e)),
    decreases e,
{
    match &e.kind {
        ExprKind::Binary { lhs, rhs, .. } => {
            let ghost start = findings_view(out@);
            find_storage_read(i, loc, lhs, out);
            find_storage_read(i, loc, rhs, out);
            proof {
                lemma_storage_read_findings_append(i as int, loc@, storage_len_reads(**lhs), storage_len_reads(**rhs));
                assert(findings_view(out@) =~= start + storage_read_findings(i as int, loc@, storage_len_reads(*e)));
            }
        },
        _ => {
            let ids = fold_expr_idents(e);
            if ids.len() >= 3 && crate::text::str_eq(ids[0].span.text.as_str(), "storage")
                && crate::text::str_eq(ids[ids.len() - 1].span.text.as_str(), "len") {
                let ghost start = findings_view(out@);
                let mut text = String::new();
                push_str(&mut text, "The ");
                push_str(&mut text, loc);
                push_str(&mut text, " contains a loop with a condition that depends on a storage read: `");
                push_str(&mut text, e.span.text.as_str());
                push_str(&mut text, "`. Consider storing the expression in a local variable in order to reduce gas costs.");
                out.push(Finding { event: i, start: e.span.start, severity: Severity::Low, text, reference: None });
                proof {
                    assert(storage_len_reads(*e) =~= seq![*e]);
                    assert(seq![*e].drop_last() =~= Seq::<Expr>::empty());
                    assert(storage_read_findings(i as int, loc@, Seq::<Expr>::empty()) == Seq::<FindingView>::empty());
                    assert(findings_view(out@) =~= start + finding(i as int, e.span.start as int, Severity::Low, storage_read_text(loc@, *e)));
                    assert(findings_view(out@) =~= start + storage_read_findings(i as int, loc@, storage_len_reads(*e)));
                }
            } else {
                proof {
                    assert(findings_view(out@) =~= findings_view(old(out)@) + storage_read_findings(i as int, loc@, storage_len_reads(*e)));
                }
            }
        },
    }
}

fn storage_read_in_loop_condition_event<'a>(i: usize, ev: &Event<'a>) -> (r: Vec<Finding>)
    ensures
        findings_view(r@) == storage_read_in_loop_condition_at(i as int, *ev),
{
    let mut r: Vec<Finding> = Vec::new();
    match ev {
        Event::While(c, _, cond, _) => {
            let loc = context_location(c);
            find_storage_read(i, loc.as_str(), cond, &mut r);
        },
        _ => {},
    }
    proof {
        assert(findings_view(r@) =~= storage_read_in_loop_condition_at(i as int, *ev));
    }
    r
}

/// The detector of this module; `detect` runs it over the events of a module.
pub struct StorageReadInLoopConditionVisitor;

impl StorageReadInLoopConditionVisitor {
    /// Reports the storage reads in loop conditions among the events of a module.
    pub fn detect<'a>(&self, events: &Vec<Event<'a>>) -> (r: Vec<Finding>)
        ensures
            findings_view(r@) == gather(events@, |i: int, ev: Event<'a>| storage_read_in_loop_condition_at(i, ev)),
    {
        let ghost f = |i: int, ev: Event<'a>| storage_read_in_loop_condition_at(i, ev);
        let mut r: Vec<Finding> = Vec::new();
        let mut i: usize = 0;
        while i < events.len()
            invariant
                i <= events@.len(),
                f == (|i: int, ev: Event<'a>| storage_read_in_loop_condition_at(i, ev)),
                findings_view(r@) == gather(events@.take(i as int), f),
            decreases events@.len() - i,
        {
            proof {
                lemma_gather_step(events@, f, i as int);
            }
            let ghost before = findings_view(r@);
            let mut more = storage_read_in_loop_condition_event(i, &events[i]);
            let ghost added = findings_view(more@);
            r.append(&mut more);
            proof {
                assert(findings_view(r@) =~= before + added);
            }
            i = i + 1;
        }
        proof {
            assert(events@.take(i as int) =~= events@);
        }
        r
    }
}

} // verus!
