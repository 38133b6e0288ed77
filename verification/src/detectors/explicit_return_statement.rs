//! Reports a `return` that ends a function, where the value alone would do.
use vstd::prelude::*;
use crate::ast::{BinaryOp, Expr, ExprKind, LiteralKind, StatementKind};
use crate::detectors::{gather, ctx_location, context_location, finding, findings_view, FindingView, lemma_gather_step, Finding, item_location, get_item_location};
use crate::report::Severity;
use crate::text::{push_str, has_prefix, str_starts_with, str_has_char, to_chars, string_from_chars};
use crate::utils::{is_bool_literal_or_negation, is_boolean_literal_or_negation, expr_idents, fold_expr_idents};
use crate::walk::{Ctx, Event};
use crate::ast::ItemFn;

verus! {

/// The message for an explicit `return` at the end of a function.
pub open spec fn explicit_return_text(loc: Seq<char>, value: Option<Box<Expr>>, statement: bool) -> Seq<char> {
    let kind = if statement { "statement"@ } else { "expression"@ };
    let semi = if statement { ";"@ } else { Seq::<char>::empty() };
    "The "@ + loc + " contains an explicit return "@ + kind + ", which is unnecessary. "@ + match value {
        Some(x) => "Consider replacing `return "@ + x.span.text@ + semi + "` with `"@ + x.span.text@ + "`."@,
        None => "Consider removing `return"@ + semi + "`."@,
    }
}

/// What the detector reports at one event: at the start of a function, the `return` that is
/// the final expression of its body or, when there is none, its last statement.
pub open spec fn explicit_return_at<'a>(i: int, ev: Event<'a>) -> Seq<FindingView> {
    match ev {
        Event::Fn(c, f) => match f.body.final_expr {
            Some(x) => match x.kind {
                ExprKind::Return(v) => finding(i, x.span.start as int, Severity::Low,
                    explicit_return_text(ctx_location(c), v, false)),
                _ => Seq::empty(),
            },
            None => if f.body.statements@.len() > 0 {
                let s = f.body.statements@.last();
                match s.kind {
                    StatementKind::Expr { expr, .. } => match expr.kind {
                        ExprKind::Return(v) => finding(i, s.span.start as int, Severity::Low,
                            explicit_return_text(ctx_location(c), v, true)),
                        _ => Seq::empty(),
                    },
                    _ => Seq::empty(),
                }
            } else {
                Seq::empty()
            },
        },
        _ => Seq::empty(),
    }
}

fn explicit_return_message(c: &Ctx, value: &Option<Box<Expr>>, statement: bool) -> (r: String)
    ensures
        r@ == explicit_return_text(ctx_location(*c), *value, statement),
{
    let mut text = String::new();
    push_str(&mut text, "The ");
    let loc = context_location(c);
    push_str(&mut text, loc.as_str());
    push_str(&mut text, " contains an explicit return ");
    if statement {
        push_str(&mut text, "statement");
    } else {
        push_str(&mut text, "expression");
    }
    push_str(&mut text, ", which is unnecessary. ");
    match value {
        Some(x) => {
            push_str(&mut text, "Consider replacing `return ");
            push_str(&mut text, x.span.text.as_str());
            if statement {
                push_str(&mut text, ";");
            }
            push_str(&mut text, "` with `");
            push_str(&mut text, x.span.text.as_str());
            push_str(&mut text, "`.");
        },
        None => {
            push_str(&mut text, "Consider removing `return");
            if statement {
                push_str(&mut text, ";");
            }
            push_str(&mut text, "`.");
        },
    }
    proof {
        assert(text@ =~= explicit_return_text(ctx_location(*c), *value, statement));
    }
    text
}

fn explicit_return_event<'a>(i: usize, ev: &Event<'a>) -> (r: Vec<Finding>)
    ensures
        findings_view(r@) == explicit_return_at(i as int, *ev),
{
    let mut r: Vec<Finding> = Vec::new();
    match ev {
        Event::Fn(c, f) => match &f.body.final_expr {
            Some(x) => match &x.kind {
                ExprKind::Return(v) => {
                    let text = explicit_return_message(c, v, false);
                    r.push(Finding { event: i, start: x.span.start, severity: Severity::Low, text, reference: None });
                },
                _ => {},
            },
            None => if f.body.statements.len() > 0 {
                let s = &f.body.statements[f.body.statements.len() - 1];
                match &s.kind {
                    StatementKind::Expr { expr, .. } => match &expr.kind {
                        ExprKind::Return(v) => {
                            let text = explicit_return_message(c, v, true);
                            r.push(Finding { event: i, start: s.span.start, severity: Severity::Low, text, reference: None });
                        },
                        _ => {},
                    },
                    _ => {},
                }
            },
        },
        _ => {},
    }
    proof {
        assert(findings_view(r@) =~= explicit_return_at(i as int, *ev));
    }
    r
}

/// The detector of this module; `detect` runs it over the events of a module.
pub struct ExplicitReturnStatementVisitor;

impl ExplicitReturnStatementVisitor {
    /// Reports the explicit `return`s that end functions, among the events of a module.
    pub fn detect<'a>(&self, events: &Vec<Event<'a>>) -> (r: Vec<Finding>)
        ensures
            findings_view(r@) == gather(events@, |i: int, ev: Event<'a>| explicit_return_at(i, ev)),
    {
        let ghost f = |i: int, ev: Event<'a>| explicit_return_at(i, ev);
        let mut r: Vec<Finding> = Vec::new();
        let mut i: usize = 0;
        while i < events.len()
            invariant
                i <= events@.len(),
                f == (|i: int, ev: Event<'a>| explicit_return_at(i, ev)),
                findings_view(r@) == gather(events@.take(i as int), f),
            decreases events@.len() - i,
        {
            proof {
                lemma_gather_step(events@, f, i as int);
            }
            let ghost before = findings_view(r@);
            let mut more = explicit_return_event(i, &events[i]);
            let ghost added = findings_view(more@);
            r.append(&mut more);
            proof {
                assert(findings_view(r@) =~= before + added);
            }
            i = i + 1;
        }
        proof {
            assert(events@.take(i as int) =~= events@);
        }
        r
    }
}

} // verus!
