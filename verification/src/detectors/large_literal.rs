//! Reports long decimal literals written without digit separators.
use vstd::prelude::*;
use crate::ast::{BinaryOp, Expr, ExprKind, LiteralKind, StatementKind};
use crate::detectors::{gather, ctx_location, context_location, finding, findings_view, FindingView, lemma_gather_step, Finding, item_location, get_item_location};
use crate::report::Severity;
use crate::text::{push_str, has_prefix, str_starts_with, str_has_char, to_chars, string_from_chars};
use crate::utils::{is_bool_literal_or_negation, is_boolean_literal_or_negation, expr_idents, fold_expr_idents};
use crate::walk::{Ctx, Event};

verus! {

/// The digits of a literal grouped in threes from the right, with `_` between the groups.
pub open spec fn group_digits(s: Seq<char>) -> Seq<char>
    decreases s.len(),
{
    if s.len() <= 3 {
        s
    } else {
        group_digits(s.take(s.len() - 3)) + seq!['_'] + s.skip(s.len() - 3)
    }
}

/// Whether a literal's text is left alone: hexadecimal, already separated, or at most six
/// characters long.
pub open spec fn literal_is_readable(s: Seq<char>) -> bool {
    has_prefix(s, "0x"@) || s.contains('_') || s.len() <= 6
}

/// The message for a large literal.
pub open spec fn large_literal_text(loc: Seq<char>, value: Seq<char>) -> Seq<char> {
    loc + " contains a large literal: `"@ + value + "`. Consider refactoring it to be more readable: `"@
        + group_digits(value) + "`"@
}

/// What the detector reports at one event: each integer literal whose text is not readable.
pub open spec fn large_literal_at<'a>(i: int, ev: Event<'a>) -> Seq<FindingView> {
    match ev {
        Event::Expr(c, e) => match e.kind {
            ExprKind::Literal(l) => match l.kind {
                LiteralKind::Int(_) => if literal_is_readable(l.span.text@) {
                    Seq::empty()
                } else {
                    finding(i, e.span.start as int, Severity::Low, large_literal_text(ctx_location(c), l.span.text@))
                },
                _ => Seq::empty(),
            },
            _ => Seq::empty(),
        },
        _ => Seq::empty(),
    }
}

fn group_digits_prefix(s: &Vec<char>, n: usize) -> (r: Vec<char>)
    requires
        n <= s@.len(),
    ensures
        r@ == group_digits(s@.take(n as int)),
    decreases n,
{
    if n <= 3 {
        let mut r: Vec<char> = Vec::new();
        let mut k: usize = 0;
        while k < n
            invariant
                k <= n <= s@.len(),
                r@ == s@.take(k as int),
            decreases n - k,
        {
            r.push(s[k]);
            proof {
                assert(s@.take(k + 1) =~= s@.take(k as int).push(s@[k as int]));
            }
            k = k + 1;
        }
        r
    } else {
        let mut r = group_digits_prefix(s, n - 3);
        r.push('_');
        r.push(s[n - 3]);
        r.push(s[n - 2]);
        r.push(s[n - 1]);
        proof {
            let t = s@.take(n as int);
            assert(t.take(t.len() - 3) =~= s@.take(n - 3));
            assert(t.skip(t.len() - 3) =~= seq![s@[n - 3], s@[n - 2], s@[n - 1]]);
            assert(r@ =~= group_digits(t));
        }
        r
    }
}

/// The digits of a literal grouped in threes from the right.
pub fn group_literal_digits(s: &str) -> (r: String)
    ensures
        r@ == group_digits(s@),
{
    let v = to_chars(s);
    let g = group_digits_prefix(&v, v.len());
    proof {
        assert(v@.take(v@.len() as int) =~= v@);
    }
    string_from_chars(g.as_slice())
}

fn literal_readable(s: &str) -> (r: bool)
    ensures
        r == literal_is_readable(s@),
{
    let v = to_chars(s);
    str_starts_with(s, "0x") || str_has_char(s, '_') || v.len() <= 6
}

fn large_literal_event<'a>(i: usize, ev: &Event<'a>) -> (r: Vec<Finding>)
    ensures
        findings_view(r@) == large_literal_at(i as int, *ev),
{
    let mut r: Vec<Finding> = Vec::new();
    match ev {
        Event::Expr(c, e) => match &e.kind {
            ExprKind::Literal(l) => match &l.kind {
                LiteralKind::Int(_) => if !literal_readable(l.span.text.as_str()) {
                    let mut text = context_location(c);
                    push_str(&mut text, " contains a large literal: `");
                    push_str(&mut text, l.span.text.as_str());
                    push_str(&mut text, "`. Consider refactoring it to be more readable: `");
                    let grouped = group_literal_digits(l.span.text.as_str());
                    push_str(&mut text, grouped.as_str());
                    push_str(&mut text, "`");
                    r.push(Finding { event: i, start: e.span.start, severity: Severity::Low, text, reference: None });
                },
                _ => {},
            },
            _ => {},
        },
        _ => {},
    }
    proof {
        assert(findings_view(r@) =~= large_literal_at(i as int, *ev));
    }
    r
}

/// The detector of this module; `detect` runs it over the events of a module.
pub struct LargeLiteralsVisitor;

impl LargeLiteralsVisitor {
    /// Reports the large literals among the events of a module.
    pub fn detect<'a>(&self, events: &Vec<Event<'a>>) -> (r: Vec<Finding>)
        ensures
            findings_view(r@) == gather(events@, |i: int, ev: Event<'a>| large_literal_at(i, ev)),
    {
        let ghost f = |i: int, ev: Event<'a>| large_literal_at(i, ev);
        let mut r: Vec<Finding> = Vec::new();
        let mut i: usize = 0;
        while i < events.len()
            invariant
                i <= events@.len(),
                f == (|i: int, ev: Event<'a>| large_literal_at(i, ev)),
                findings_view(r@) == gather(events@.take(i as int), f),
            decreases events@.len() - i,
        {
            proof {
                lemma_gather_step(events@, f, i as int);
            }
            let ghost before = findings_view(r@);
            let mut more = large_literal_event(i, &events[i]);
            let ghost added = findings_view(more@);
            r.append(&mut more);
            proof {
                assert(findings_view(r@) =~= before + added);
            }
            i = i + 1;
        }
        proof {
            assert(events@.take(i as int) =~= events@);
        }
        r
    }
}

} // verus!
