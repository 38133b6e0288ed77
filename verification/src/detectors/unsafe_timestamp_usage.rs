//! Reports calls that read the block timestamp.
use vstd::prelude::*;
use crate::ast::{BinaryOp, Expr, ExprKind, LiteralKind, StatementKind};
use crate::detectors::{gather, lemma_gather_step, ctx_location, context_location, finding, findings_view, FindingView, Finding,
    opt_seq, keys_view, keys_contain, strings_contain, any_string_in, ctx_fn_key, ctx_fn_key_of, fn_key};
use crate::report::Severity;
use crate::text::{push_str, str_eq, str_contains, strings_view, is_infix};
use crate::utils::{use_tree_name, use_tree_to_name};
use crate::walk::{Ctx, Event, ItemRef};

verus! {

/// The local names under which a `use` item imports the timestamp functions.
pub open spec fn timestamp_imports<'a>(i: int, ev: Event<'a>) -> Seq<Seq<char>> {
    match ev {
        Event::Use(_, u) => opt_seq(use_tree_name(u.tree, "std::block::timestamp"@))
            + opt_seq(use_tree_name(u.tree, "std::block::timestamp_of_block"@)),
        _ => Seq::empty(),
    }
}

/// Whether an expression calls a timestamp function by its full path or by an imported name.
pub open spec fn is_timestamp_call(e: Expr, names: Seq<Seq<char>>) -> bool {
    match e.kind {
        ExprKind::FuncApp { func, .. } => match func.kind {
            ExprKind::Path(p) => p.span.text@ == "std::block::timestamp"@ || p.span.text@ == "std::block::timestamp_of_block"@
                || names.contains(p.span.text@),
            _ => false,
        },
        _ => false,
    }
}

/// What the detector reports at one event, given the events before it: each call of a
/// timestamp function.
pub open spec fn unsafe_timestamp_at<'a>(evs: Seq<Event<'a>>, i: int, ev: Event<'a>) -> Seq<FindingView> {
    match ev {
        Event::Expr(c, e) => if is_timestamp_call(*e, gather(evs.take(i), |j: int, x: Event<'a>| timestamp_imports(j, x))) {
            finding(i, e.span.start as int, Severity::Medium, ctx_location(c)
                + " contains dependence on a block timestamp, which can be manipulated by an attacker: `"@ + e.span.text@ + "`"@)
        } else {
            Seq::empty()
        },
        _ => Seq::empty(),
    }
}

/// The detector of this module; `detect` runs it over the events of a module.
pub struct UnsafeTimestampUsageVisitor;

impl UnsafeTimestampUsageVisitor {
    /// Reports the uses of the block timestamp among the events of a module.
    pub fn detect<'a>(&self, events: &Vec<Event<'a>>) -> (r: Vec<Finding>)
        ensures
            findings_view(r@) == gather(events@, |i: int, ev: Event<'a>| unsafe_timestamp_at(events@, i, ev)),
    {
        let ghost f = |i: int, ev: Event<'a>| unsafe_timestamp_at(events@, i, ev);
        let ghost g = |j: int, x: Event<'a>| timestamp_imports(j, x);
        let mut r: Vec<Finding> = Vec::new();
        let mut names: Vec<String> = Vec::new();
        let mut i: usize = 0;
        while i < events.len()
            invariant
                i <= events@.len(),
                f == (|i: int, ev: Event<'a>| unsafe_timestamp_at(events@, i, ev)),
                g == (|j: int, x: Event<'a>| timestamp_imports(j, x)),
                findings_view(r@) == gather(events@.take(i as int), f),
                strings_view(names@) == gather(events@.take(i as int), g),
            decreases events@.len() - i,
        {
            proof {
                lemma_gather_step(events@, f, i as int);
                lemma_gather_step(events@, g, i as int);
            }
            let ghost before = findings_view(r@);
            let ghost names_before = strings_view(names@);
            match &events[i] {
                Event::Use(_, u) => {
                    let a = use_tree_to_name(&u.tree, "std::block::timestamp");
                    let b = use_tree_to_name(&u.tree, "std::block::timestamp_of_block");
                    match a {
                        Some(n) => names.push(n),
                        None => {},
                    }
                    match b {
                        Some(n) => names.push(n),
                        None => {},
                    }
                    proof {
                        assert(strings_view(names@) =~= names_before + g(i as int, events@[i as int]));
                        assert(findings_view(r@) =~= before + f(i as int, events@[i as int]));
                    }
                },
                Event::Expr(c, e) => {
                    let hit = match &e.kind {
                        ExprKind::FuncApp { func, .. } => match &func.kind {
                            ExprKind::Path(p) => str_eq(p.span.text.as_str(), "std::block::timestamp")
                                || str_eq(p.span.text.as_str(), "std::block::timestamp_of_block")
                                || strings_contain(&names, p.span.text.as_str()),
                            _ => false,
                        },
                        _ => false,
                    };
                    if hit {
                        let mut text = context_location(c);
                        push_str(&mut text, " contains dependence on a block timestamp, which can be manipulated by an attacker: `");
                        push_str(&mut text, e.span.text.as_str());
                        push_str(&mut text, "`");
                        r.push(Finding { event: i, start: e.span.start, severity: Severity::Medium, text, reference: None });
                    }
                    proof {
                        assert(strings_view(names@) =~= names_before + g(i as int, events@[i as int]));
                        assert(findings_view(r@) =~= before + f(i as int, events@[i as int]));
                    }
                },
                _ => {
                    proof {
                        assert(strings_view(names@) =~= names_before + g(i as int, events@[i as int]));
                        assert(findings_view(r@) =~= before + f(i as int, events@[i as int]));
                    }
                },
            }
            i = i + 1;
        }
        proof {
            assert(events@.take(i as int) =~= events@);
        }
        r
    }
}

} // verus!
