//! Reports reads of the amount sent with a call made inside loops.
use vstd::prelude::*;
use crate::ast::{Expr, ExprKind, PathExpr};
use crate::detectors::{gather, lemma_gather_step, ctx_location, context_location, finding, findings_view, FindingView, Finding,
    opt_seq, fn_key, fn_key_of, block_key, open_blocks, lemma_open_blocks_step, BlockStack, loop_bodies, in_loop, in_loop_exec,
    pairs_view, strings_contain};
use crate::report::Severity;
use crate::text::{push_str, str_eq, copy_string, strings_view};
use crate::utils::{use_tree_name, use_tree_to_name};
use crate::walk::Event;

verus! {

/// The local names under which a `use` item imports `msg_amount` or `balance`.
pub open spec fn msg_amount_imports<'a>(j: int, ev: Event<'a>) -> Seq<Seq<char>> {
    match ev {
        Event::Use(_, u) => opt_seq(use_tree_name(u.tree, "std::context::msg_amount"@))
            + opt_seq(use_tree_name(u.tree, "std::registers::balance"@)),
        _ => Seq::empty(),
    }
}

/// Whether a called path reads the amount: an imported name, or `std::context::msg_amount`,
/// `std::registers::balance` and their two crossings.
pub open spec fn is_msg_amount_path(p: PathExpr, names: Seq<Seq<char>>) -> bool {
    if p.suffix@.len() == 0 {
        names.contains(p.prefix.name.span.text@)
    } else if p.suffix@.len() == 2 {
        p.prefix.name.span.text@ == "std"@
            && (p.suffix@[0].name.span.text@ == "context"@ || p.suffix@[0].name.span.text@ == "registers"@)
            && (p.suffix@[1].name.span.text@ == "balance"@ || p.suffix@[1].name.span.text@ == "msg_amount"@)
    } else {
        false
    }
}

/// The amount reads one event makes, in the innermost open block of its function.
pub open spec fn msg_amount_calls<'a>(evs: Seq<Event<'a>>, j: int, ev: Event<'a>) -> Seq<((int, int), (int, int), Expr)> {
    match ev {
        Event::Expr(c, e) => match (c.item_fn, e.kind) {
            (Some(f), ExprKind::FuncApp { func, .. }) => {
                let open = open_blocks(evs.take(j));
                match func.kind {
                    ExprKind::Path(p) => if !c.in_const && open.len() > 0
                        && is_msg_amount_path(p, gather(evs.take(j), |k: int, x: Event<'a>| msg_amount_imports(k, x))) {
                        seq![(fn_key(f), open.last().1, *e)]
                    } else {
                        Seq::empty()
                    },
                    _ => Seq::empty(),
                }
            },
            _ => Seq::empty(),
        },
        _ => Seq::empty(),
    }
}

/// The findings for the amount reads made in the block.
pub open spec fn msg_amount_findings(i: int, loc: Seq<char>, key: (int, int), b: (int, int), calls: Seq<((int, int), (int, int), Expr)>)
    -> Seq<FindingView>
    decreases calls.len(),
{
    if calls.len() == 0 {
        Seq::empty()
    } else {
        msg_amount_findings(i, loc, key, b, calls.drop_last()) + if calls.last().0 == key && calls.last().1 == b {
            finding(i, calls.last().2.span.start as int, Severity::Medium, loc + " makes a call to `"@ + calls.last().2.span.text@
                + "` in a loop. Store the value in a variable outside the loop and decrement it over each iteration."@)
        } else {
            Seq::empty()
        }
    }
}

/// What the detector reports at one event, given the events before it: at the end of a block
/// that lies in a loop, the amount reads made in it.
pub open spec fn msg_amount_at<'a>(evs: Seq<Event<'a>>, i: int, ev: Event<'a>) -> Seq<FindingView> {
    match ev {
        Event::LeaveBlock(c, blk) => match c.item_fn {
            Some(f) => if in_loop(open_blocks(evs.take(i)), gather(evs.take(i), |j: int, x: Event<'a>| loop_bodies(j, x)), fn_key(f)) {
                msg_amount_findings(i, ctx_location(c), fn_key(f), block_key(blk),
                    gather(evs.take(i), |j: int, x: Event<'a>| msg_amount_calls(evs, j, x)))
            } else {
                Seq::empty()
            },
            None => Seq::empty(),
        },
        _ => Seq::empty(),
    }
}

/// The value of a list of amount reads.
pub open spec fn calls_view<'a>(v: Seq<((usize, usize), (usize, usize), &'a Expr)>) -> Seq<((int, int), (int, int), Expr)> {
    v.map_values(|x: ((usize, usize), (usize, usize), &'a Expr)| ((x.0.0 as int, x.0.1 as int), (x.1.0 as int, x.1.1 as int), *x.2))
}

fn is_msg_amount_path_exec(p: &PathExpr, names: &Vec<String>) -> (r: bool)
    ensures
        r == is_msg_amount_path(*p, strings_view(names@)),
{
    if p.suffix.len() == 0 {
        strings_contain(names, p.prefix.name.span.text.as_str())
    } else if p.suffix.len() == 2 {
        let a = p.suffix[0].name.span.text.as_str();
        let b = p.suffix[1].name.span.text.as_str();
        str_eq(p.prefix.name.span.text.as_str(), "std") && (str_eq(a, "context") || str_eq(a, "registers"))
            && (str_eq(b, "balance") || str_eq(b, "msg_amount"))
    } else {
        false
    }
}

/// The detector of this module; `detect` runs it over the events of a module.
pub struct MsgAmountInLoopVisitor;

impl MsgAmountInLoopVisitor {
    /// Reports the amount reads in loops among the events of a module.
    pub fn detect<'a>(&self, events: &Vec<Event<'a>>) -> (r: Vec<Finding>)
        ensures
            findings_view(r@) == gather(events@, |i: int, ev: Event<'a>| msg_amount_at(events@, i, ev)),
    {
        let ghost f = |i: int, ev: Event<'a>| msg_amount_at(events@, i, ev);
        let ghost gl = |j: int, x: Event<'a>| loop_bodies(j, x);
        let ghost gc = |j: int, x: Event<'a>| msg_amount_calls(events@, j, x);
        let ghost gn = |k: int, x: Event<'a>| msg_amount_imports(k, x);
        let mut r: Vec<Finding> = Vec::new();
        let mut loops: Vec<((usize, usize), (usize, usize))> = Vec::new();
        let mut calls: Vec<((usize, usize), (usize, usize), &'a Expr)> = Vec::new();
        let mut names: Vec<String> = Vec::new();
        let mut stack = BlockStack::new();
        let mut i: usize = 0;
        while i < events.len()
            invariant
                i <= events@.len(),
                f == (|i: int, ev: Event<'a>| msg_amount_at(events@, i, ev)),
                gl == (|j: int, x: Event<'a>| loop_bodies(j, x)),
                gc == (|j: int, x: Event<'a>| msg_amount_calls(events@, j, x)),
                gn == (|k: int, x: Event<'a>| msg_amount_imports(k, x)),
                findings_view(r@) == gather(events@.take(i as int), f),
                pairs_view(loops@) == gather(events@.take(i as int), gl),
                calls_view(calls@) == gather(events@.take(i as int), gc),
                strings_view(names@) == gather(events@.take(i as int), gn),
                stack.view() == open_blocks(events@.take(i as int)),
            decreases events@.len() - i,
        {
            proof {
                lemma_gather_step(events@, f, i as int);
                lemma_gather_step(events@, gl, i as int);
                lemma_gather_step(events@, gc, i as int);
                lemma_gather_step(events@, gn, i as int);
                lemma_open_blocks_step(events@, i as int);
            }
            let ghost before = findings_view(r@);
            let ghost loops_before = pairs_view(loops@);
            let ghost calls_before = calls_view(calls@);
            let ghost names_before = strings_view(names@);
            let ev = &events[i];
            match ev {
                Event::Use(_, u) => {
                    match use_tree_to_name(&u.tree, "std::context::msg_amount") {
                        Some(n) => names.push(n),
                        None => {},
                    }
                    match use_tree_to_name(&u.tree, "std::registers::balance") {
                        Some(n) => names.push(n),
                        None => {},
                    }
                },
                Event::While(c, _, _, body) => {
                    match c.item_fn {
                        Some(func) => loops.push((fn_key_of(func), (body.span.start, body.span.end))),
                        None => {},
                    }
                },
                Event::Expr(c, e) => {
                    match (c.item_fn, &e.kind) {
                        (Some(func), ExprKind::FuncApp { func: callee, .. }) => match &callee.kind {
                            ExprKind::Path(p) => {
                                if !c.in_const && stack.entries.len() > 0 && is_msg_amount_path_exec(p, &names) {
                                    let inner = stack.entries[stack.entries.len() - 1].1;
                                    calls.push((fn_key_of(func), inner, *e));
                                }
                            },
                            _ => {},
                        },
                        _ => {},
                    }
                },
                Event::LeaveBlock(c, blk) => {
                    match c.item_fn {
                        Some(func) => {
                            let key = fn_key_of(func);
                            if in_loop_exec(&stack, &loops, key) {
                                let loc = context_location(c);
                                let ghost cv = calls_view(calls@);
                                let mut k: usize = 0;
                                while k < calls.len()
                                    invariant
                                        k <= calls@.len(),
                                        cv == calls_view(calls@),
                                        findings_view(r@) == before + msg_amount_findings(i as int, loc@, (key.0 as int, key.1 as int),
                                            (blk.span.start as int, blk.span.end as int), cv.take(k as int)),
                                    decreases calls@.len() - k,
                                {
                                    proof {
                                        assert(cv.take(k + 1).drop_last() =~= cv.take(k as int));
                                        assert(cv.take(k + 1).last() == cv[k as int]);
                                    }
                                    let ghost fb = findings_view(r@);
                                    let x = calls[k];
                                    if x.0.0 == key.0 && x.0.1 == key.1 && x.1.0 == blk.span.start && x.1.1 == blk.span.end {
                                        let mut text = copy_string(loc.as_str());
                                        push_str(&mut text, " makes a call to `");
                                        push_str(&mut text, x.2.span.text.as_str());
                                        push_str(&mut text, "` in a loop. Store the value in a variable outside the loop and decrement it over each iteration.");
                                        r.push(Finding { event: i, start: x.2.span.start, severity: Severity::Medium, text, reference: None });
                                        proof {
                                            assert(findings_view(r@) =~= fb + finding(i as int, cv[k as int].2.span.start as int, Severity::Medium,
                                                loc@ + " makes a call to `"@ + cv[k as int].2.span.text@
                                                + "` in a loop. Store the value in a variable outside the loop and decrement it over each iteration."@));
                                        }
                                    }
                                    k = k + 1;
                                }
                                proof {
                                    assert(cv.take(k as int) =~= cv);
                                }
                            }
                        },
                        None => {},
                    }
                },
                _ => {},
            }
            proof {
                assert(pairs_view(loops@) =~= loops_before + gl(i as int, events@[i as int]));
                assert(calls_view(calls@) =~= calls_before + gc(i as int, events@[i as int]));
                assert(strings_view(names@) =~= names_before + gn(i as int, events@[i as int]));
                assert(findings_view(r@) =~= before + f(i as int, events@[i as int]));
            }
            stack.step(ev);
            i = i + 1;
        }
        proof {
            assert(events@.take(i as int) =~= events@);
        }
        r
    }
}

} // verus!
