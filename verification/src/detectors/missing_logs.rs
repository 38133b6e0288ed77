//! Reports storage writes of a value that the block never logs.
use vstd::prelude::*;
use crate::ast::{Expr, ExprKind, Ident, PathExpr};
use crate::detectors::{gather, lemma_gather_step, ctx_location, context_location, finding, findings_view, FindingView, Finding,
    opt_seq, fn_key, fn_key_of, block_key, open_blocks, lemma_open_blocks_step, BlockStack, strings_contain};
use crate::report::Severity;
use crate::text::{push_str, str_eq, copy_string, strings_view};
use crate::utils::{name, use_tree_name, use_tree_to_name, storage_write_pair, statement_to_storage_write_idents};
use crate::walk::Event;

verus! {

/// The local names under which a `use` item imports `std::logging::log`.
pub open spec fn log_imports<'a>(j: int, ev: Event<'a>) -> Seq<Seq<char>> {
    match ev {
        Event::Use(_, u) => opt_seq(use_tree_name(u.tree, "std::logging::log"@)),
        _ => Seq::empty(),
    }
}

/// The storage writes one statement makes, in the innermost open block: the storage field and
/// the variable written.
pub open spec fn writes<'a>(evs: Seq<Event<'a>>, j: int, ev: Event<'a>) -> Seq<((int, int), (int, int), Ident, Ident)> {
    match ev {
        Event::Statement(c, s) => match (c.item_fn, storage_write_pair(*s)) {
            (Some(f), Some((st, var))) => {
                let open = open_blocks(evs.take(j));
                if open.len() > 0 { seq![(fn_key(f), open.last().1, st, var)] } else { Seq::empty() }
            },
            _ => Seq::empty(),
        },
        _ => Seq::empty(),
    }
}

/// Whether a called path logs: `log` or an imported name of it, or `std::logging::log`.
pub open spec fn is_log_path(p: PathExpr, names: Seq<Seq<char>>) -> bool {
    if p.suffix@.len() == 0 {
        p.prefix.name.span.text@ == "log"@ || names.contains(p.prefix.name.span.text@)
    } else if p.suffix@.len() == 2 {
        p.prefix.name.span.text@ == "std"@ && p.suffix@[0].name.span.text@ == "logging"@ && p.suffix@[1].name.span.text@ == "log"@
    } else {
        false
    }
}

/// The values one event logs, in the innermost open block: the text of the single argument.
pub open spec fn logs<'a>(evs: Seq<Event<'a>>, j: int, ev: Event<'a>) -> Seq<((int, int), (int, int), Seq<char>)> {
    match ev {
        Event::Expr(c, e) => match (c.item_fn, e.kind) {
            (Some(f), ExprKind::FuncApp { func, args, .. }) => {
                let open = open_blocks(evs.take(j));
                match func.kind {
                    ExprKind::Path(p) => if !c.in_const && open.len() > 0 && args@.len() == 1
                        && is_log_path(p, gather(evs.take(j), |k: int, x: Event<'a>| log_imports(k, x))) {
                        seq![(fn_key(f), open.last().1, args@[0].span.text@)]
                    } else {
                        Seq::empty()
                    },
                    _ => Seq::empty(),
                }
            },
            _ => Seq::empty(),
        },
        _ => Seq::empty(),
    }
}

/// Whether the block logs the variable or the read of the storage field.
pub open spec fn is_logged(lg: Seq<((int, int), (int, int), Seq<char>)>, key: (int, int), b: (int, int), st: Ident, var: Ident) -> bool {
    exists|k: int| 0 <= k < lg.len() && (#[trigger] lg[k]).0 == key && lg[k].1 == b
        && (lg[k].2 == var.span.text@ || lg[k].2 == "storage."@ + st.span.text@ + ".read()"@)
}

/// The findings for the writes of the block that it does not log.
pub open spec fn unlogged_findings(i: int, loc: Seq<char>, key: (int, int), b: (int, int),
    ws: Seq<((int, int), (int, int), Ident, Ident)>, lg: Seq<((int, int), (int, int), Seq<char>)>) -> Seq<FindingView>
    decreases ws.len(),
{
    if ws.len() == 0 {
        Seq::empty()
    } else {
        let w = ws.last();
        unlogged_findings(i, loc, key, b, ws.drop_last(), lg) + if w.0 == key && w.1 == b && !is_logged(lg, key, b, w.2, w.3) {
            finding(i, w.2.span.start as int, Severity::Medium, loc + " writes to `storage."@ + w.2.span.text@ + "` without being logged."@)
        } else {
            Seq::empty()
        }
    }
}

/// What the detector reports at one event, given the events before it: at the end of a block,
/// its storage writes that it does not log.
pub open spec fn missing_logs_at<'a>(evs: Seq<Event<'a>>, i: int, ev: Event<'a>) -> Seq<FindingView> {
    match ev {
        Event::LeaveBlock(c, blk) => match c.item_fn {
            Some(f) => unlogged_findings(i, ctx_location(c), fn_key(f), block_key(blk),
                gather(evs.take(i), |j: int, x: Event<'a>| writes(evs, j, x)), gather(evs.take(i), |j: int, x: Event<'a>| logs(evs, j, x))),
            None => Seq::empty(),
        },
        _ => Seq::empty(),
    }
}

/// The value of a list of writes.
pub open spec fn writes_view<'a>(v: Seq<((usize, usize), (usize, usize), &'a Ident, &'a Ident)>) -> Seq<((int, int), (int, int), Ident, Ident)> {
    v.map_values(|x: ((usize, usize), (usize, usize), &'a Ident, &'a Ident)| ((x.0.0 as int, x.0.1 as int), (x.1.0 as int, x.1.1 as int), *x.2, *x.3))
}

/// The value of a list of logged values.
pub open spec fn logs_view(v: Seq<((usize, usize), (usize, usize), String)>) -> Seq<((int, int), (int, int), Seq<char>)> {
    v.map_values(|x: ((usize, usize), (usize, usize), String)| ((x.0.0 as int, x.0.1 as int), (x.1.0 as int, x.1.1 as int), x.2@))
}

fn is_log_path_exec(p: &PathExpr, names: &Vec<String>) -> (r: bool)
    ensures
        r == is_log_path(*p, strings_view(names@)),
{
    if p.suffix.len() == 0 {
        str_eq(p.prefix.name.span.text.as_str(), "log") || strings_contain(names, p.prefix.name.span.text.as_str())
    } else if p.suffix.len() == 2 {
        str_eq(p.prefix.name.span.text.as_str(), "std") && str_eq(p.suffix[0].name.span.text.as_str(), "logging")
            && str_eq(p.suffix[1].name.span.text.as_str(), "log")
    } else {
        false
    }
}

fn is_logged_exec(lg: &Vec<((usize, usize), (usize, usize), String)>, key: (usize, usize), b: (usize, usize), st: &Ident, var: &Ident)
    -> (r: bool)
    ensures
        r == is_logged(logs_view(lg@), (key.0 as int, key.1 as int), (b.0 as int, b.1 as int), *st, *var),
{
    let ghost lv = logs_view(lg@);
    let mut read = String::new();
    push_str(&mut read, "storage.");
    push_str(&mut read, st.span.text.as_str());
    push_str(&mut read, ".read()");
    let mut k: usize = 0;
    while k < lg.len()
        invariant
            k <= lg@.len(),
            lv == logs_view(lg@),
            read@ == "storage."@ + st.span.text@ + ".read()"@,
            forall|m: int| 0 <= m < k ==> !((#[trigger] lv[m]).0 == (key.0 as int, key.1 as int) && lv[m].1 == (b.0 as int, b.1 as int)
                && (lv[m].2 == var.span.text@ || lv[m].2 == "storage."@ + st.span.text@ + ".read()"@)),
        decreases lg@.len() - k,
    {
        let x = &lg[k];
        if x.0.0 == key.0 && x.0.1 == key.1 && x.1.0 == b.0 && x.1.1 == b.1
            && (str_eq(x.2.as_str(), var.span.text.as_str()) || str_eq(x.2.as_str(), read.as_str())) {
            proof {
                assert(lv[k as int].0 == (key.0 as int, key.1 as int));
            }
            return true;
        }
        k = k + 1;
    }
    false
}

/// The detector of this module; `detect` runs it over the events of a module.
pub struct MissingLogsVisitor;

impl MissingLogsVisitor {
    /// Reports the unlogged storage writes among the events of a module.
    pub fn detect<'a>(&self, events: &Vec<Event<'a>>) -> (r: Vec<Finding>)
        ensures
            findings_view(r@) == gather(events@, |i: int, ev: Event<'a>| missing_logs_at(events@, i, ev)),
    {
        let ghost f = |i: int, ev: Event<'a>| missing_logs_at(events@, i, ev);
        let ghost gw = |j: int, x: Event<'a>| writes(events@, j, x);
        let ghost gg = |j: int, x: Event<'a>| logs(events@, j, x);
        let ghost gn = |k: int, x: Event<'a>| log_imports(k, x);
        let mut r: Vec<Finding> = Vec::new();
        let mut ws: Vec<((usize, usize), (usize, usize), &'a Ident, &'a Ident)> = Vec::new();
        let mut lg: Vec<((usize, usize), (usize, usize), String)> = Vec::new();
        let mut names: Vec<String> = Vec::new();
        let mut stack = BlockStack::new();
        let mut i: usize = 0;
        while i < events.len()
            invariant
                i <= events@.len(),
                f == (|i: int, ev: Event<'a>| missing_logs_at(events@, i, ev)),
                gw == (|j: int, x: Event<'a>| writes(events@, j, x)),
                gg == (|j: int, x: Event<'a>| logs(events@, j, x)),
                gn == (|k: int, x: Event<'a>| log_imports(k, x)),
                findings_view(r@) == gather(events@.take(i as int), f),
                writes_view(ws@) == gather(events@.take(i as int), gw),
                logs_view(lg@) == gather(events@.take(i as int), gg),
                strings_view(names@) == gather(events@.take(i as int), gn),
                stack.view() == open_blocks(events@.take(i as int)),
            decreases events@.len() - i,
        {
            proof {
                lemma_gather_step(events@, f, i as int);
                lemma_gather_step(events@, gw, i as int);
                lemma_gather_step(events@, gg, i as int);
                lemma_gather_step(events@, gn, i as int);
                lemma_open_blocks_step(events@, i as int);
            }
            let ghost before = findings_view(r@);
            let ghost ws_before = writes_view(ws@);
            let ghost lg_before = logs_view(lg@);
            let ghost names_before = strings_view(names@);
            let ev = &events[i];
            match ev {
                Event::Use(_, u) => {
                    match use_tree_to_name(&u.tree, "std::logging::log") {
                        Some(n) => names.push(n),
                        None => {},
                    }
                },
                Event::Statement(c, s) => {
                    match (c.item_fn, statement_to_storage_write_idents(s)) {
                        (Some(func), Some((st, var))) => if stack.entries.len() > 0 {
                            let inner = stack.entries[stack.entries.len() - 1].1;
                            ws.push((fn_key_of(func), inner, st, var));
                        },
                        _ => {},
                    }
                },
                Event::Expr(c, e) => {
                    match (c.item_fn, &e.kind) {
                        (Some(func), ExprKind::FuncApp { func: callee, args, .. }) => match &callee.kind {
                            ExprKind::Path(p) => {
                                if !c.in_const && stack.entries.len() > 0 && args.len() == 1 && is_log_path_exec(p, &names) {
                                    let inner = stack.entries[stack.entries.len() - 1].1;
                                    lg.push((fn_key_of(func), inner, copy_string(args[0].span.text.as_str())));
                                }
                            },
                            _ => {},
                        },
                        _ => {},
                    }
                },
                Event::LeaveBlock(c, blk) => {
                    match c.item_fn {
                        Some(func) => {
                            let key = fn_key_of(func);
                            let bk = (blk.span.start, blk.span.end);
                            let loc = context_location(c);
                            let ghost wv = writes_view(ws@);
                            let ghost lv = logs_view(lg@);
                            let mut k: usize = 0;
                            while k < ws.len()
                                invariant
                                    k <= ws@.len(),
                                    wv == writes_view(ws@),
                                    lv == logs_view(lg@),
                                    findings_view(r@) == before + unlogged_findings(i as int, loc@, (key.0 as int, key.1 as int),
                                        (bk.0 as int, bk.1 as int), wv.take(k as int), lv),
                                decreases ws@.len() - k,
                            {
                                proof {
                                    assert(wv.take(k + 1).drop_last() =~= wv.take(k as int));
                                    assert(wv.take(k + 1).last() == wv[k as int]);
                                }
                                let ghost fb = findings_view(r@);
                                let w = ws[k];
                                if w.0.0 == key.0 && w.0.1 == key.1 && w.1.0 == bk.0 && w.1.1 == bk.1 && !is_logged_exec(&lg, key, bk, w.2, w.3) {
                                    let mut text = copy_string(loc.as_str());
                                    push_str(&mut text, " writes to `storage.");
                                    push_str(&mut text, w.2.span.text.as_str());
                                    push_str(&mut text, "` without being logged.");
                                    r.push(Finding { event: i, start: w.2.span.start, severity: Severity::Medium, text, reference: None });
                                    proof {
                                        assert(findings_view(r@) =~= fb + finding(i as int, wv[k as int].2.span.start as int, Severity::Medium,
                                            loc@ + " writes to `storage."@ + wv[k as int].2.span.text@ + "` without being logged."@));
                                    }
                                }
                                k = k + 1;
                            }
                            proof {
                                assert(wv.take(k as int) =~= wv);
                            }
                        },
                        None => {},
                    }
                },
                _ => {},
            }
            proof {
                assert(writes_view(ws@) =~= ws_before + gw(i as int, events@[i as int]));
                assert(logs_view(lg@) =~= lg_before + gg(i as int, events@[i as int]));
                assert(strings_view(names@) =~= names_before + gn(i as int, events@[i as int]));
                assert(findings_view(r@) =~= before + f(i as int, events@[i as int]));
            }
            stack.step(ev);
            i = i + 1;
        }
        proof {
            assert(events@.take(i as int) =~= events@);
        }
        r
    }
}

} // verus!
