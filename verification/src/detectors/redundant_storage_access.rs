//! Reports storage reads and writes repeated within a function, and storage reads in loop
//! conditions.
use vstd::prelude::*;
use crate::ast::{Expr, ItemFn, ItemImpl, Statement, StatementKind};
use crate::detectors::{gather, lemma_gather_step, fn_location, finding, findings_view, FindingView, Finding, fn_key, fn_key_of,
    open_blocks, lemma_open_blocks_step, BlockStack};
use crate::report::Severity;
use crate::storage_access::{storage_access, find_storage_access_in_expr, opt_expr};
use crate::text::{push_str, str_eq, copy_string};
use crate::utils::{name, expr_idents, fold_expr_idents};
use crate::walk::{Ctx, Event};

verus! {

/// A storage field read (`0`) or written (`1`) in a block of a function.
pub type AccessRec = ((int, int), (int, int), Seq<char>, u8);

/// The storage access of a statement that reads (`let x = storage.f.read()`, kind `0`) or
/// writes (`storage.f.write(..)`, kind `1`) a field: the access and the field's name.
pub open spec fn statement_access(s: Statement) -> Option<(Expr, Seq<char>, u8)> {
    let found = match s.kind {
        StatementKind::Let(l) => match storage_access(l.expr) {
            Some(x) => Some((x, 0u8)),
            None => None,
        },
        StatementKind::Expr { expr, .. } => match storage_access(expr) {
            Some(x) => Some((x, 1u8)),
            None => None,
        },
        _ => None,
    };
    match found {
        Some((x, kind)) => {
            let ids = expr_idents(x);
            if ids.len() >= 2 && name(ids.last()) == (if kind == 0 { "read"@ } else { "write"@ }) {
                Some((x, name(ids[1]), kind))
            } else {
                None
            }
        },
        None => None,
    }
}

/// The accesses one event records, in the innermost open block.
pub open spec fn access_recs<'a>(evs: Seq<Event<'a>>, j: int, ev: Event<'a>) -> Seq<AccessRec> {
    match ev {
        Event::Statement(c, s) => match c.item_fn {
            Some(f) => {
                let open = open_blocks(evs.take(j));
                match statement_access(*s) {
                    Some((_, field, kind)) => if open.len() > 0 {
                        seq![(fn_key(f), open.last().1, field, kind)]
                    } else {
                        Seq::empty()
                    },
                    None => Seq::empty(),
                }
            },
            None => Seq::empty(),
        },
        _ => Seq::empty(),
    }
}

/// Whether an open block of the function already recorded the same access of the field.
pub open spec fn seen_access(recs: Seq<AccessRec>, open: Seq<(Option<(int, int)>, (int, int))>, key: (int, int),
    field: Seq<char>, kind: u8) -> bool {
    exists|k: int, m: int| 0 <= k < recs.len() && 0 <= m < open.len()
        && (#[trigger] recs[k]).0 == key && #[trigger] open[m] == (Some(key), recs[k].1) && recs[k].2 == field && recs[k].3 == kind
}

/// The message for a repeated access.
pub open spec fn access_text(f: ItemFn, item_impl: Option<&ItemImpl>, x: Expr, kind: u8) -> Seq<char> {
    fn_location(f, item_impl) + if kind == 0 {
        " contains a redundant storage access: `"@ + x.span.text@
            + "`. Consider storing the value in a local variable in order to lower gas costs."@
    } else {
        " contains a redundant storage update: `"@ + x.span.text@
            + "`. Consider limiting to a single storage write in order to lower gas costs."@
    }
}

/// What the detector reports at one event, given the events before it: the storage access of
/// a loop condition, and a read or write that an open block of the function already made.
pub open spec fn redundant_storage_access_at<'a>(evs: Seq<Event<'a>>, i: int, ev: Event<'a>) -> Seq<FindingView> {
    match ev {
        Event::While(c, _, cond, _) => match (c.item_fn, storage_access(*cond)) {
            (Some(f), Some(x)) => finding(i, x.span.start as int, Severity::Medium, fn_location(*f, c.item_impl)
                + " contains a loop condition with redundant storage access: `"@ + x.span.text@
                + "`. Consider storing the value in a local variable in order to lower gas costs."@),
            _ => Seq::empty(),
        },
        Event::Statement(c, s) => match (c.item_fn, statement_access(*s)) {
            (Some(f), Some((x, field, kind))) => {
                let recs = gather(evs.take(i), |j: int, e: Event<'a>| access_recs(evs, j, e));
                if seen_access(recs, open_blocks(evs.take(i)), fn_key(f), field, kind) {
                    finding(i, x.span.start as int, Severity::Medium, access_text(*f, c.item_impl, x, kind))
                } else {
                    Seq::empty()
                }
            },
            _ => Seq::empty(),
        },
        _ => Seq::empty(),
    }
}

/// The value of a list of accesses.
pub open spec fn recs_view(v: Seq<((usize, usize), (usize, usize), String, u8)>) -> Seq<AccessRec> {
    v.map_values(|x: ((usize, usize), (usize, usize), String, u8)| ((x.0.0 as int, x.0.1 as int), (x.1.0 as int, x.1.1 as int), x.2@, x.3))
}

fn statement_access_exec<'a>(s: &'a Statement) -> (r: Option<(&'a Expr, &'a str, u8)>)
    ensures
        match statement_access(*s) {
            Some((x, field, kind)) => r matches Some((a, b, c)) && *a == x && b@ == field && c == kind,
            None => r is None,
        },
{
    let found = match &s.kind {
        StatementKind::Let(l) => match find_storage_access_in_expr(&l.expr) {
            Some(x) => Some((x, 0u8)),
            None => None,
        },
        StatementKind::Expr { expr, .. } => match find_storage_access_in_expr(expr) {
            Some(x) => Some((x, 1u8)),
            None => None,
        },
        _ => None,
    };
    match found {
        Some((x, kind)) => {
            let ids = fold_expr_idents(x);
            if ids.len() >= 2 {
                let last = ids[ids.len() - 1].span.text.as_str();
                let ok = if kind == 0 { str_eq(last, "read") } else { str_eq(last, "write") };
                if ok {
                    return Some((x, ids[1].span.text.as_str(), kind));
                }
            }
            None
        },
        None => None,
    }
}

fn seen_access_exec(recs: &Vec<((usize, usize), (usize, usize), String, u8)>, stack: &BlockStack, key: (usize, usize),
    field: &str, kind: u8) -> (r: bool)
    ensures
        r == seen_access(recs_view(recs@), stack.view(), (key.0 as int, key.1 as int), field@, kind),
{
    let ghost rv = recs_view(recs@);
    let ghost open = stack.view();
    let ghost kk = (key.0 as int, key.1 as int);
    let mut k: usize = 0;
    while k < recs.len()
        invariant
            k <= recs@.len(),
            rv == recs_view(recs@),
            open == stack.view(),
            kk == (key.0 as int, key.1 as int),
            forall|a: int, m: int| 0 <= a < k && 0 <= m < open.len() ==> !((#[trigger] rv[a]).0 == kk
                && #[trigger] open[m] == (Some(kk), rv[a].1) && rv[a].2 == field@ && rv[a].3 == kind),
        decreases recs@.len() - k,
    {
        if recs[k].0.0 == key.0 && recs[k].0.1 == key.1 && recs[k].3 == kind && str_eq(recs[k].2.as_str(), field) {
            let mut m: usize = 0;
            while m < stack.entries.len()
                invariant
                    k < recs@.len(),
                    m <= stack.entries@.len(),
                    rv == recs_view(recs@),
                    open == stack.view(),
                    kk == (key.0 as int, key.1 as int),
                    rv[k as int].0 == kk,
                    rv[k as int].2 == field@,
                    rv[k as int].3 == kind,
                    forall|b: int| 0 <= b < m ==> #[trigger] open[b] != (Some(kk), rv[k as int].1),
                decreases stack.entries@.len() - m,
            {
                let entry = &stack.entries[m];
                let same = match entry.0 {
                    Some(fk) => fk.0 == key.0 && fk.1 == key.1,
                    None => false,
                } && entry.1.0 == recs[k].1.0 && entry.1.1 == recs[k].1.1;
                if same {
                    proof {
                        assert(open[m as int] == (Some(kk), rv[k as int].1));
                        assert(seen_access(rv, open, kk, field@, kind));
                    }
                    return true;
                }
                proof {
                    assert(open[m as int] != (Some(kk), rv[k as int].1));
                }
                m = m + 1;
            }
        }
        k = k + 1;
    }
    false
}

fn push_fn_location(out: &mut String, f: &ItemFn, item_impl: Option<&ItemImpl>)
    ensures
        final(out)@ == old(out)@ + fn_location(*f, item_impl),
{
    let ghost start = out@;
    push_str(out, "The `");
    match item_impl {
        Some(i) => {
            push_str(out, i.ty.span.text.as_str());
            push_str(out, "::");
        },
        None => {},
    }
    push_str(out, f.fn_signature.name.span.text.as_str());
    push_str(out, "` function");
    proof {
        assert(out@ =~= start + fn_location(*f, item_impl));
    }
}

fn access_message(f: &ItemFn, item_impl: Option<&ItemImpl>, x: &Expr, kind: u8) -> (r: String)
    ensures
        r@ == access_text(*f, item_impl, *x, kind),
{
    let mut text = String::new();
    push_fn_location(&mut text, f, item_impl);
    if kind == 0 {
        push_str(&mut text, " contains a redundant storage access: `");
        push_str(&mut text, x.span.text.as_str());
        push_str(&mut text, "`. Consider storing the value in a local variable in order to lower gas costs.");
    } else {
        push_str(&mut text, " contains a redundant storage update: `");
        push_str(&mut text, x.span.text.as_str());
        push_str(&mut text, "`. Consider limiting to a single storage write in order to lower gas costs.");
    }
    proof {
        assert(text@ =~= access_text(*f, item_impl, *x, kind));
    }
    text
}

/// The detector of this module; `detect` runs it over the events of a module.
pub struct RedundantStorageAccessVisitor;

impl RedundantStorageAccessVisitor {
    /// Reports the redundant storage accesses among the events of a module.
    pub fn detect<'a>(&self, events: &Vec<Event<'a>>) -> (r: Vec<Finding>)
        ensures
            findings_view(r@) == gather(events@, |i: int, ev: Event<'a>| redundant_storage_access_at(events@, i, ev)),
    {
        let ghost f = |i: int, ev: Event<'a>| redundant_storage_access_at(events@, i, ev);
        let ghost g = |j: int, e: Event<'a>| access_recs(events@, j, e);
        let mut r: Vec<Finding> = Vec::new();
        let mut recs: Vec<((usize, usize), (usize, usize), String, u8)> = Vec::new();
        let mut stack = BlockStack::new();
        let mut i: usize = 0;
        while i < events.len()
            invariant
                i <= events@.len(),
                f == (|i: int, ev: Event<'a>| redundant_storage_access_at(events@, i, ev)),
                g == (|j: int, e: Event<'a>| access_recs(events@, j, e)),
                findings_view(r@) == gather(events@.take(i as int), f),
                recs_view(recs@) == gather(events@.take(i as int), g),
                stack.view() == open_blocks(events@.take(i as int)),
            decreases events@.len() - i,
        {
            proof {
                lemma_gather_step(events@, f, i as int);
                lemma_gather_step(events@, g, i as int);
                lemma_open_blocks_step(events@, i as int);
            }
            let ghost before = findings_view(r@);
            let ghost recs_before = recs_view(recs@);
            let ev = &events[i];
            match ev {
                Event::While(c, _, cond, _) => {
                    match (c.item_fn, find_storage_access_in_expr(cond)) {
                        (Some(func), Some(x)) => {
                            let mut text = String::new();
                            push_fn_location(&mut text, func, c.item_impl);
                            push_str(&mut text, " contains a loop condition with redundant storage access: `");
                            push_str(&mut text, x.span.text.as_str());
                            push_str(&mut text, "`. Consider storing the value in a local variable in order to lower gas costs.");
                            r.push(Finding { event: i, start: x.span.start, severity: Severity::Medium, text, reference: None });
                        },
                        _ => {},
                    }
                },
                Event::Statement(c, s) => {
                    match (c.item_fn, statement_access_exec(s)) {
                        (Some(func), Some((x, field, kind))) => {
                            let key = fn_key_of(func);
                            if seen_access_exec(&recs, &stack, key, field, kind) {
                                let text = access_message(func, c.item_impl, x, kind);
                                r.push(Finding { event: i, start: x.span.start, severity: Severity::Medium, text, reference: None });
                            }
                            if stack.entries.len() > 0 {
                                let inner = stack.entries[stack.entries.len() - 1].1;
                                recs.push((key, inner, copy_string(field), kind));
                            }
                        },
                        _ => {},
                    }
                },
                _ => {},
            }
            proof {
                assert(recs_view(recs@) =~= recs_before + g(i as int, events@[i as int]));
                assert(findings_view(r@) =~= before + f(i as int, events@[i as int]));
            }
            stack.step(ev);
            i = i + 1;
        }
        proof {
            assert(events@.take(i as int) =~= events@);
        }
        r
    }
}

} // verus!
