//! Reports initializer functions that nothing guards against repeated calls.
use vstd::prelude::*;
use crate::ast::{Expr, ExprKind, IfCondition};
use crate::detectors::{gather, lemma_gather_step, ctx_location, context_location, finding, findings_view, FindingView, Finding,
    strings_contain};
use crate::report::Severity;
use crate::text::{push_str, str_eq, str_contains, copy_string, strings_view, is_infix};
use crate::utils::has_revert;
use crate::walk::Event;

verus! {

/// A function of the module, by name: whether its name mentions `init`, its location and the
/// offset of its signature, as its first declaration gives them.
pub type InitRec = (Seq<char>, bool, Seq<char>, int);

/// The functions after the given events, each name once, in the order of first declaration.
pub open spec fn init_records<'a>(evs: Seq<Event<'a>>) -> Seq<InitRec>
    decreases evs.len(),
{
    if evs.len() == 0 {
        Seq::empty()
    } else {
        let recs = init_records(evs.drop_last());
        match evs.last() {
            Event::Fn(c, f) => {
                let nm = f.fn_signature.name.span.text@;
                if exists|k: int| 0 <= k < recs.len() && (#[trigger] recs[k]).0 == nm {
                    recs
                } else {
                    recs.push((nm, is_infix("init"@, nm), ctx_location(c), f.fn_signature.span.start as int))
                }
            },
            _ => recs,
        }
    }
}

/// Whether an event of a function named `nm` makes a requirement: a `require` or an `if ... revert`.
pub open spec fn is_requirement<'a>(ev: Event<'a>, nm: Seq<char>) -> bool {
    match ev {
        Event::Expr(c, e) => match c.item_fn {
            Some(f) => f.fn_signature.name.span.text@ == nm && match e.kind {
                ExprKind::FuncApp { func, .. } => func.span.text@ == "require"@,
                ExprKind::If(ifx) => has_revert(ifx.then_block),
                _ => false,
            },
            None => false,
        },
        _ => false,
    }
}

/// The functions that the functions named `nm` call by a path.
pub open spec fn calls_of<'a>(nm: Seq<char>, j: int, ev: Event<'a>) -> Seq<Seq<char>> {
    match ev {
        Event::Expr(c, e) => match (c.item_fn, e.kind) {
            (Some(f), ExprKind::FuncApp { func, .. }) => if f.fn_signature.name.span.text@ == nm && func.kind is Path {
                seq![func.span.text@]
            } else {
                Seq::empty()
            },
            _ => Seq::empty(),
        },
        _ => Seq::empty(),
    }
}

/// Whether a function is protected within `k` steps: it makes a requirement itself, or it
/// calls a function of the module that is protected within `k - 1` steps.
pub open spec fn protected<'a>(evs: Seq<Event<'a>>, recs: Seq<InitRec>, k: nat, nm: Seq<char>) -> bool
    decreases k,
{
    if k == 0 {
        exists|m: int| 0 <= m < evs.len() && is_requirement(#[trigger] evs[m], nm)
    } else {
        protected(evs, recs, (k - 1) as nat, nm) || exists|j: int| 0 <= j < recs.len()
            && gather(evs, |i: int, x: Event<'a>| calls_of(nm, i, x)).contains((#[trigger] recs[j]).0)
            && protected(evs, recs, (k - 1) as nat, recs[j].0)
    }
}

/// The findings for the initializers that are not protected, in the order of declaration.
pub open spec fn init_findings<'a>(evs: Seq<Event<'a>>, all: Seq<InitRec>, recs: Seq<InitRec>) -> Seq<FindingView>
    decreases recs.len(),
{
    if recs.len() == 0 {
        Seq::empty()
    } else {
        let r = recs.last();
        init_findings(evs, all, recs.drop_last()) + if r.1 && !protected(evs, all, all.len(), r.0) {
            finding(evs.len() as int, r.3, Severity::High, r.2
                + " is an unprotected initializer function. Consider adding a requirement to prevent it from being called multiple times."@)
        } else {
            Seq::empty()
        }
    }
}

/// What the detector reports for a module with the given events: at its end, each function
/// whose name mentions `init` and that is not protected, even through the functions it calls.
pub open spec fn unprotected_initialization_findings<'a>(evs: Seq<Event<'a>>) -> Seq<FindingView> {
    init_findings(evs, init_records(evs), init_records(evs))
}

/// The value of the exec list of functions.
pub open spec fn recs_view(v: Seq<(String, bool, String, usize)>) -> Seq<InitRec> {
    v.map_values(|x: (String, bool, String, usize)| (x.0@, x.1, x.2@, x.3 as int))
}

fn find_rec(recs: &Vec<(String, bool, String, usize)>, nm: &str) -> (r: Option<usize>)
    ensures
        match r {
            Some(k) => k < recs@.len() && recs_view(recs@)[k as int].0 == nm@,
            None => !(exists|k: int| 0 <= k < recs@.len() && (#[trigger] recs_view(recs@)[k]).0 == nm@),
        },
{
    let ghost rv = recs_view(recs@);
    let mut k: usize = 0;
    while k < recs.len()
        invariant
            k <= recs@.len(),
            rv == recs_view(recs@),
            forall|m: int| 0 <= m < k ==> (#[trigger] rv[m]).0 != nm@,
        decreases recs@.len() - k,
    {
        if str_eq(recs[k].0.as_str(), nm) {
            return Some(k);
        }
        k = k + 1;
    }
    None
}

fn is_requirement_exec<'a>(ev: &Event<'a>, nm: &str) -> (r: bool)
    ensures
        r == is_requirement(*ev, nm@),
{
    match ev {
        Event::Expr(c, e) => match c.item_fn {
            Some(f) => str_eq(f.fn_signature.name.span.text.as_str(), nm) && match &e.kind {
                ExprKind::FuncApp { func, .. } => str_eq(func.span.text.as_str(), "require"),
                ExprKind::If(ifx) => crate::utils::block_has_revert(&ifx.then_block),
                _ => false,
            },
            None => false,
        },
        _ => false,
    }
}

fn calls_of_exec<'a>(events: &Vec<Event<'a>>, nm: &str) -> (r: Vec<String>)
    ensures
        strings_view(r@) == gather(events@, |i: int, x: Event<'a>| calls_of(nm@, i, x)),
{
    let ghost g = |i: int, x: Event<'a>| calls_of(nm@, i, x);
    let mut r: Vec<String> = Vec::new();
    let mut i: usize = 0;
    while i < events.len()
        invariant
            i <= events@.len(),
            g == (|i: int, x: Event<'a>| calls_of(nm@, i, x)),
            strings_view(r@) == gather(events@.take(i as int), g),
        decreases events@.len() - i,
    {
        proof {
            lemma_gather_step(events@, g, i as int);
        }
        let ghost before = strings_view(r@);
        match &events[i] {
            Event::Expr(c, e) => match (c.item_fn, &e.kind) {
                (Some(f), ExprKind::FuncApp { func, .. }) => {
                    let is_path = match &func.kind {
                        ExprKind::Path(_) => true,
                        _ => false,
                    };
                    if str_eq(f.fn_signature.name.span.text.as_str(), nm) && is_path {
                        r.push(copy_string(func.span.text.as_str()));
                    }
                },
                _ => {},
            },
            _ => {},
        }
        proof {
            assert(strings_view(r@) =~= before + g(i as int, events@[i as int]));
        }
        i = i + 1;
    }
    proof {
        assert(events@.take(i as int) =~= events@);
    }
    r
}

/// The detector of this module; `detect` runs it over the events of a module.
pub struct UnprotectedInitializationVisitor;

impl UnprotectedInitializationVisitor {
    /// Reports the unprotected initializers of a module with the given events.
    pub fn detect<'a>(&self, events: &Vec<Event<'a>>) -> (r: Vec<Finding>)
        ensures
            findings_view(r@) == unprotected_initialization_findings(events@),
    {
        let mut recs: Vec<(String, bool, String, usize)> = Vec::new();
        let mut i: usize = 0;
        while i < events.len()
            invariant
                i <= events@.len(),
                recs_view(recs@) == init_records(events@.take(i as int)),
            decreases events@.len() - i,
        {
            proof {
                assert(events@.take(i + 1).drop_last() =~= events@.take(i as int));
                assert(events@.take(i + 1).last() == events@[i as int]);
            }
            let ghost before = recs_view(recs@);
            match &events[i] {
                Event::Fn(c, f) => {
                    let nm = f.fn_signature.name.span.text.as_str();
                    if find_rec(&recs, nm).is_none() {
                        let loc = context_location(c);
                        recs.push((copy_string(nm), str_contains(nm, "init"), loc, f.fn_signature.span.start));
                        proof {
                            assert(recs_view(recs@) =~= before.push((nm@, is_infix("init"@, nm@), ctx_location(*c), f.fn_signature.span.start as int)));
                        }
                    }
                },
                _ => {},
            }
            i = i + 1;
        }
        proof {
            assert(events@.take(i as int) =~= events@);
        }
        let ghost rv = recs_view(recs@);
        let n = recs.len();
        // What each function calls, and whether it makes a requirement itself.
        let mut calls: Vec<Vec<String>> = Vec::new();
        let mut prot: Vec<bool> = Vec::new();
        let mut k: usize = 0;
        while k < n
            invariant
                k <= n,
                n == recs@.len(),
                rv == recs_view(recs@),
                rv == init_records(events@),
                calls@.len() == k,
                prot@.len() == k,
                forall|j: int| 0 <= j < k ==> strings_view((#[trigger] calls@[j])@) == gather(events@, |m: int, x: Event<'a>| calls_of(rv[j].0, m, x)),
                forall|j: int| 0 <= j < k ==> #[trigger] prot@[j] == protected(events@, rv, 0, rv[j].0),
            decreases n - k,
        {
            let nm = recs[k].0.as_str();
            calls.push(calls_of_exec(events, nm));
            let mut req = false;
            let mut m: usize = 0;
            while m < events.len()
                invariant
                    m <= events@.len(),
                    req == exists|q: int| 0 <= q < m && is_requirement(#[trigger] events@[q], nm@),
                decreases events@.len() - m,
            {
                if is_requirement_exec(&events[m], nm) {
                    req = true;
                }
                m = m + 1;
            }
            prot.push(req);
            k = k + 1;
        }
        // Protection spreads along calls, one step per round.
        let mut round: usize = 0;
        while round < n
            invariant
                round <= n,
                n == recs@.len(),
                rv == recs_view(recs@),
                rv == init_records(events@),
                calls@.len() == n,
                prot@.len() == n,
                forall|j: int| 0 <= j < n ==> strings_view((#[trigger] calls@[j])@) == gather(events@, |m: int, x: Event<'a>| calls_of(rv[j].0, m, x)),
                forall|j: int| 0 <= j < n ==> #[trigger] prot@[j] == protected(events@, rv, round as nat, rv[j].0),
            decreases n - round,
        {
            let mut next: Vec<bool> = Vec::new();
            let mut j: usize = 0;
            while j < n
                invariant
                    j <= n,
                    n == recs@.len(),
                    rv == recs_view(recs@),
                    calls@.len() == n,
                    prot@.len() == n,
                    next@.len() == j,
                    forall|a: int| 0 <= a < n ==> strings_view((#[trigger] calls@[a])@) == gather(events@, |m: int, x: Event<'a>| calls_of(rv[a].0, m, x)),
                    forall|a: int| 0 <= a < n ==> #[trigger] prot@[a] == protected(events@, rv, round as nat, rv[a].0),
                    forall|a: int| 0 <= a < j ==> #[trigger] next@[a] == protected(events@, rv, (round + 1) as nat, rv[a].0),
                decreases n - j,
            {
                let mut p = prot[j];
                let mut q: usize = 0;
                while q < n
                    invariant
                        j < n,
                        q <= n,
                        n == recs@.len(),
                        rv == recs_view(recs@),
                        calls@.len() == n,
                        prot@.len() == n,
                        forall|a: int| 0 <= a < n ==> strings_view((#[trigger] calls@[a])@) == gather(events@, |m: int, x: Event<'a>| calls_of(rv[a].0, m, x)),
                        forall|a: int| 0 <= a < n ==> #[trigger] prot@[a] == protected(events@, rv, round as nat, rv[a].0),
                        p == (protected(events@, rv, round as nat, rv[j as int].0) || exists|b: int| 0 <= b < q
                            && gather(events@, |m: int, x: Event<'a>| calls_of(rv[j as int].0, m, x)).contains((#[trigger] rv[b]).0)
                            && protected(events@, rv, round as nat, rv[b].0)),
                    decreases n - q,
                {
                    if prot[q] && strings_contain(&calls[j], recs[q].0.as_str()) {
                        p = true;
                    }
                    q = q + 1;
                }
                proof {
                    assert(p == protected(events@, rv, (round + 1) as nat, rv[j as int].0));
                }
                next.push(p);
                j = j + 1;
            }
            prot = next;
            round = round + 1;
        }
        let e = events.len();
        let mut r: Vec<Finding> = Vec::new();
        let mut k: usize = 0;
        while k < n
            invariant
                k <= n,
                n == recs@.len(),
                e == events@.len(),
                rv == recs_view(recs@),
                rv == init_records(events@),
                prot@.len() == n,
                forall|j: int| 0 <= j < n ==> #[trigger] prot@[j] == protected(events@, rv, n as nat, rv[j].0),
                findings_view(r@) == init_findings(events@, rv, rv.take(k as int)),
            decreases n - k,
        {
            proof {
                assert(rv.take(k + 1).drop_last() =~= rv.take(k as int));
                assert(rv.take(k + 1).last() == rv[k as int]);
            }
            let ghost before = findings_view(r@);
            if recs[k].1 && !prot[k] {
                let mut text = copy_string(recs[k].2.as_str());
                push_str(&mut text, " is an unprotected initializer function. Consider adding a requirement to prevent it from being called multiple times.");
                r.push(Finding { event: e, start: recs[k].3, severity: Severity::High, text, reference: None });
                proof {
                    assert(findings_view(r@) =~= before + finding(e as int, rv[k as int].3, Severity::High, rv[k as int].2
                        + " is an unprotected initializer function. Consider adding a requirement to prevent it from being called multiple times."@));
                }
            }
            k = k + 1;
        }
        proof {
            assert(rv.take(k as int) =~= rv);
        }
        r
    }
}

} // verus!
