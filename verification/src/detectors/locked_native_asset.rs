//! Reports payable functions of a module that has no way to send native assets out.
use vstd::prelude::*;
use crate::ast::{AttributeDecl, Expr, ExprKind};
use crate::detectors::{gather, lemma_gather_step, ctx_location, context_location, finding, findings_view, FindingView, Finding};
use crate::report::Severity;
use crate::text::{push_str, str_contains, is_infix, copy_string};
use crate::walk::Event;

verus! {

/// The transfer functions whose calls send native assets out.
pub open spec fn withdraw_paths() -> Seq<Seq<char>> {
    seq!["std::asset::transfer"@, "std::asset::transfer_to_address"@, "std::asset::force_transfer_to_contract"@,
        "std::low_level_call::call_with_function_selector"@]
}

/// Whether an event sends native assets out: a call whose function's text is part of a
/// transfer path, or an `asm` block with a `call` instruction.
pub open spec fn is_withdraw<'a>(ev: Event<'a>) -> bool {
    match ev {
        Event::Expr(_, e) => match e.kind {
            ExprKind::FuncApp { func, .. } => exists|k: int| 0 <= k < 4 && is_infix(func.span.text@, #[trigger] withdraw_paths()[k]),
            _ => false,
        },
        Event::AsmBlock(_, a) => exists|k: int| 0 <= k < a.instructions@.len() && (#[trigger] a.instructions@[k]).is_call,
        _ => false,
    }
}

/// The payable functions one event starts, once per `payable` attribute: the offset of the
/// signature and the function's location.
pub open spec fn locking_fns<'a>(j: int, ev: Event<'a>) -> Seq<(int, Seq<char>)> {
    match ev {
        Event::Fn(c, f) => match c.fn_attributes {
            Some(attrs) => attrs@.filter(|a: AttributeDecl| is_infix("payable"@, a.span.text@))
                .map_values(|a: AttributeDecl| (f.fn_signature.span.start as int, ctx_location(c))),
            None => Seq::empty(),
        },
        _ => Seq::empty(),
    }
}

/// The findings for the payable functions.
pub open spec fn locking_findings(n: int, s: Seq<(int, Seq<char>)>) -> Seq<FindingView>
    decreases s.len(),
{
    if s.len() == 0 {
        Seq::empty()
    } else {
        locking_findings(n, s.drop_last()) + finding(n, s.last().0, Severity::High,
            s.last().1 + " will lock native assets. Consider adding a withdraw function."@)
    }
}

/// What the detector reports for a module with the given events: at its end, each payable
/// function when none of the events sends native assets out.
pub open spec fn locked_native_asset_findings<'a>(evs: Seq<Event<'a>>) -> Seq<FindingView> {
    if exists|i: int| 0 <= i < evs.len() && is_withdraw(#[trigger] evs[i]) {
        Seq::empty()
    } else {
        locking_findings(evs.len() as int, gather(evs, |j: int, x: Event<'a>| locking_fns(j, x)))
    }
}

fn is_withdraw_exec<'a>(ev: &Event<'a>) -> (r: bool)
    ensures
        r == is_withdraw(*ev),
{
    match ev {
        Event::Expr(_, e) => match &e.kind {
            ExprKind::FuncApp { func, .. } => {
                let t = func.span.text.as_str();
                let r = str_contains("std::asset::transfer", t) || str_contains("std::asset::transfer_to_address", t)
                    || str_contains("std::asset::force_transfer_to_contract", t)
                    || str_contains("std::low_level_call::call_with_function_selector", t);
                proof {
                    if r {
                        if is_infix(t@, "std::asset::transfer"@) { assert(is_infix(t@, withdraw_paths()[0])); }
                        else if is_infix(t@, "std::asset::transfer_to_address"@) { assert(is_infix(t@, withdraw_paths()[1])); }
                        else if is_infix(t@, "std::asset::force_transfer_to_contract"@) { assert(is_infix(t@, withdraw_paths()[2])); }
                        else { assert(is_infix(t@, withdraw_paths()[3])); }
                    } else {
                        assert forall|k: int| 0 <= k < 4 implies !is_infix(t@, #[trigger] withdraw_paths()[k]) by {
                            if k == 0 {} else if k == 1 {} else if k == 2 {} else {}
                        }
                    }
                }
                r
            },
            _ => false,
        },
        Event::AsmBlock(_, a) => {
            let mut k: usize = 0;
            while k < a.instructions.len()
                invariant
                    k <= a.instructions@.len(),
                    is_withdraw(*ev) == (exists|m: int| 0 <= m < a.instructions@.len() && (#[trigger] a.instructions@[m]).is_call),
                    forall|m: int| 0 <= m < k ==> !(#[trigger] a.instructions@[m]).is_call,
                decreases a.instructions@.len() - k,
            {
                if a.instructions[k].is_call {
                    return true;
                }
                k = k + 1;
            }
            false
        },
        _ => false,
    }
}

/// The detector of this module; `detect` runs it over the events of a module.
pub struct LockedNativeAssetVisitor;

impl LockedNativeAssetVisitor {
    /// Reports the payable functions of a module with the given events when nothing sends native
    /// assets out.
    pub fn detect<'a>(&self, events: &Vec<Event<'a>>) -> (r: Vec<Finding>)
        ensures
            findings_view(r@) == locked_native_asset_findings(events@),
    {
        let ghost g = |j: int, x: Event<'a>| locking_fns(j, x);
        let mut locking: Vec<(usize, String)> = Vec::new();
        let mut withdraw = false;
        let mut i: usize = 0;
        while i < events.len()
            invariant
                i <= events@.len(),
                g == (|j: int, x: Event<'a>| locking_fns(j, x)),
                locking@.map_values(|x: (usize, String)| (x.0 as int, x.1@)) == gather(events@.take(i as int), g),
                withdraw == exists|m: int| 0 <= m < i && is_withdraw(#[trigger] events@[m]),
            decreases events@.len() - i,
        {
            proof {
                lemma_gather_step(events@, g, i as int);
            }
            let ghost before = locking@.map_values(|x: (usize, String)| (x.0 as int, x.1@));
            if is_withdraw_exec(&events[i]) {
                withdraw = true;
            }
            match &events[i] {
                Event::Fn(c, f) => match c.fn_attributes {
                    Some(attrs) => {
                        let loc = context_location(c);
                        let mut k: usize = 0;
                        while k < attrs.len()
                            invariant
                                k <= attrs@.len(),
                                loc@ == ctx_location(*c),
                                locking@.map_values(|x: (usize, String)| (x.0 as int, x.1@)) == before
                                    + attrs@.take(k as int).filter(|a: AttributeDecl| is_infix("payable"@, a.span.text@))
                                        .map_values(|a: AttributeDecl| (f.fn_signature.span.start as int, ctx_location(*c))),
                            decreases attrs@.len() - k,
                        {
                            let ghost lv = locking@.map_values(|x: (usize, String)| (x.0 as int, x.1@));
                            proof {
                                assert(attrs@.take(k + 1).drop_last() =~= attrs@.take(k as int));
                                assert(attrs@.take(k + 1).last() == attrs@[k as int]);
                                reveal_with_fuel(Seq::filter, 1);
                            }
                            if str_contains(attrs[k].span.text.as_str(), "payable") {
                                locking.push((f.fn_signature.span.start, copy_string(loc.as_str())));
                                proof {
                                    assert(locking@.map_values(|x: (usize, String)| (x.0 as int, x.1@)) =~= lv.push((f.fn_signature.span.start as int, ctx_location(*c))));
                                }
                            }
                            proof {
                                assert(locking@.map_values(|x: (usize, String)| (x.0 as int, x.1@)) =~= before
                                    + attrs@.take(k + 1).filter(|a: AttributeDecl| is_infix("payable"@, a.span.text@))
                                        .map_values(|a: AttributeDecl| (f.fn_signature.span.start as int, ctx_location(*c))));
                            }
                            k = k + 1;
                        }
                        proof {
                            assert(attrs@.take(k as int) =~= attrs@);
                        }
                    },
                    None => {},
                },
                _ => {},
            }
            proof {
                assert(locking@.map_values(|x: (usize, String)| (x.0 as int, x.1@)) =~= before + g(i as int, events@[i as int]));
            }
            i = i + 1;
        }
        proof {
            assert(events@.take(i as int) =~= events@);
        }
        let n = events.len();
        let mut r: Vec<Finding> = Vec::new();
        if withdraw {
            proof {
                assert(findings_view(r@) =~= Seq::<FindingView>::empty());
            }
            return r;
        }
        let ghost lv = locking@.map_values(|x: (usize, String)| (x.0 as int, x.1@));
        let mut k: usize = 0;
        while k < locking.len()
            invariant
                k <= locking@.len(),
                n == events@.len(),
                lv == locking@.map_values(|x: (usize, String)| (x.0 as int, x.1@)),
                findings_view(r@) == locking_findings(n as int, lv.take(k as int)),
            decreases locking@.len() - k,
        {
            proof {
                assert(lv.take(k + 1).drop_last() =~= lv.take(k as int));
                assert(lv.take(k + 1).last() == lv[k as int]);
            }
            let ghost before = findings_view(r@);
            let mut text = copy_string(locking[k].1.as_str());
            push_str(&mut text, " will lock native assets. Consider adding a withdraw function.");
            r.push(Finding { event: n, start: locking[k].0, severity: Severity::High, text, reference: None });
            proof {
                assert(findings_view(r@) =~= before + finding(n as int, lv[k as int].0, Severity::High,
                    lv[k as int].1 + " will lock native assets. Consider adding a withdraw function."@));
            }
            k = k + 1;
        }
        proof {
            assert(lv.take(k as int) =~= lv);
        }
        r
    }
}

} // verus!
