//! Reports native asset transfers that an unchecked caller can direct.
use vstd::prelude::*;
use crate::ast::{Expr, ExprKind, FnArg, IfCondition, ItemFn};
use crate::detectors::{gather, lemma_gather_step, ctx_location, context_location, finding, findings_view, FindingView, Finding,
    opt_seq, fn_key, fn_key_of, strings_contain, keys_view, keys_contain};
use crate::report::Severity;
use crate::text::{push_str, str_eq, str_contains, strings_view, is_infix, copy_string};
use crate::utils::{use_tree_name, use_tree_to_name, get_require_args, get_if_revert_condition};
use crate::walk::{Ctx, Event};

verus! {

/// The storage fields of a module whose type mentions `Identity`: the accounts.
pub open spec fn storage_accounts<'a>(j: int, ev: Event<'a>) -> Seq<Seq<char>> {
    match ev {
        Event::StorageField(_, fld) => if is_infix("Identity"@, fld.ty.span.text@) { seq![fld.name.span.text@] } else { Seq::empty() },
        _ => Seq::empty(),
    }
}

/// The transfer functions checked by their full path.
pub open spec fn transfer_paths() -> Seq<Seq<char>> {
    seq!["std::asset::transfer"@, "std::asset::transfer_to_address"@, "std::asset::force_transfer_to_contract"@,
        "std::low_level_call::call_with_function_selector"@]
}

/// The local names under which a `use` item imports the transfer functions.
pub open spec fn transfer_imports<'a>(j: int, ev: Event<'a>) -> Seq<Seq<char>> {
    match ev {
        Event::Use(_, u) => opt_seq(use_tree_name(u.tree, "std::asset::transfer"@))
            + opt_seq(use_tree_name(u.tree, "std::asset::transfer_to_address"@))
            + opt_seq(use_tree_name(u.tree, "std::asset::force_transfer_to_contract"@))
            + opt_seq(use_tree_name(u.tree, "std::low_level_call::call_with_function_selector"@)),
        _ => Seq::empty(),
    }
}

/// Whether some account occurs in the text.
pub open spec fn mentions_account(accounts: Seq<Seq<char>>, text: Seq<char>) -> bool {
    exists|k: int| 0 <= k < accounts.len() && is_infix(#[trigger] accounts[k], text)
}

/// Whether an expression checks the caller against an account: a `require` or an `if ... revert`
/// whose text mentions an account.
pub open spec fn sets_requirement(e: Expr, accounts: Seq<Seq<char>>) -> bool {
    match e.kind {
        ExprKind::FuncApp { func, .. } => func.span.text@ == "require"@ && mentions_account(accounts, e.span.text@),
        ExprKind::If(ifx) => crate::utils::has_revert(ifx.then_block) && match ifx.condition {
            IfCondition::Expr(x) => mentions_account(accounts, x.span.text@),
            _ => false,
        },
        _ => false,
    }
}

/// The functions whose requirement an event establishes.
pub open spec fn requirement_marks<'a>(accounts: Seq<Seq<char>>, j: int, ev: Event<'a>) -> Seq<(int, int)> {
    match ev {
        Event::Expr(c, e) => match c.item_fn {
            Some(f) => if sets_requirement(*e, accounts) { seq![fn_key(f)] } else { Seq::empty() },
            None => Seq::empty(),
        },
        _ => Seq::empty(),
    }
}

/// Whether a function takes an argument of the path type with the given first name.
pub open spec fn has_arg_type(f: &ItemFn, ty: Seq<char>) -> bool {
    exists|k: int| 0 <= k < f.fn_signature.args@.len() && match (#[trigger] f.fn_signature.args@[k]).ty.path {
        Some(p) => p.prefix.span.text@ == ty,
        None => false,
    }
}

/// What the detector reports at one event, given all the events of the module: a call of a
/// transfer function in a function not yet guarded by a check on an account, when the function
/// takes an amount and an identity, or the call's arguments mention an account other than `admin`.
pub open spec fn arbitrary_asset_transfer_at<'a>(evs: Seq<Event<'a>>, i: int, ev: Event<'a>) -> Seq<FindingView> {
    let accounts = gather(evs, |j: int, x: Event<'a>| storage_accounts(j, x));
    match ev {
        Event::Expr(c, e) => match (c.item_fn, e.kind) {
            (Some(f), ExprKind::FuncApp { func, args_span, .. }) => {
                let guarded = gather(evs.take(i), |j: int, x: Event<'a>| requirement_marks(accounts, j, x)).contains(fn_key(f));
                let calls = transfer_paths() + gather(evs.take(i), |j: int, x: Event<'a>| transfer_imports(j, x));
                if !guarded && func.span.text@ != "require"@ && calls.contains(func.span.text@)
                    && ((has_arg_type(f, "u64"@) && has_arg_type(f, "Identity"@))
                        || exists|k: int| 0 <= k < accounts.len() && is_infix(#[trigger] accounts[k], args_span.text@)
                            && accounts[k] != "admin"@) {
                    finding(i, e.span.start as int, Severity::High, ctx_location(c)
                        + " contains an arbitrary native asset transfer: `"@ + e.span.text@ + "`"@)
                } else {
                    Seq::empty()
                }
            },
            _ => Seq::empty(),
        },
        _ => Seq::empty(),
    }
}

fn mentions_account_exec(accounts: &Vec<String>, text: &str) -> (r: bool)
    ensures
        r == mentions_account(strings_view(accounts@), text@),
{
    let ghost av = strings_view(accounts@);
    let mut k: usize = 0;
    while k < accounts.len()
        invariant
            k <= accounts@.len(),
            av == strings_view(accounts@),
            forall|m: int| 0 <= m < k ==> !is_infix(#[trigger] av[m], text@),
        decreases accounts@.len() - k,
    {
        if str_contains(text, accounts[k].as_str()) {
            proof {
                assert(is_infix(av[k as int], text@));
            }
            return true;
        }
        k = k + 1;
    }
    false
}

fn sets_requirement_exec(e: &Expr, accounts: &Vec<String>) -> (r: bool)
    ensures
        r == sets_requirement(*e, strings_view(accounts@)),
{
    match &e.kind {
        ExprKind::FuncApp { func, .. } => str_eq(func.span.text.as_str(), "require") && mentions_account_exec(accounts, e.span.text.as_str()),
        ExprKind::If(ifx) => crate::utils::block_has_revert(&ifx.then_block) && match &ifx.condition {
            IfCondition::Expr(x) => mentions_account_exec(accounts, x.span.text.as_str()),
            _ => false,
        },
        _ => false,
    }
}

fn has_arg_type_exec(f: &ItemFn, ty: &str) -> (r: bool)
    ensures
        r == has_arg_type(f, ty@),
{
    let mut k: usize = 0;
    while k < f.fn_signature.args.len()
        invariant
            k <= f.fn_signature.args@.len(),
            forall|m: int| 0 <= m < k ==> !(match (#[trigger] f.fn_signature.args@[m]).ty.path {
                Some(p) => p.prefix.span.text@ == ty@,
                None => false,
            }),
        decreases f.fn_signature.args@.len() - k,
    {
        match &f.fn_signature.args[k].ty.path {
            Some(p) => if str_eq(p.prefix.span.text.as_str(), ty) {
                return true;
            },
            None => {},
        }
        k = k + 1;
    }
    false
}

fn other_account_in(accounts: &Vec<String>, text: &str) -> (r: bool)
    ensures
        r == exists|k: int| 0 <= k < accounts@.len() && is_infix(#[trigger] strings_view(accounts@)[k], text@)
            && strings_view(accounts@)[k] != "admin"@,
{
    let ghost av = strings_view(accounts@);
    let mut k: usize = 0;
    while k < accounts.len()
        invariant
            k <= accounts@.len(),
            av == strings_view(accounts@),
            forall|m: int| 0 <= m < k ==> !(is_infix(#[trigger] av[m], text@) && av[m] != "admin"@),
        decreases accounts@.len() - k,
    {
        if str_contains(text, accounts[k].as_str()) && !str_eq(accounts[k].as_str(), "admin") {
            proof {
                assert(is_infix(av[k as int], text@) && av[k as int] != "admin"@);
            }
            return true;
        }
        k = k + 1;
    }
    false
}

/// The detector of this module; `detect` runs it over the events of a module.
pub struct ArbitraryAssetTransferVisitor;

impl ArbitraryAssetTransferVisitor {
    /// Reports the arbitrary asset transfers among the events of a module.
    pub fn detect<'a>(&self, events: &Vec<Event<'a>>) -> (r: Vec<Finding>)
        ensures
            findings_view(r@) == gather(events@, |i: int, ev: Event<'a>| arbitrary_asset_transfer_at(events@, i, ev)),
    {
        let ghost ga = |j: int, x: Event<'a>| storage_accounts(j, x);
        let mut accounts: Vec<String> = Vec::new();
        let mut k: usize = 0;
        while k < events.len()
            invariant
                k <= events@.len(),
                ga == (|j: int, x: Event<'a>| storage_accounts(j, x)),
                strings_view(accounts@) == gather(events@.take(k as int), ga),
            decreases events@.len() - k,
        {
            proof {
                lemma_gather_step(events@, ga, k as int);
            }
            let ghost before = strings_view(accounts@);
            match &events[k] {
                Event::StorageField(_, fld) => if str_contains(fld.ty.span.text.as_str(), "Identity") {
                    accounts.push(copy_string(fld.name.span.text.as_str()));
                },
                _ => {},
            }
            proof {
                assert(strings_view(accounts@) =~= before + ga(k as int, events@[k as int]));
            }
            k = k + 1;
        }
        proof {
            assert(events@.take(k as int) =~= events@);
        }
        let ghost acc = strings_view(accounts@);
        let ghost f = |i: int, ev: Event<'a>| arbitrary_asset_transfer_at(events@, i, ev);
        let ghost gr = |j: int, x: Event<'a>| requirement_marks(acc, j, x);
        let ghost gt = |j: int, x: Event<'a>| transfer_imports(j, x);
        let mut r: Vec<Finding> = Vec::new();
        let mut guarded: Vec<(usize, usize)> = Vec::new();
        let mut calls: Vec<String> = Vec::new();
        calls.push(copy_string("std::asset::transfer"));
        calls.push(copy_string("std::asset::transfer_to_address"));
        calls.push(copy_string("std::asset::force_transfer_to_contract"));
        calls.push(copy_string("std::low_level_call::call_with_function_selector"));
        proof {
            assert(strings_view(calls@) =~= transfer_paths() + gather(events@.take(0), gt));
        }
        let mut i: usize = 0;
        while i < events.len()
            invariant
                i <= events@.len(),
                acc == strings_view(accounts@),
                acc == gather(events@, ga),
                ga == (|j: int, x: Event<'a>| storage_accounts(j, x)),
                f == (|i: int, ev: Event<'a>| arbitrary_asset_transfer_at(events@, i, ev)),
                gr == (|j: int, x: Event<'a>| requirement_marks(acc, j, x)),
                gt == (|j: int, x: Event<'a>| transfer_imports(j, x)),
                findings_view(r@) == gather(events@.take(i as int), f),
                keys_view(guarded@) == gather(events@.take(i as int), gr),
                strings_view(calls@) == transfer_paths() + gather(events@.take(i as int), gt),
            decreases events@.len() - i,
        {
            proof {
                lemma_gather_step(events@, f, i as int);
                lemma_gather_step(events@, gr, i as int);
                lemma_gather_step(events@, gt, i as int);
            }
            let ghost before = findings_view(r@);
            let ghost guarded_before = keys_view(guarded@);
            let ghost calls_before = strings_view(calls@);
            match &events[i] {
                Event::Use(_, u) => {
                    let a = use_tree_to_name(&u.tree, "std::asset::transfer");
                    let b = use_tree_to_name(&u.tree, "std::asset::transfer_to_address");
                    let c = use_tree_to_name(&u.tree, "std::asset::force_transfer_to_contract");
                    let d = use_tree_to_name(&u.tree, "std::low_level_call::call_with_function_selector");
                    match a { Some(n) => calls.push(n), None => {} }
                    match b { Some(n) => calls.push(n), None => {} }
                    match c { Some(n) => calls.push(n), None => {} }
                    match d { Some(n) => calls.push(n), None => {} }
                    proof {
                        assert(strings_view(calls@) =~= calls_before + gt(i as int, events@[i as int]));
                    }
                },
                Event::Expr(c, e) => {
                    match c.item_fn {
                        Some(func) => {
                            let key = fn_key_of(func);
                            match &e.kind {
                                ExprKind::FuncApp { func: callee, args_span, .. } => {
                                    let is_guarded = keys_contain(&guarded, key);
                                    if !is_guarded && !str_eq(callee.span.text.as_str(), "require")
                                        && strings_contain(&calls, callee.span.text.as_str())
                                        && ((has_arg_type_exec(func, "u64") && has_arg_type_exec(func, "Identity"))
                                            || other_account_in(&accounts, args_span.text.as_str())) {
                                        let mut text = context_location(c);
                                        push_str(&mut text, " contains an arbitrary native asset transfer: `");
                                        push_str(&mut text, e.span.text.as_str());
                                        push_str(&mut text, "`");
                                        r.push(Finding { event: i, start: e.span.start, severity: Severity::High, text, reference: None });
                                    }
                                },
                                _ => {},
                            }
                            if sets_requirement_exec(e, &accounts) {
                                guarded.push(key);
                            }
                        },
                        None => {},
                    }
                    proof {
                        assert(keys_view(guarded@) =~= guarded_before + gr(i as int, events@[i as int]));
                    }
                },
                _ => {},
            }
            proof {
                assert(keys_view(guarded@) =~= guarded_before + gr(i as int, events@[i as int]));
                assert(strings_view(calls@) =~= calls_before + gt(i as int, events@[i as int]));
                assert(findings_view(r@) =~= before + f(i as int, events@[i as int]));
            }
            i = i + 1;
        }
        proof {
            assert(events@.take(i as int) =~= events@);
        }
        r
    }
}

} // verus!
