//! Reports functions that write storage without any check on the caller, counting the checks
//! and writes of the functions they call.
use vstd::prelude::*;
use crate::ast::{Expr, ExprKind, IfCondition, ImplItem, ImplItemKind, Item, ItemImpl, ItemKind, Module};
use crate::detectors::{gather, lemma_gather_step, ctx_location, context_location, finding, findings_view, FindingView, Finding,
    fn_key, fn_key_of, open_blocks, lemma_open_blocks_step, BlockStack, is_first, lemma_first_unique};
use crate::detectors::arbitrary_code_execution::{sender_imports, sender_state, lemma_sender_state_step, sender_vars,
    sender_vars_view, contains_sender_call, contains_sender_var, contains_sender_call_exec, contains_sender_var_exec,
    track_sender_vars, SenderVar};
use crate::report::Severity;
use crate::text::{push_str, str_eq, copy_string, strings_view, to_chars};
use crate::utils::{name, has_revert, block_has_revert, use_tree_name, use_tree_to_name, storage_write_target,
    storage_write_statement_to_storage_variable_ident};
use crate::walk::Event;

verus! {

/// What is known of a function: its key, whether it checks the caller, and the storage fields it
/// writes.
pub type FnGuard = ((int, int), bool, Seq<Seq<char>>);

/// The record of the function with the given key.
pub open spec fn key_match(key: (int, int)) -> spec_fn(FnGuard) -> bool {
    |g: FnGuard| g.0 == key
}

/// Whether a condition involves the caller: a call of `msg_sender`, or a variable holding it.
pub open spec fn involves_sender(cond: Expr, names: Seq<Seq<char>>, vars: Seq<SenderVar>,
    open: Seq<(Option<(int, int)>, (int, int))>, key: (int, int)) -> bool
{
    contains_sender_call(cond, names) || contains_sender_var(cond, vars, open, key)
}

/// The records after the function with the given key writes the storage field `nm`.
pub open spec fn record_write(gs: Seq<FnGuard>, key: (int, int), nm: Seq<char>) -> Seq<FnGuard> {
    if exists|k: int| #[trigger] is_first(gs, key_match(key), k) {
        let k = choose|k: int| #[trigger] is_first(gs, key_match(key), k);
        let g = gs[k];
        if g.2.contains(nm) { gs } else { gs.update(k, (g.0, g.1, g.2.push(nm))) }
    } else {
        gs
    }
}

/// The records after the function with the given key checks the caller.
pub open spec fn mark_guarded(gs: Seq<FnGuard>, key: (int, int)) -> Seq<FnGuard> {
    if exists|k: int| #[trigger] is_first(gs, key_match(key), k) {
        let k = choose|k: int| #[trigger] is_first(gs, key_match(key), k);
        let g = gs[k];
        gs.update(k, (g.0, true, g.2))
    } else {
        gs
    }
}

/// The records after one more event of the first walk, the events `pre` coming before it: a
/// function gets a record when first met; a statement writing a storage field records the write;
/// a `require` with an argument, or an `if` that reverts with a condition, involving the caller
/// records the check.
pub open spec fn guard_step<'a>(pre: Seq<Event<'a>>, gs: Seq<FnGuard>, ev: Event<'a>) -> Seq<FnGuard> {
    let names = gather(pre, |k: int, x: Event<'a>| sender_imports(k, x));
    let vars = sender_state(pre);
    let open = open_blocks(pre);
    match ev {
        Event::Fn(_, f) => if exists|k: int| 0 <= k < gs.len() && (#[trigger] gs[k]).0 == fn_key(f) {
            gs
        } else {
            gs.push((fn_key(f), false, Seq::empty()))
        },
        Event::Statement(c, s) => match (c.item_fn, storage_write_target(*s)) {
            (Some(f), Some(id)) => record_write(gs, fn_key(f), name(id)),
            _ => gs,
        },
        Event::If(c, _, ifx) => match (c.item_fn, ifx.condition) {
            (Some(f), IfCondition::Expr(cond)) => if !c.in_const && has_revert(ifx.then_block)
                && involves_sender(*cond, names, vars, open, fn_key(f)) {
                mark_guarded(gs, fn_key(f))
            } else {
                gs
            },
            _ => gs,
        },
        Event::Expr(c, e) => match (c.item_fn, e.kind) {
            (Some(f), ExprKind::FuncApp { func, args, .. }) => if !c.in_const && func.span.text@ == "require"@
                && exists|a: int| 0 <= a < args@.len() && #[trigger] involves_sender(args@[a], names, vars, open, fn_key(f)) {
                mark_guarded(gs, fn_key(f))
            } else {
                gs
            },
            _ => gs,
        },
        _ => gs,
    }
}

/// The records after the first walk over the given events.
pub open spec fn guard_state<'a>(evs: Seq<Event<'a>>) -> Seq<FnGuard>
    decreases evs.len(),
{
    if evs.len() == 0 {
        Seq::empty()
    } else {
        guard_step(evs.drop_last(), guard_state(evs.drop_last()), evs.last())
    }
}

proof fn lemma_guard_state_step<'a>(evs: Seq<Event<'a>>, i: int)
    requires
        0 <= i < evs.len(),
    ensures
        guard_state(evs.take(i + 1)) == guard_step(evs.take(i), guard_state(evs.take(i)), evs[i]),
{
    assert(evs.take(i + 1).drop_last() =~= evs.take(i));
}

/// The key of the first function of `items`, from position `i` on, named `nm`.
pub open spec fn top_fn_key(items: Seq<Item>, nm: Seq<char>, i: int) -> Option<(int, int)>
    decreases items.len() - i,
{
    if i < 0 || i >= items.len() {
        None
    } else {
        match items[i].kind {
            ItemKind::Fn(f) => if name(f.fn_signature.name) == nm { Some(fn_key(&f)) } else { top_fn_key(items, nm, i + 1) },
            _ => top_fn_key(items, nm, i + 1),
        }
    }
}

/// The key of the first function of an `impl` block, from position `i` on, named `nm`.
pub open spec fn impl_fn_key(items: Seq<ImplItem>, nm: Seq<char>, i: int) -> Option<(int, int)>
    decreases items.len() - i,
{
    if i < 0 || i >= items.len() {
        None
    } else {
        match items[i].kind {
            ImplItemKind::Fn(f) => if name(f.fn_signature.name) == nm { Some(fn_key(&f)) } else { impl_fn_key(items, nm, i + 1) },
            _ => impl_fn_key(items, nm, i + 1),
        }
    }
}

/// The function a call of `nm` reaches: the first function of the module of that name, else the
/// first of the `impl` block the call stands in.
pub open spec fn callee_key(m: Module, item_impl: Option<&ItemImpl>, nm: Seq<char>) -> Option<(int, int)> {
    match top_fn_key(m.items@, nm, 0) {
        Some(k) => Some(k),
        None => match item_impl {
            Some(im) => impl_fn_key(im.contents@, nm, 0),
            None => None,
        },
    }
}

/// Whether `a` sorts before or with `b`, from position `i` on, comparing characters by code.
pub open spec fn str_le_from(a: Seq<char>, b: Seq<char>, i: int) -> bool
    decreases a.len() - i,
{
    if i < 0 || i >= a.len() {
        true
    } else if i >= b.len() {
        false
    } else if (a[i] as u32) < (b[i] as u32) {
        true
    } else if a[i] == b[i] {
        str_le_from(a, b, i + 1)
    } else {
        false
    }
}

/// Whether `a` sorts before or with `b`, character by character.
pub open spec fn str_le(a: Seq<char>, b: Seq<char>) -> bool {
    str_le_from(a, b, 0)
}

/// `t` with `x` put after the last element that sorts before or with it.
pub open spec fn insert_sorted(t: Seq<Seq<char>>, x: Seq<char>) -> Seq<Seq<char>>
    decreases t.len(),
{
    if t.len() == 0 {
        seq![x]
    } else if str_le(t.last(), x) {
        t.push(x)
    } else {
        insert_sorted(t.drop_last(), x).push(t.last())
    }
}

/// The names in sorted order.
pub open spec fn sort_names(s: Seq<Seq<char>>) -> Seq<Seq<char>>
    decreases s.len(),
{
    if s.len() == 0 {
        Seq::empty()
    } else {
        insert_sorted(sort_names(s.drop_last()), s.last())
    }
}

/// `a` followed by the names of `b` that it lacks.
pub open spec fn merge_names(a: Seq<Seq<char>>, b: Seq<Seq<char>>) -> Seq<Seq<char>>
    decreases b.len(),
{
    if b.len() == 0 {
        a
    } else {
        let m = merge_names(a, b.drop_last());
        if m.contains(b.last()) { m } else { m.push(b.last()) }
    }
}

/// The records after one more event of the second walk: a call of a function of the module
/// passes on to the calling function its check, and its writes, the writes then being sorted.
pub open spec fn pass_step<'a>(m: Module, gs: Seq<FnGuard>, ev: Event<'a>) -> Seq<FnGuard> {
    match ev {
        Event::Expr(c, e) => match e.kind {
            ExprKind::FuncApp { func, .. } => match (callee_key(m, c.item_impl, func.span.text@), c.item_fn) {
                (Some(ck), Some(f)) => if (exists|k: int| #[trigger] is_first(gs, key_match(ck), k))
                    && (exists|k: int| #[trigger] is_first(gs, key_match(fn_key(f)), k)) {
                    let kc = choose|k: int| #[trigger] is_first(gs, key_match(ck), k);
                    let kf = choose|k: int| #[trigger] is_first(gs, key_match(fn_key(f)), k);
                    let callee = gs[kc];
                    let cur = gs[kf];
                    gs.update(kf, (cur.0, cur.1 || callee.1, sort_names(merge_names(cur.2, callee.2))))
                } else {
                    gs
                },
                _ => gs,
            },
            _ => gs,
        },
        _ => gs,
    }
}

/// The records after the second walk has passed the given events, starting from `gs`.
pub open spec fn pass_state<'a>(m: Module, gs: Seq<FnGuard>, evs: Seq<Event<'a>>) -> Seq<FnGuard>
    decreases evs.len(),
{
    if evs.len() == 0 {
        gs
    } else {
        pass_step(m, pass_state(m, gs, evs.drop_last()), evs.last())
    }
}

proof fn lemma_pass_state_step<'a>(m: Module, gs: Seq<FnGuard>, evs: Seq<Event<'a>>, i: int)
    requires
        0 <= i < evs.len(),
    ensures
        pass_state(m, gs, evs.take(i + 1)) == pass_step(m, pass_state(m, gs, evs.take(i)), evs[i]),
{
    assert(evs.take(i + 1).drop_last() =~= evs.take(i));
}

/// The names, each between backticks, separated by commas.
pub open spec fn ticked_list(s: Seq<Seq<char>>) -> Seq<char>
    decreases s.len(),
{
    if s.len() == 0 {
        Seq::empty()
    } else if s.len() == 1 {
        "`"@ + s[0] + "`"@
    } else {
        ticked_list(s.drop_last()) + ", `"@ + s.last() + "`"@
    }
}

/// What the second walk reports when it leaves a function: storage written without any check on
/// the caller. Such findings come at the end of the module, position `n`.
pub open spec fn exposure_at<'a>(n: int, gs: Seq<FnGuard>, ev: Event<'a>) -> Seq<FindingView> {
    match ev {
        Event::LeaveFn(c, f) => if exists|k: int| #[trigger] is_first(gs, key_match(fn_key(f)), k) {
            let g = gs[choose|k: int| #[trigger] is_first(gs, key_match(fn_key(f)), k)];
            if g.2.len() > 0 && !g.1 {
                finding(n, f.fn_signature.span.start as int, Severity::High, ctx_location(c) + " writes to the "@
                    + ticked_list(g.2) + " storage "@ + (if g.2.len() == 1 { "variable"@ } else { "variables"@ })
                    + " without access restriction. Consider checking against `msg_sender()` in order to limit access."@)
            } else {
                Seq::empty()
            }
        } else {
            Seq::empty()
        },
        _ => Seq::empty(),
    }
}

/// What the detector reports for a module: after a first walk over its events, a second walk
/// passes checks and writes from called to calling functions and reports each exposed function
/// as it leaves it.
pub open spec fn unprotected_storage_findings<'a>(m: Module, evs: Seq<Event<'a>>) -> Seq<FindingView> {
    gather(evs, |i: int, ev: Event<'a>| exposure_at(evs.len() as int, pass_state(m, guard_state(evs), evs.take(i)), ev))
}

struct GuardRec {
    key: (usize, usize),
    guarded: bool,
    written: Vec<String>,
}

spec fn guard_view(g: GuardRec) -> FnGuard {
    ((g.key.0 as int, g.key.1 as int), g.guarded, strings_view(g.written@))
}

spec fn guards_view(v: Seq<GuardRec>) -> Seq<FnGuard> {
    v.map_values(|g: GuardRec| guard_view(g))
}

spec fn kv(k: (usize, usize)) -> (int, int) {
    (k.0 as int, k.1 as int)
}

fn find_guard(gs: &Vec<GuardRec>, key: (usize, usize)) -> (r: Option<usize>)
    ensures
        match r {
            Some(k) => is_first(guards_view(gs@), key_match(kv(key)), k as int),
            None => forall|k: int| 0 <= k < gs@.len() ==> !key_match(kv(key))(#[trigger] guards_view(gs@)[k]),
        },
{
    let ghost v = guards_view(gs@);
    let mut i: usize = 0;
    while i < gs.len()
        invariant
            i <= gs@.len(),
            v == guards_view(gs@),
            forall|l: int| 0 <= l < i ==> !key_match(kv(key))(#[trigger] v[l]),
        decreases gs@.len() - i,
    {
        if gs[i].key.0 == key.0 && gs[i].key.1 == key.1 {
            return Some(i);
        }
        i = i + 1;
    }
    None
}

fn copy_strings(v: &Vec<String>) -> (r: Vec<String>)
    ensures
        strings_view(r@) == strings_view(v@),
{
    let mut r: Vec<String> = Vec::new();
    let mut i: usize = 0;
    while i < v.len()
        invariant
            i <= v@.len(),
            strings_view(r@) == strings_view(v@).take(i as int),
        decreases v@.len() - i,
    {
        let ghost before = strings_view(r@);
        r.push(copy_string(v[i].as_str()));
        proof {
            assert(before.len() == i);
            assert(strings_view(r@).len() == i + 1);
            assert(strings_view(r@) =~= strings_view(v@).take(i as int + 1));
        }
        i = i + 1;
    }
    proof {
        assert(strings_view(v@).take(i as int) =~= strings_view(v@));
    }
    r
}

fn strings_have(v: &Vec<String>, s: &str) -> (r: bool)
    ensures
        r == strings_view(v@).contains(s@),
{
    let ghost sv = strings_view(v@);
    let mut i: usize = 0;
    while i < v.len()
        invariant
            i <= v@.len(),
            sv == strings_view(v@),
            forall|l: int| 0 <= l < i ==> sv[l] != s@,
        decreases v@.len() - i,
    {
        if str_eq(v[i].as_str(), s) {
            proof {
                assert(sv[i as int] == s@);
            }
            return true;
        }
        i = i + 1;
    }
    false
}

fn replace_guard(gs: &mut Vec<GuardRec>, k: usize, g: GuardRec)
    requires
        k < old(gs)@.len(),
    ensures
        guards_view(final(gs)@) == guards_view(old(gs)@).update(k as int, guard_view(g)),
{
    gs.remove(k);
    gs.insert(k, g);
    proof {
        assert(guards_view(gs@) =~= guards_view(old(gs)@).update(k as int, guard_view(g)));
    }
}

fn record_write_exec(gs: &mut Vec<GuardRec>, key: (usize, usize), nm: &str)
    ensures
        guards_view(final(gs)@) == record_write(guards_view(old(gs)@), kv(key), nm@),
{
    let ghost v = guards_view(gs@);
    match find_guard(gs, key) {
        Some(k) => {
            proof {
                let c = choose|c: int| #[trigger] is_first(v, key_match(kv(key)), c);
                lemma_first_unique(v, key_match(kv(key)), c, k as int);
            }
            if !strings_have(&gs[k].written, nm) {
                let mut written = copy_strings(&gs[k].written);
                let ghost wb = strings_view(written@);
                written.push(copy_string(nm));
                proof {
                    assert(strings_view(written@) =~= wb.push(nm@));
                }
                let g = GuardRec { key: gs[k].key, guarded: gs[k].guarded, written };
                replace_guard(gs, k, g);
            }
        },
        None => {
            proof {
                assert(!exists|c: int| #[trigger] is_first(v, key_match(kv(key)), c));
            }
        },
    }
}

fn mark_guarded_exec(gs: &mut Vec<GuardRec>, key: (usize, usize))
    ensures
        guards_view(final(gs)@) == mark_guarded(guards_view(old(gs)@), kv(key)),
{
    let ghost v = guards_view(gs@);
    match find_guard(gs, key) {
        Some(k) => {
            proof {
                let c = choose|c: int| #[trigger] is_first(v, key_match(kv(key)), c);
                lemma_first_unique(v, key_match(kv(key)), c, k as int);
            }
            let written = copy_strings(&gs[k].written);
            let g = GuardRec { key: gs[k].key, guarded: true, written };
            replace_guard(gs, k, g);
        },
        None => {
            proof {
                assert(!exists|c: int| #[trigger] is_first(v, key_match(kv(key)), c));
            }
        },
    }
}

fn top_fn_key_exec(items: &Vec<Item>, nm: &str) -> (r: Option<(usize, usize)>)
    ensures
        match top_fn_key(items@, nm@, 0) {
            Some(k) => r matches Some(x) && kv(x) == k,
            None => r is None,
        },
{
    let mut i: usize = 0;
    while i < items.len()
        invariant
            i <= items@.len(),
            top_fn_key(items@, nm@, 0) == top_fn_key(items@, nm@, i as int),
        decreases items@.len() - i,
    {
        match &items[i].kind {
            ItemKind::Fn(f) => {
                if str_eq(f.fn_signature.name.span.text.as_str(), nm) {
                    return Some(fn_key_of(f));
                }
            },
            _ => {},
        }
        i = i + 1;
    }
    None
}

fn impl_fn_key_exec(items: &Vec<ImplItem>, nm: &str) -> (r: Option<(usize, usize)>)
    ensures
        match impl_fn_key(items@, nm@, 0) {
            Some(k) => r matches Some(x) && kv(x) == k,
            None => r is None,
        },
{
    let mut i: usize = 0;
    while i < items.len()
        invariant
            i <= items@.len(),
            impl_fn_key(items@, nm@, 0) == impl_fn_key(items@, nm@, i as int),
        decreases items@.len() - i,
    {
        match &items[i].kind {
            ImplItemKind::Fn(f) => {
                if str_eq(f.fn_signature.name.span.text.as_str(), nm) {
                    return Some(fn_key_of(f));
                }
            },
            _ => {},
        }
        i = i + 1;
    }
    None
}

fn callee_key_exec(m: &Module, item_impl: Option<&ItemImpl>, nm: &str) -> (r: Option<(usize, usize)>)
    ensures
        match callee_key(*m, item_impl, nm@) {
            Some(k) => r matches Some(x) && kv(x) == k,
            None => r is None,
        },
{
    match top_fn_key_exec(&m.items, nm) {
        Some(k) => Some(k),
        None => match item_impl {
            Some(im) => impl_fn_key_exec(&im.contents, nm),
            None => None,
        },
    }
}

fn str_le_exec(a: &str, b: &str) -> (r: bool)
    ensures
        r == str_le(a@, b@),
{
    let ca = to_chars(a);
    let cb = to_chars(b);
    let mut i: usize = 0;
    while i < ca.len()
        invariant
            i <= ca@.len(),
            ca@ == a@,
            cb@ == b@,
            str_le(a@, b@) == str_le_from(a@, b@, i as int),
        decreases ca@.len() - i,
    {
        if i >= cb.len() {
            return false;
        }
        if (ca[i] as u32) < (cb[i] as u32) {
            return true;
        }
        if ca[i] != cb[i] {
            return false;
        }
        i = i + 1;
    }
    true
}

fn insert_sorted_exec(t: Vec<String>, x: String) -> (r: Vec<String>)
    ensures
        strings_view(r@) == insert_sorted(strings_view(t@), x@),
    decreases t@.len(),
{
    let ghost tv = strings_view(t@);
    let mut t = t;
    if t.len() == 0 {
        let mut r: Vec<String> = Vec::new();
        r.push(x);
        proof {
            assert(strings_view(r@) =~= seq![x@]);
        }
        return r;
    }
    let last = t.pop().unwrap();
    proof {
        assert(strings_view(t@) =~= tv.drop_last());
        assert(last@ == tv.last());
    }
    if str_le_exec(last.as_str(), x.as_str()) {
        t.push(last);
        t.push(x);
        proof {
            assert(strings_view(t@) =~= tv.push(x@));
        }
        t
    } else {
        let mut r = insert_sorted_exec(t, x);
        let ghost rb = strings_view(r@);
        r.push(last);
        proof {
            assert(strings_view(r@) =~= rb.push(tv.last()));
        }
        r
    }
}

fn sort_names_exec(s: &Vec<String>) -> (r: Vec<String>)
    ensures
        strings_view(r@) == sort_names(strings_view(s@)),
{
    let ghost sv = strings_view(s@);
    let mut r: Vec<String> = Vec::new();
    let mut i: usize = 0;
    while i < s.len()
        invariant
            i <= s@.len(),
            sv == strings_view(s@),
            strings_view(r@) == sort_names(sv.take(i as int)),
        decreases s@.len() - i,
    {
        proof {
            assert(sv.take(i as int + 1).drop_last() =~= sv.take(i as int));
            assert(sv.take(i as int + 1).last() == s@[i as int]@);
        }
        r = insert_sorted_exec(r, copy_string(s[i].as_str()));
        i = i + 1;
    }
    proof {
        assert(sv.take(i as int) =~= sv);
    }
    r
}

fn merge_names_exec(a: &Vec<String>, b: &Vec<String>) -> (r: Vec<String>)
    ensures
        strings_view(r@) == merge_names(strings_view(a@), strings_view(b@)),
{
    let ghost av = strings_view(a@);
    let ghost bv = strings_view(b@);
    let mut r = copy_strings(a);
    let mut i: usize = 0;
    while i < b.len()
        invariant
            i <= b@.len(),
            av == strings_view(a@),
            bv == strings_view(b@),
            strings_view(r@) == merge_names(av, bv.take(i as int)),
        decreases b@.len() - i,
    {
        proof {
            assert(bv.take(i as int + 1).drop_last() =~= bv.take(i as int));
            assert(bv.take(i as int + 1).last() == b@[i as int]@);
        }
        if !strings_have(&r, b[i].as_str()) {
            let ghost rb = strings_view(r@);
            r.push(copy_string(b[i].as_str()));
            proof {
                assert(strings_view(r@) =~= rb.push(b@[i as int]@));
            }
        }
        i = i + 1;
    }
    proof {
        assert(bv.take(i as int) =~= bv);
    }
    r
}

fn pass_exec<'a>(m: &Module, gs: &mut Vec<GuardRec>, ev: &Event<'a>)
    ensures
        guards_view(final(gs)@) == pass_step(*m, guards_view(old(gs)@), *ev),
{
    let ghost v = guards_view(gs@);
    match ev {
        Event::Expr(c, e) => match &e.kind {
            ExprKind::FuncApp { func, .. } => match (callee_key_exec(m, c.item_impl, func.span.text.as_str()), c.item_fn) {
                (Some(ck), Some(f)) => {
                    let fk = fn_key_of(f);
                    match (find_guard(gs, ck), find_guard(gs, fk)) {
                        (Some(kc), Some(kf)) => {
                            proof {
                                let c1 = choose|k: int| #[trigger] is_first(v, key_match(kv(ck)), k);
                                lemma_first_unique(v, key_match(kv(ck)), c1, kc as int);
                                let c2 = choose|k: int| #[trigger] is_first(v, key_match(kv(fk)), k);
                                lemma_first_unique(v, key_match(kv(fk)), c2, kf as int);
                            }
                            let merged = merge_names_exec(&gs[kf].written, &gs[kc].written);
                            let written = sort_names_exec(&merged);
                            let g = GuardRec { key: gs[kf].key, guarded: gs[kf].guarded || gs[kc].guarded, written };
                            replace_guard(gs, kf, g);
                        },
                        (Some(kc), None) => {
                            proof {
                                assert(!exists|k: int| #[trigger] is_first(v, key_match(kv(fk)), k));
                            }
                        },
                        (None, _) => {
                            proof {
                                assert(!exists|k: int| #[trigger] is_first(v, key_match(kv(ck)), k));
                            }
                        },
                    }
                },
                _ => {},
            },
            _ => {},
        },
        _ => {},
    }
}

fn push_ticked_list(out: &mut String, s: &Vec<String>)
    ensures
        final(out)@ == old(out)@ + ticked_list(strings_view(s@)),
{
    let ghost start = out@;
    let ghost sv = strings_view(s@);
    let mut i: usize = 0;
    while i < s.len()
        invariant
            i <= s@.len(),
            sv == strings_view(s@),
            out@ == start + ticked_list(sv.take(i as int)),
        decreases s@.len() - i,
    {
        proof {
            assert(sv.take(i as int + 1).drop_last() =~= sv.take(i as int));
            assert(sv.take(i as int + 1).last() == s@[i as int]@);
        }
        if i == 0 {
            push_str(out, "`");
        } else {
            push_str(out, ", `");
        }
        push_str(out, s[i].as_str());
        push_str(out, "`");
        proof {
            if i == 0 {
                assert(sv.take(1)[0] == s@[0]@);
                assert(sv.take(0) =~= Seq::<Seq<char>>::empty());
            }
            assert(out@ =~= start + ticked_list(sv.take(i as int + 1)));
        }
        i = i + 1;
    }
    proof {
        assert(sv.take(i as int) =~= sv);
    }
}

/// The detector of this module; `detect` runs it over the events of a module.
pub struct UnprotectedStorageVariablesVisitor;

impl UnprotectedStorageVariablesVisitor {
    /// Reports, for a module and the events of its walk, the functions that write storage without a
    /// check on the caller.
    pub fn detect<'a>(&self, module: &Module, events: &Vec<Event<'a>>) -> (r: Vec<Finding>)
        ensures
            findings_view(r@) == unprotected_storage_findings(*module, events@),
    {
        let ghost gn = |k: int, x: Event<'a>| sender_imports(k, x);
        let mut names: Vec<String> = Vec::new();
        let mut vars: Vec<((usize, usize), (usize, usize), String, bool)> = Vec::new();
        let mut gs: Vec<GuardRec> = Vec::new();
        let mut stack = BlockStack::new();
        let mut i: usize = 0;
        while i < events.len()
            invariant
                i <= events@.len(),
                gn == (|k: int, x: Event<'a>| sender_imports(k, x)),
                strings_view(names@) == gather(events@.take(i as int), gn),
                sender_vars_view(vars@) == sender_state(events@.take(i as int)),
                guards_view(gs@) == guard_state(events@.take(i as int)),
                stack.view() == open_blocks(events@.take(i as int)),
            decreases events@.len() - i,
        {
            proof {
                lemma_gather_step(events@, gn, i as int);
                lemma_sender_state_step(events@, i as int);
                lemma_guard_state_step(events@, i as int);
                lemma_open_blocks_step(events@, i as int);
            }
            let ghost names_before = strings_view(names@);
            let ghost vars_before = sender_vars_view(vars@);
            let ghost pre = events@.take(i as int);
            let ev = &events[i];
            track_sender_vars(&mut vars, &names, &stack, ev, Ghost(pre));
            proof {
                match events@[i as int] {
                    Event::Expr(_, _) => {
                        assert(sender_vars_view(vars@) =~= vars_before);
                    },
                    Event::If(_, _, ifx) => {
                        match ifx.condition {
                            IfCondition::Expr(_) => {
                                assert(sender_vars_view(vars@) =~= vars_before);
                            },
                            _ => {},
                        }
                    },
                    _ => {},
                }
            }
            match ev {
                Event::Fn(_, f) => {
                    let key = fn_key_of(f);
                    match find_guard(&gs, key) {
                        Some(k) => {
                            proof {
                                assert(guards_view(gs@)[k as int].0 == kv(key));
                            }
                        },
                        None => {
                            let ghost gb = guards_view(gs@);
                            let written: Vec<String> = Vec::new();
                            proof {
                                assert(strings_view(written@) =~= Seq::<Seq<char>>::empty());
                            }
                            gs.push(GuardRec { key, guarded: false, written });
                            proof {
                                assert(guards_view(gs@) =~= gb.push((kv(key), false, Seq::empty())));
                            }
                        },
                    }
                },
                Event::Statement(c, s) => {
                    match (c.item_fn, storage_write_statement_to_storage_variable_ident(s)) {
                        (Some(f), Some(id)) => record_write_exec(&mut gs, fn_key_of(f), id.span.text.as_str()),
                        _ => {},
                    }
                },
                Event::If(c, _, ifx) => {
                    match (c.item_fn, &ifx.condition) {
                        (Some(f), IfCondition::Expr(cond)) => {
                            let key = fn_key_of(f);
                            if !c.in_const && block_has_revert(&ifx.then_block)
                                && (contains_sender_call_exec(cond, &names) || contains_sender_var_exec(cond, &vars, &stack, key)) {
                                mark_guarded_exec(&mut gs, key);
                            }
                        },
                        _ => {},
                    }
                },
                Event::Expr(c, e) => {
                    match (c.item_fn, &e.kind) {
                        (Some(f), ExprKind::FuncApp { func, args, .. }) => {
                            if !c.in_const && str_eq(func.span.text.as_str(), "require") {
                                let key = fn_key_of(f);
                                let ghost open = stack.view();
                                let ghost kk = kv(key);
                                let mut found = false;
                                let mut a: usize = 0;
                                while a < args.len()
                                    invariant
                                        a <= args@.len(),
                                        open == stack.view(),
                                        kk == kv(key),
                                        found == exists|b: int| 0 <= b < a
                                            && #[trigger] involves_sender(args@[b], strings_view(names@), sender_vars_view(vars@), open, kk),
                                    decreases args@.len() - a,
                                {
                                    if !found {
                                        let hit = contains_sender_call_exec(&args[a], &names)
                                            || contains_sender_var_exec(&args[a], &vars, &stack, key);
                                        proof {
                                            assert(hit == involves_sender(args@[a as int], strings_view(names@), sender_vars_view(vars@), open, kk));
                                        }
                                        if hit {
                                            found = true;
                                        }
                                    }
                                    a = a + 1;
                                }
                                if found {
                                    mark_guarded_exec(&mut gs, key);
                                }
                            }
                        },
                        _ => {},
                    }
                },
                Event::Use(_, u) => {
                    match use_tree_to_name(&u.tree, "std::auth::msg_sender") {
                        Some(n) => names.push(n),
                        None => {},
                    }
                },
                _ => {},
            }
            proof {
                assert(strings_view(names@) =~= names_before + gn(i as int, events@[i as int]));
            }
            stack.step(ev);
            i = i + 1;
        }
        proof {
            assert(events@.take(i as int) =~= events@);
        }
        let ghost g1 = guards_view(gs@);
        let ghost n = events@.len() as int;
        let ghost f = |i: int, ev: Event<'a>| exposure_at(n, pass_state(*module, g1, events@.take(i)), ev);
        let mut r: Vec<Finding> = Vec::new();
        let mut j: usize = 0;
        while j < events.len()
            invariant
                j <= events@.len(),
                n == events@.len(),
                g1 == guard_state(events@),
                f == (|i: int, ev: Event<'a>| exposure_at(n, pass_state(*module, g1, events@.take(i)), ev)),
                guards_view(gs@) == pass_state(*module, g1, events@.take(j as int)),
                findings_view(r@) == gather(events@.take(j as int), f),
            decreases events@.len() - j,
        {
            proof {
                lemma_gather_step(events@, f, j as int);
                lemma_pass_state_step(*module, g1, events@, j as int);
            }
            let ghost before = findings_view(r@);
            let ghost gv = guards_view(gs@);
            let ev = &events[j];
            match ev {
                Event::LeaveFn(c, func) => {
                    match find_guard(&gs, fn_key_of(func)) {
                        Some(k) => {
                            proof {
                                let c1 = choose|k2: int| #[trigger] is_first(gv, key_match(fn_key(*func)), k2);
                                lemma_first_unique(gv, key_match(fn_key(*func)), c1, k as int);
                            }
                            if gs[k].written.len() > 0 && !gs[k].guarded {
                                let mut text = context_location(c);
                                push_str(&mut text, " writes to the ");
                                push_ticked_list(&mut text, &gs[k].written);
                                push_str(&mut text, " storage ");
                                if gs[k].written.len() == 1 {
                                    push_str(&mut text, "variable");
                                } else {
                                    push_str(&mut text, "variables");
                                }
                                push_str(&mut text, " without access restriction. Consider checking against `msg_sender()` in order to limit access.");
                                r.push(Finding { event: events.len(), start: func.fn_signature.span.start, severity: Severity::High,
                                    text, reference: None });
                            }
                        },
                        None => {
                            proof {
                                assert(!exists|k2: int| #[trigger] is_first(gv, key_match(fn_key(*func)), k2));
                            }
                        },
                    }
                },
                _ => {},
            }
            proof {
                assert(findings_view(r@) =~= before + f(j as int, events@[j as int]));
            }
            pass_exec(module, &mut gs, ev);
            j = j + 1;
        }
        proof {
            assert(events@.take(j as int) =~= events@);
        }
        r
    }
}

} // verus!
