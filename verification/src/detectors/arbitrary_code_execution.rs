//! Reports `ldc` instructions that no check on the caller guards.
use vstd::prelude::*;
use crate::ast::{BinaryOp, Expr, ExprKind, Ident, IfCondition, PatternKind};
use crate::detectors::{gather, lemma_gather_step, ctx_location, context_location, finding, findings_view, FindingView, Finding,
    opt_seq, fn_key, fn_key_of, block_key, open_blocks, lemma_open_blocks_step, BlockStack, strings_contain, pairs_view, pairs_contain};
use crate::report::Severity;
use crate::text::{push_str, str_eq, copy_string, strings_view};
use crate::utils::{name, derefs, pattern_idents, fold_pattern_idents, use_tree_name, use_tree_to_name, get_require_args,
    get_if_revert_condition, has_revert};
use crate::walk::Event;

verus! {

/// The local names under which a `use` item imports `std::auth::msg_sender`.
pub open spec fn sender_imports<'a>(j: int, ev: Event<'a>) -> Seq<Seq<char>> {
    match ev {
        Event::Use(_, u) => opt_seq(use_tree_name(u.tree, "std::auth::msg_sender"@)),
        _ => Seq::empty(),
    }
}

/// Whether an expression calls `msg_sender`, possibly through method calls on it or a match on it.
pub open spec fn is_sender_call(e: Expr, names: Seq<Seq<char>>) -> bool
    decreases e,
{
    match e.kind {
        ExprKind::FuncApp { func, .. } => func.span.text@ == "msg_sender"@ || names.contains(func.span.text@)
            || func.span.text@ == "std::auth::msg_sender"@,
        ExprKind::MethodCall { target, .. } => is_sender_call(*target, names),
        ExprKind::Match { value, .. } => is_sender_call(*value, names),
        _ => false,
    }
}

/// Whether an operator combines conditions that are searched for the caller.
pub open spec fn is_searched_op(op: BinaryOp) -> bool {
    op == BinaryOp::Equal || op == BinaryOp::NotEqual || op == BinaryOp::LogicalAnd || op == BinaryOp::LogicalOr
}

/// Whether a condition calls `msg_sender` through `==`, `!=`, `&&` and `||`.
pub open spec fn contains_sender_call(e: Expr, names: Seq<Seq<char>>) -> bool
    decreases e,
{
    match e.kind {
        ExprKind::Binary { op, lhs, rhs } => if is_searched_op(op) {
            contains_sender_call(*lhs, names) || contains_sender_call(*rhs, names)
        } else {
            is_sender_call(e, names)
        },
        _ => is_sender_call(e, names),
    }
}

/// A variable of a block of a function, and whether it holds the caller.
pub type SenderVar = ((int, int), (int, int), Seq<char>, bool);

/// Whether the latest variable with the given name in the block holds the caller.
pub open spec fn latest_is_sender(vars: Seq<SenderVar>, key: (int, int), b: (int, int), nm: Seq<char>) -> bool
    decreases vars.len(),
{
    if vars.len() == 0 {
        false
    } else if vars.last().0 == key && vars.last().1 == b && vars.last().2 == nm {
        vars.last().3
    } else {
        latest_is_sender(vars.drop_last(), key, b, nm)
    }
}

/// Whether a path names a variable holding the caller in one of the open blocks of the function.
pub open spec fn is_sender_var(e: Expr, vars: Seq<SenderVar>, open: Seq<(Option<(int, int)>, (int, int))>, key: (int, int)) -> bool {
    e.kind is Path && exists|m: int| 0 <= m < open.len() && (#[trigger] open[m]).0 == Some(key)
        && latest_is_sender(vars, key, open[m].1, e.span.text@)
}

/// Whether a condition names a variable holding the caller through `==`, `!=`, `&&` and `||`.
pub open spec fn contains_sender_var(e: Expr, vars: Seq<SenderVar>, open: Seq<(Option<(int, int)>, (int, int))>, key: (int, int)) -> bool
    decreases e,
{
    match e.kind {
        ExprKind::Binary { op, lhs, rhs } => if is_searched_op(op) {
            contains_sender_var(*lhs, vars, open, key) || contains_sender_var(*rhs, vars, open, key)
        } else {
            is_sender_var(e, vars, open, key)
        },
        _ => is_sender_var(e, vars, open, key),
    }
}

/// The variables after the given events.
pub open spec fn sender_state<'a>(evs: Seq<Event<'a>>) -> Seq<SenderVar>
    decreases evs.len(),
{
    if evs.len() == 0 {
        Seq::empty()
    } else {
        let pre = evs.drop_last();
        let vars = sender_state(pre);
        vars + sender_vars(pre, vars, evs.last())
    }
}

/// Declaring the variables of one more event.
pub proof fn lemma_sender_state_step<'a>(evs: Seq<Event<'a>>, i: int)
    requires
        0 <= i < evs.len(),
    ensures
        sender_state(evs.take(i + 1)) == sender_state(evs.take(i)) + sender_vars(evs.take(i), sender_state(evs.take(i)), evs[i]),
{
    assert(evs.take(i + 1).drop_last() =~= evs.take(i));
}

/// The variables one event declares after the events `pre`: a `let` in the innermost open
/// block, an `if let` in its `then` block; a single name holds the caller when its value does.
pub open spec fn sender_vars<'a>(pre: Seq<Event<'a>>, vars: Seq<SenderVar>, ev: Event<'a>) -> Seq<SenderVar> {
    let names = gather(pre, |k: int, x: Event<'a>| sender_imports(k, x));
    let open = open_blocks(pre);
    match ev {
        Event::StatementLet(c, l) => match c.item_fn {
            Some(f) => if open.len() > 0 {
                let holds = is_sender_call(l.expr, names) || is_sender_var(l.expr, vars, open, fn_key(f));
                match l.pattern.kind {
                    PatternKind::AmbiguousSingleIdent(x) => seq![(fn_key(f), open.last().1, name(x), holds)],
                    _ => pattern_idents(l.pattern).map_values(|x: Ident| (fn_key(f), open.last().1, name(x), false)),
                }
            } else {
                Seq::empty()
            },
            None => Seq::empty(),
        },
        Event::If(c, _, ifx) => match (c.item_fn, ifx.condition) {
            (Some(f), IfCondition::Let { lhs, rhs }) => {
                let holds = is_sender_call(*rhs, names) || is_sender_var(*rhs, vars, open, fn_key(f));
                match lhs.kind {
                    PatternKind::AmbiguousSingleIdent(x) => seq![(fn_key(f), block_key(&ifx.then_block), name(x), holds)],
                    _ => pattern_idents(*lhs).map_values(|x: Ident| (fn_key(f), block_key(&ifx.then_block), name(x), false)),
                }
            },
            _ => Seq::empty(),
        },
        _ => Seq::empty(),
    }
}

/// The condition that a `require` or an `if ... revert` checks.
pub open spec fn checked_condition(e: Expr) -> Option<Expr> {
    match e.kind {
        ExprKind::FuncApp { func, args, .. } => if func.span.text@ == "require"@ {
            if args@.len() > 0 { Some(args@[0]) } else { None }
        } else {
            None
        },
        ExprKind::If(ifx) => if has_revert(ifx.then_block) {
            match ifx.condition {
                IfCondition::Expr(x) => Some(*x),
                _ => None,
            }
        } else {
            None
        },
        _ => None,
    }
}

/// The blocks that one event marks as checking the caller: the innermost open block of a
/// `require` or `if ... revert` whose condition involves the caller.
pub open spec fn sender_checks<'a>(evs: Seq<Event<'a>>, j: int, ev: Event<'a>) -> Seq<((int, int), (int, int))> {
    let names = gather(evs.take(j), |k: int, x: Event<'a>| sender_imports(k, x));
    let vars = sender_state(evs.take(j));
    let open = open_blocks(evs.take(j));
    match ev {
        Event::Expr(c, e) => match (c.item_fn, checked_condition(*e)) {
            (Some(f), Some(cond)) => if !c.in_const && open.len() > 0
                && (contains_sender_call(cond, names) || contains_sender_var(cond, vars, open, fn_key(f))) {
                seq![(fn_key(f), open.last().1)]
            } else {
                Seq::empty()
            },
            _ => Seq::empty(),
        },
        _ => Seq::empty(),
    }
}

/// What the detector reports at one event, given the events before it: an `ldc` instruction
/// outside every block of its function that checks the caller.
pub open spec fn arbitrary_code_execution_at<'a>(evs: Seq<Event<'a>>, i: int, ev: Event<'a>) -> Seq<FindingView> {
    let open = open_blocks(evs.take(i));
    let checks = gather(evs.take(i), |j: int, x: Event<'a>| sender_checks(evs, j, x));
    match ev {
        Event::AsmInstruction(c, _, ins) => match c.item_fn {
            Some(f) => if ins.op_code.span.text@ == "ldc"@
                && !(exists|m: int| 0 <= m < open.len() && (#[trigger] open[m]).0 == Some(fn_key(f)) && checks.contains((fn_key(f), open[m].1))) {
                finding(i, ins.span.start as int, Severity::High, ctx_location(c) + " uses the `LDC` instruction without access restriction: `"@
                    + ins.span.text@ + "`. Consider checking against `msg_sender()` in order to limit access."@)
            } else {
                Seq::empty()
            },
            None => Seq::empty(),
        },
        _ => Seq::empty(),
    }
}

/// The value of a list of variables.
pub open spec fn sender_vars_view(v: Seq<((usize, usize), (usize, usize), String, bool)>) -> Seq<SenderVar> {
    v.map_values(|x: ((usize, usize), (usize, usize), String, bool)| ((x.0.0 as int, x.0.1 as int), (x.1.0 as int, x.1.1 as int), x.2@, x.3))
}

pub(crate) fn is_sender_call_exec(e: &Expr, names: &Vec<String>) -> (r: bool)
    ensures
        r == is_sender_call(*e, strings_view(names@)),
    decreases e,
{
    match &e.kind {
        ExprKind::FuncApp { func, .. } => {
            let t = func.span.text.as_str();
            str_eq(t, "msg_sender") || strings_contain(names, t) || str_eq(t, "std::auth::msg_sender")
        },
        ExprKind::MethodCall { target, .. } => is_sender_call_exec(target, names),
        ExprKind::Match { value, .. } => is_sender_call_exec(value, names),
        _ => false,
    }
}

pub(crate) fn contains_sender_call_exec(e: &Expr, names: &Vec<String>) -> (r: bool)
    ensures
        r == contains_sender_call(*e, strings_view(names@)),
    decreases e,
{
    match &e.kind {
        ExprKind::Binary { op, lhs, rhs } => {
            let op = *op;
            if op == BinaryOp::Equal || op == BinaryOp::NotEqual || op == BinaryOp::LogicalAnd || op == BinaryOp::LogicalOr {
                contains_sender_call_exec(lhs, names) || contains_sender_call_exec(rhs, names)
            } else {
                is_sender_call_exec(e, names)
            }
        },
        _ => is_sender_call_exec(e, names),
    }
}

fn latest_is_sender_exec(vars: &Vec<((usize, usize), (usize, usize), String, bool)>, key: (usize, usize), b: (usize, usize), nm: &str)
    -> (r: bool)
    ensures
        r == latest_is_sender(sender_vars_view(vars@), (key.0 as int, key.1 as int), (b.0 as int, b.1 as int), nm@),
{
    let ghost vv = sender_vars_view(vars@);
    let ghost kk = (key.0 as int, key.1 as int);
    let ghost bb = (b.0 as int, b.1 as int);
    let mut k: usize = vars.len();
    proof {
        assert(vv.take(k as int) =~= vv);
    }
    while k > 0
        invariant
            k <= vars@.len(),
            vv == sender_vars_view(vars@),
            kk == (key.0 as int, key.1 as int),
            bb == (b.0 as int, b.1 as int),
            latest_is_sender(vv, kk, bb, nm@) == latest_is_sender(vv.take(k as int), kk, bb, nm@),
        decreases k,
    {
        proof {
            assert(vv.take(k as int).last() == vv[k - 1]);
            assert(vv.take(k as int).drop_last() =~= vv.take(k - 1));
        }
        let x = &vars[k - 1];
        if x.0.0 == key.0 && x.0.1 == key.1 && x.1.0 == b.0 && x.1.1 == b.1 && str_eq(x.2.as_str(), nm) {
            return x.3;
        }
        k = k - 1;
    }
    false
}

fn is_sender_var_exec(e: &Expr, vars: &Vec<((usize, usize), (usize, usize), String, bool)>, stack: &BlockStack, key: (usize, usize))
    -> (r: bool)
    ensures
        r == is_sender_var(*e, sender_vars_view(vars@), stack.view(), (key.0 as int, key.1 as int)),
{
    match &e.kind {
        ExprKind::Path(_) => {},
        _ => return false,
    }
    let ghost open = stack.view();
    let ghost kk = (key.0 as int, key.1 as int);
    let mut m: usize = 0;
    while m < stack.entries.len()
        invariant
            m <= stack.entries@.len(),
            open == stack.view(),
            kk == (key.0 as int, key.1 as int),
            e.kind is Path,
            forall|j: int| 0 <= j < m ==> !((#[trigger] open[j]).0 == Some(kk)
                && latest_is_sender(sender_vars_view(vars@), kk, open[j].1, e.span.text@)),
        decreases stack.entries@.len() - m,
    {
        let entry = stack.entries[m];
        let same = match entry.0 {
            Some(fk) => fk.0 == key.0 && fk.1 == key.1,
            None => false,
        };
        if same && latest_is_sender_exec(vars, key, entry.1, e.span.text.as_str()) {
            proof {
                assert(open[m as int].0 == Some(kk) && latest_is_sender(sender_vars_view(vars@), kk, open[m as int].1, e.span.text@));
            }
            return true;
        }
        m = m + 1;
    }
    false
}

pub(crate) fn contains_sender_var_exec(e: &Expr, vars: &Vec<((usize, usize), (usize, usize), String, bool)>, stack: &BlockStack, key: (usize, usize))
    -> (r: bool)
    ensures
        r == contains_sender_var(*e, sender_vars_view(vars@), stack.view(), (key.0 as int, key.1 as int)),
    decreases e,
{
    match &e.kind {
        ExprKind::Binary { op, lhs, rhs } => {
            let op = *op;
            if op == BinaryOp::Equal || op == BinaryOp::NotEqual || op == BinaryOp::LogicalAnd || op == BinaryOp::LogicalOr {
                contains_sender_var_exec(lhs, vars, stack, key) || contains_sender_var_exec(rhs, vars, stack, key)
            } else {
                is_sender_var_exec(e, vars, stack, key)
            }
        },
        _ => is_sender_var_exec(e, vars, stack, key),
    }
}

fn checked_condition_exec<'b>(e: &'b Expr) -> (r: Option<&'b Expr>)
    ensures
        match checked_condition(*e) {
            Some(c) => r matches Some(x) && *x == c,
            None => r is None,
        },
{
    match &e.kind {
        ExprKind::FuncApp { func, args, .. } => if str_eq(func.span.text.as_str(), "require") {
            if args.len() > 0 { Some(&args[0]) } else { None }
        } else {
            None
        },
        ExprKind::If(ifx) => if crate::utils::block_has_revert(&ifx.then_block) {
            match &ifx.condition {
                IfCondition::Expr(x) => Some(&**x),
                _ => None,
            }
        } else {
            None
        },
        _ => None,
    }
}

fn push_sender_vars(vars: &mut Vec<((usize, usize), (usize, usize), String, bool)>, key: (usize, usize), b: (usize, usize), ids: &Vec<&Ident>)
    ensures
        sender_vars_view(final(vars)@) == sender_vars_view(old(vars)@)
            + derefs(ids@).map_values(|x: Ident| ((key.0 as int, key.1 as int), (b.0 as int, b.1 as int), name(x), false)),
{
    let ghost start = sender_vars_view(vars@);
    let mut k: usize = 0;
    while k < ids.len()
        invariant
            k <= ids@.len(),
            sender_vars_view(vars@) == start
                + derefs(ids@).take(k as int).map_values(|x: Ident| ((key.0 as int, key.1 as int), (b.0 as int, b.1 as int), name(x), false)),
        decreases ids@.len() - k,
    {
        let ghost vb = sender_vars_view(vars@);
        vars.push((key, b, copy_string(ids[k].span.text.as_str()), false));
        proof {
            assert(sender_vars_view(vars@) =~= vb.push(((key.0 as int, key.1 as int), (b.0 as int, b.1 as int), ids@[k as int].span.text@, false)));
            assert(derefs(ids@).take(k + 1) =~= derefs(ids@).take(k as int).push(*ids@[k as int]));
            assert(sender_vars_view(vars@) =~= start
                + derefs(ids@).take(k + 1).map_values(|x: Ident| ((key.0 as int, key.1 as int), (b.0 as int, b.1 as int), name(x), false)));
        }
        k = k + 1;
    }
    proof {
        assert(derefs(ids@).take(k as int) =~= derefs(ids@));
    }
}

/// Records the variables that one event declares, the events `pre` coming before it.
pub(crate) fn track_sender_vars<'a>(vars: &mut Vec<((usize, usize), (usize, usize), String, bool)>, names: &Vec<String>,
    stack: &BlockStack, ev: &Event<'a>, Ghost(pre): Ghost<Seq<Event<'a>>>)
    requires
        strings_view(names@) == gather(pre, |k: int, x: Event<'a>| sender_imports(k, x)),
        stack.view() == open_blocks(pre),
    ensures
        sender_vars_view(final(vars)@) == sender_vars_view(old(vars)@) + sender_vars(pre, sender_vars_view(old(vars)@), *ev),
{
    let ghost vars_before = sender_vars_view(vars@);
    match ev {
        Event::StatementLet(c, l) => {
            match c.item_fn {
                Some(func) => if stack.entries.len() > 0 {
                    let key = fn_key_of(func);
                    let inner = stack.entries[stack.entries.len() - 1].1;
                    let holds = is_sender_call_exec(&l.expr, names) || is_sender_var_exec(&l.expr, &*vars, stack, key);
                    match &l.pattern.kind {
                        PatternKind::AmbiguousSingleIdent(x) => vars.push((key, inner, copy_string(x.span.text.as_str()), holds)),
                        _ => {
                            let ids = fold_pattern_idents(&l.pattern);
                            push_sender_vars(vars, key, inner, &ids);
                        },
                    }
                },
                None => {},
            }
        },
        Event::If(c, _, ifx) => {
            match (c.item_fn, &ifx.condition) {
                (Some(func), IfCondition::Let { lhs, rhs }) => {
                    let key = fn_key_of(func);
                    let bk = (ifx.then_block.span.start, ifx.then_block.span.end);
                    let holds = is_sender_call_exec(rhs, names) || is_sender_var_exec(rhs, &*vars, stack, key);
                    match &lhs.kind {
                        PatternKind::AmbiguousSingleIdent(x) => vars.push((key, bk, copy_string(x.span.text.as_str()), holds)),
                        _ => {
                            let ids = fold_pattern_idents(lhs);
                            push_sender_vars(vars, key, bk, &ids);
                        },
                    }
                },
                _ => {},
            }
        },
        _ => {},
    }
    proof {
        assert(sender_vars_view(vars@) =~= vars_before + sender_vars(pre, vars_before, *ev));
    }
}

/// The detector of this module; `detect` runs it over the events of a module.
pub struct ArbitraryCodeExecutionVisitor;

impl ArbitraryCodeExecutionVisitor {
    /// Reports the unguarded `ldc` instructions among the events of a module.
    pub fn detect<'a>(&self, events: &Vec<Event<'a>>) -> (r: Vec<Finding>)
        ensures
            findings_view(r@) == gather(events@, |i: int, ev: Event<'a>| arbitrary_code_execution_at(events@, i, ev)),
    {
        let ghost f = |i: int, ev: Event<'a>| arbitrary_code_execution_at(events@, i, ev);
        let ghost gn = |k: int, x: Event<'a>| sender_imports(k, x);
        let ghost gc = |j: int, x: Event<'a>| sender_checks(events@, j, x);
        let mut r: Vec<Finding> = Vec::new();
        let mut names: Vec<String> = Vec::new();
        let mut vars: Vec<((usize, usize), (usize, usize), String, bool)> = Vec::new();
        let mut checks: Vec<((usize, usize), (usize, usize))> = Vec::new();
        let mut stack = BlockStack::new();
        let mut i: usize = 0;
        while i < events.len()
            invariant
                i <= events@.len(),
                f == (|i: int, ev: Event<'a>| arbitrary_code_execution_at(events@, i, ev)),
                gn == (|k: int, x: Event<'a>| sender_imports(k, x)),
                gc == (|j: int, x: Event<'a>| sender_checks(events@, j, x)),
                findings_view(r@) == gather(events@.take(i as int), f),
                strings_view(names@) == gather(events@.take(i as int), gn),
                sender_vars_view(vars@) == sender_state(events@.take(i as int)),
                pairs_view(checks@) == gather(events@.take(i as int), gc),
                stack.view() == open_blocks(events@.take(i as int)),
            decreases events@.len() - i,
        {
            proof {
                lemma_gather_step(events@, f, i as int);
                lemma_gather_step(events@, gn, i as int);
                lemma_sender_state_step(events@, i as int);
                lemma_gather_step(events@, gc, i as int);
                lemma_open_blocks_step(events@, i as int);
            }
            let ghost before = findings_view(r@);
            let ghost names_before = strings_view(names@);
            let ghost vars_before = sender_vars_view(vars@);
            let ghost checks_before = pairs_view(checks@);
            let ev = &events[i];
            track_sender_vars(&mut vars, &names, &stack, ev, Ghost(events@.take(i as int)));
            proof {
                match events@[i as int] {
                    Event::Expr(_, _) => {
                        assert(sender_vars_view(vars@) =~= vars_before);
                    },
                    _ => {},
                }
            }
            match ev {
                Event::Use(_, u) => {
                    match use_tree_to_name(&u.tree, "std::auth::msg_sender") {
                        Some(n) => names.push(n),
                        None => {},
                    }
                },
                Event::Expr(c, e) => {
                    match (c.item_fn, checked_condition_exec(e)) {
                        (Some(func), Some(cond)) => {
                            let key = fn_key_of(func);
                            if !c.in_const && stack.entries.len() > 0
                                && (contains_sender_call_exec(cond, &names) || contains_sender_var_exec(cond, &vars, &stack, key)) {
                                let inner = stack.entries[stack.entries.len() - 1].1;
                                checks.push((key, inner));
                            }
                        },
                        _ => {},
                    }
                },
                Event::AsmInstruction(c, _, ins) => {
                    match c.item_fn {
                        Some(func) => {
                            let key = fn_key_of(func);
                            if str_eq(ins.op_code.span.text.as_str(), "ldc") {
                                let ghost open = stack.view();
                                let ghost kk = (key.0 as int, key.1 as int);
                                let mut checked = false;
                                let mut m: usize = 0;
                                while m < stack.entries.len()
                                    invariant
                                        m <= stack.entries@.len(),
                                        open == stack.view(),
                                        kk == (key.0 as int, key.1 as int),
                                        checked == exists|j: int| 0 <= j < m && (#[trigger] open[j]).0 == Some(kk) && pairs_view(checks@).contains((kk, open[j].1)),
                                    decreases stack.entries@.len() - m,
                                {
                                    let entry = stack.entries[m];
                                    let same = match entry.0 {
                                        Some(fk) => fk.0 == key.0 && fk.1 == key.1,
                                        None => false,
                                    };
                                    if same && pairs_contain(&checks, key, entry.1) {
                                        checked = true;
                                    }
                                    proof {
                                        assert(open[m as int].0 == Some(kk) <==> same);
                                    }
                                    m = m + 1;
                                }
                                if !checked {
                                    let mut text = context_location(c);
                                    push_str(&mut text, " uses the `LDC` instruction without access restriction: `");
                                    push_str(&mut text, ins.span.text.as_str());
                                    push_str(&mut text, "`. Consider checking against `msg_sender()` in order to limit access.");
                                    r.push(Finding { event: i, start: ins.span.start, severity: Severity::High, text, reference: None });
                                }
                            }
                        },
                        None => {},
                    }
                },
                _ => {},
            }
            proof {
                assert(strings_view(names@) =~= names_before + gn(i as int, events@[i as int]));
                assert(sender_vars_view(vars@) =~= vars_before + sender_vars(events@.take(i as int), vars_before, events@[i as int]));
                assert(pairs_view(checks@) =~= checks_before + gc(i as int, events@[i as int]));
                assert(findings_view(r@) =~= before + f(i as int, events@[i as int]));
            }
            stack.step(ev);
            i = i + 1;
        }
        proof {
            assert(events@.take(i as int) =~= events@);
        }
        r
    }
}

} // verus!
