//! Reports `while` loops that neither break nor update what their condition reads.
use vstd::prelude::*;
use crate::ast::{Assignable, BinaryOp, Block, Expr, ExprKind, Ident, LiteralKind, ReassignmentOp};
use crate::detectors::{gather, lemma_gather_step, ctx_location, context_location, finding, findings_view, FindingView, Finding,
    ctx_fn_key, fn_key, fn_key_of, block_key, open_blocks, lemma_open_blocks_step, BlockStack};
use crate::report::Severity;
use crate::text::{push_str, str_eq};
use crate::utils::{name, derefs, expr_idents, assignable_idents, fold_expr_idents, fold_assignable_idents, negation_result,
    expr_negation_result};
use crate::walk::{Ctx, Event};

verus! {

/// A `while` loop: the key of its function, the key of its body, its condition.
pub type LoopRec = ((int, int), (int, int), Expr);

/// The loops one event starts.
pub open spec fn loop_recs<'a>(j: int, ev: Event<'a>) -> Seq<LoopRec> {
    match ev {
        Event::While(c, _, cond, body) => match c.item_fn {
            Some(f) => seq![(fn_key(f), block_key(body), *cond)],
            None => Seq::empty(),
        },
        _ => Seq::empty(),
    }
}

/// Whether the block of the function is the body of one of the loops.
pub open spec fn is_loop(loops: Seq<LoopRec>, key: (int, int), b: (int, int)) -> bool {
    exists|k: int| 0 <= k < loops.len() && (#[trigger] loops[k]).0 == key && loops[k].1 == b
}

/// The condition of the first of the loops whose body is the block.
pub open spec fn loop_condition(loops: Seq<LoopRec>, key: (int, int), b: (int, int)) -> Option<Expr>
    decreases loops.len(),
{
    if loops.len() == 0 {
        None
    } else if loops[0].0 == key && loops[0].1 == b {
        Some(loops[0].2)
    } else {
        loop_condition(loops.drop_first(), key, b)
    }
}

/// The innermost of the open blocks of the function that is the body of a loop.
pub open spec fn innermost_loop(open: Seq<(Option<(int, int)>, (int, int))>, key: (int, int), loops: Seq<LoopRec>)
    -> Option<(int, int)>
    decreases open.len(),
{
    if open.len() == 0 {
        None
    } else if open.last().0 == Some(key) && is_loop(loops, key, open.last().1) {
        Some(open.last().1)
    } else {
        innermost_loop(open.drop_last(), key, loops)
    }
}

/// Whether the names agree as far as both sequences go.
pub open spec fn zip_eq(a: Seq<Ident>, b: Seq<Ident>) -> bool {
    forall|k: int| 0 <= k < a.len() && k < b.len() ==> name(#[trigger] a[k]) == name(b[k])
}

/// A call or a method call.
pub open spec fn is_call(e: Expr) -> bool {
    e.kind is FuncApp || e.kind is MethodCall
}

/// A boolean literal with the given value.
pub open spec fn is_bool_lit(e: Expr, v: bool) -> bool {
    match e.kind {
        ExprKind::Literal(l) => l.kind == LiteralKind::Bool(v),
        _ => false,
    }
}

/// A binary expression with the given operator.
pub open spec fn is_binary(e: Expr, o: BinaryOp) -> bool {
    match e.kind {
        ExprKind::Binary { op, .. } => op == o,
        _ => false,
    }
}

/// Whether assigning `value` to `a` with `op` updates what the loop condition `cond` reads.
pub open spec fn updates_condition(cond: Expr, a: Assignable, op: ReassignmentOp, value: Expr) -> bool {
    let ids = assignable_idents(a);
    match cond.kind {
        ExprKind::FuncApp { .. } => true,
        ExprKind::MethodCall { .. } => true,
        ExprKind::Path(_) => op == ReassignmentOp::Equals && is_bool_lit(value, false) && zip_eq(ids, expr_idents(cond)),
        ExprKind::Not(inner) => is_call(*inner) || (op == ReassignmentOp::Equals
            && is_bool_lit(value, negation_result(*inner)) && zip_eq(ids, expr_idents(*inner))),
        ExprKind::Binary { op: cop, lhs, rhs } => {
            if cop == BinaryOp::Equal || cop == BinaryOp::NotEqual {
                is_call(*lhs) || is_call(*rhs) || zip_eq(ids, expr_idents(*lhs)) || zip_eq(ids, expr_idents(*rhs))
            } else if cop == BinaryOp::LessThan || cop == BinaryOp::LessThanEq {
                if op == ReassignmentOp::Equals {
                    if zip_eq(ids, expr_idents(*lhs)) { is_binary(value, BinaryOp::Add) }
                    else if zip_eq(ids, expr_idents(*rhs)) { is_binary(value, BinaryOp::Sub) }
                    else { false }
                } else if op == ReassignmentOp::AddEquals {
                    zip_eq(ids, expr_idents(*lhs))
                } else if op == ReassignmentOp::SubEquals {
                    zip_eq(ids, expr_idents(*rhs))
                } else {
                    false
                }
            } else if cop == BinaryOp::GreaterThan || cop == BinaryOp::GreaterThanEq {
                if op == ReassignmentOp::Equals {
                    if zip_eq(ids, expr_idents(*lhs)) { is_binary(value, BinaryOp::Sub) }
                    else if zip_eq(ids, expr_idents(*rhs)) { is_binary(value, BinaryOp::Add) }
                    else { false }
                } else if op == ReassignmentOp::AddEquals {
                    zip_eq(ids, expr_idents(*rhs))
                } else if op == ReassignmentOp::SubEquals {
                    zip_eq(ids, expr_idents(*lhs))
                } else {
                    false
                }
            } else {
                false
            }
        },
        _ => false,
    }
}

/// What one event tells of the innermost loop around it: `0` that it breaks, `1` that it
/// updates what the condition reads.
pub open spec fn loop_marks<'a>(evs: Seq<Event<'a>>, j: int, ev: Event<'a>) -> Seq<((int, int), (int, int), u8)> {
    match ev {
        Event::Expr(c, e) => match c.item_fn {
            Some(f) => {
                let loops = gather(evs.take(j), |k: int, x: Event<'a>| loop_recs(k, x));
                match innermost_loop(open_blocks(evs.take(j)), fn_key(f), loops) {
                    Some(b) => match e.kind {
                        ExprKind::Break => seq![(fn_key(f), b, 0u8)],
                        ExprKind::Reassignment { assignable, op, value } => match loop_condition(loops, fn_key(f), b) {
                            Some(cond) => if updates_condition(cond, assignable, op, *value) {
                                seq![(fn_key(f), b, 1u8)]
                            } else {
                                Seq::empty()
                            },
                            None => Seq::empty(),
                        },
                        _ => Seq::empty(),
                    },
                    None => Seq::empty(),
                }
            },
            None => Seq::empty(),
        },
        _ => Seq::empty(),
    }
}

/// The message for a potentially infinite loop.
pub open spec fn infinite_loop_text(loc: Seq<char>, cond: Expr) -> Seq<char> {
    loc + " contains a potentially infinite loop: `while "@ + cond.span.text@
        + " { ... }`. Consider adding a `break` statement."@
}

/// What the detector reports at one event, given the events before it: at the end of the body
/// of a loop, the loop unless it breaks or updates its condition.
pub open spec fn infinite_loop_at<'a>(evs: Seq<Event<'a>>, i: int, ev: Event<'a>) -> Seq<FindingView> {
    match ev {
        Event::LeaveBlock(c, blk) => match c.item_fn {
            Some(f) => {
                let loops = gather(evs.take(i), |k: int, x: Event<'a>| loop_recs(k, x));
                let marks = gather(evs.take(i), |j: int, x: Event<'a>| loop_marks(evs, j, x));
                match loop_condition(loops, fn_key(f), block_key(blk)) {
                    Some(cond) => if !marks.contains((fn_key(f), block_key(blk), 0u8))
                        && !marks.contains((fn_key(f), block_key(blk), 1u8)) {
                        finding(i, blk.span.start as int, Severity::High, infinite_loop_text(ctx_location(c), cond))
                    } else {
                        Seq::empty()
                    },
                    None => Seq::empty(),
                }
            },
            None => Seq::empty(),
        },
        _ => Seq::empty(),
    }
}

/// A loop being only ever found through its condition, `is_loop` and `loop_condition` agree.
pub proof fn lemma_loop_condition(loops: Seq<LoopRec>, key: (int, int), b: (int, int))
    ensures
        is_loop(loops, key, b) <==> loop_condition(loops, key, b) is Some,
    decreases loops.len(),
{
    if loops.len() > 0 {
        lemma_loop_condition(loops.drop_first(), key, b);
        if is_loop(loops, key, b) && !(loops[0].0 == key && loops[0].1 == b) {
            let k = choose|k: int| 0 <= k < loops.len() && (#[trigger] loops[k]).0 == key && loops[k].1 == b;
            assert(loops.drop_first()[k - 1] == loops[k]);
        }
        if is_loop(loops.drop_first(), key, b) {
            let k = choose|k: int| 0 <= k < loops.drop_first().len() && (#[trigger] loops.drop_first()[k]).0 == key
                && loops.drop_first()[k].1 == b;
            assert(loops[k + 1] == loops.drop_first()[k]);
        }
    }
}

/// The value of a list of loops.
pub open spec fn loops_view<'a>(v: Seq<((usize, usize), (usize, usize), &'a Expr)>) -> Seq<LoopRec> {
    v.map_values(|x: ((usize, usize), (usize, usize), &'a Expr)| ((x.0.0 as int, x.0.1 as int), (x.1.0 as int, x.1.1 as int), *x.2))
}

/// The value of a list of marks.
pub open spec fn marks_view(v: Seq<((usize, usize), (usize, usize), u8)>) -> Seq<((int, int), (int, int), u8)> {
    v.map_values(|x: ((usize, usize), (usize, usize), u8)| ((x.0.0 as int, x.0.1 as int), (x.1.0 as int, x.1.1 as int), x.2))
}

fn loop_condition_exec<'a>(loops: &Vec<((usize, usize), (usize, usize), &'a Expr)>, key: (usize, usize), b: (usize, usize))
    -> (r: Option<&'a Expr>)
    ensures
        match loop_condition(loops_view(loops@), (key.0 as int, key.1 as int), (b.0 as int, b.1 as int)) {
            Some(c) => r matches Some(x) && *x == c,
            None => r is None,
        },
{
    let ghost lv = loops_view(loops@);
    let ghost kk = (key.0 as int, key.1 as int);
    let ghost bb = (b.0 as int, b.1 as int);
    let mut k: usize = 0;
    proof {
        assert(lv.subrange(0, lv.len() as int) =~= lv);
    }
    while k < loops.len()
        invariant
            k <= loops@.len(),
            lv == loops_view(loops@),
            kk == (key.0 as int, key.1 as int),
            bb == (b.0 as int, b.1 as int),
            loop_condition(lv, kk, bb) == loop_condition(lv.subrange(k as int, lv.len() as int), kk, bb),
        decreases loops@.len() - k,
    {
        proof {
            assert(lv.subrange(k as int, lv.len() as int).drop_first() =~= lv.subrange(k + 1, lv.len() as int));
            assert(lv.subrange(k as int, lv.len() as int)[0] == lv[k as int]);
        }
        let l = &loops[k];
        if l.0.0 == key.0 && l.0.1 == key.1 && l.1.0 == b.0 && l.1.1 == b.1 {
            return Some(l.2);
        }
        k = k + 1;
    }
    None
}

fn innermost_loop_exec<'a>(stack: &BlockStack, key: (usize, usize), loops: &Vec<((usize, usize), (usize, usize), &'a Expr)>)
    -> (r: Option<(usize, usize)>)
    ensures
        match innermost_loop(stack.view(), (key.0 as int, key.1 as int), loops_view(loops@)) {
            Some(b) => r matches Some(x) && (x.0 as int, x.1 as int) == b,
            None => r is None,
        },
{
    let ghost open = stack.view();
    let ghost kk = (key.0 as int, key.1 as int);
    let ghost lv = loops_view(loops@);
    let mut k: usize = stack.entries.len();
    proof {
        assert(open.take(k as int) =~= open);
    }
    while k > 0
        invariant
            k <= stack.entries@.len(),
            open == stack.view(),
            kk == (key.0 as int, key.1 as int),
            lv == loops_view(loops@),
            innermost_loop(open, kk, lv) == innermost_loop(open.take(k as int), kk, lv),
        decreases k,
    {
        let e = &stack.entries[k - 1];
        let same = match e.0 {
            Some(fk) => fk.0 == key.0 && fk.1 == key.1,
            None => false,
        };
        proof {
            assert(open.take(k as int).last() == open[k - 1]);
            assert(open.take(k as int).drop_last() =~= open.take(k - 1));
            lemma_loop_condition(lv, kk, open[k - 1].1);
        }
        if same {
            let c = loop_condition_exec(loops, key, e.1);
            if c.is_some() {
                return Some(e.1);
            }
        }
        k = k - 1;
    }
    None
}

fn zip_eq_exec<'b>(a: &Vec<&'b Ident>, b: &Vec<&'b Ident>) -> (r: bool)
    ensures
        r == zip_eq(derefs(a@), derefs(b@)),
{
    let mut k: usize = 0;
    while k < a.len() && k < b.len()
        invariant
            k <= a@.len(),
            forall|m: int| 0 <= m < k && m < b@.len() ==> name(#[trigger] derefs(a@)[m]) == name(derefs(b@)[m]),
        decreases a@.len() - k,
    {
        if !str_eq(a[k].span.text.as_str(), b[k].span.text.as_str()) {
            proof {
                assert(name(derefs(a@)[k as int]) != name(derefs(b@)[k as int]));
            }
            return false;
        }
        k = k + 1;
    }
    true
}

fn is_call_exec(e: &Expr) -> (r: bool)
    ensures
        r == is_call(*e),
{
    match &e.kind {
        ExprKind::FuncApp { .. } => true,
        ExprKind::MethodCall { .. } => true,
        _ => false,
    }
}

fn is_bool_lit_exec(e: &Expr, v: bool) -> (r: bool)
    ensures
        r == is_bool_lit(*e, v),
{
    match &e.kind {
        ExprKind::Literal(l) => match &l.kind {
            LiteralKind::Bool(b) => *b == v,
            _ => false,
        },
        _ => false,
    }
}

fn is_binary_exec(e: &Expr, o: BinaryOp) -> (r: bool)
    ensures
        r == is_binary(*e, o),
{
    match &e.kind {
        ExprKind::Binary { op, .. } => *op == o,
        _ => false,
    }
}

fn updates_condition_exec(cond: &Expr, a: &Assignable, op: ReassignmentOp, value: &Expr) -> (r: bool)
    ensures
        r == updates_condition(*cond, *a, op, *value),
{
    let ids = fold_assignable_idents(a);
    match &cond.kind {
        ExprKind::FuncApp { .. } => true,
        ExprKind::MethodCall { .. } => true,
        ExprKind::Path(_) => op == ReassignmentOp::Equals && is_bool_lit_exec(value, false)
            && zip_eq_exec(&ids, &fold_expr_idents(cond)),
        ExprKind::Not(inner) => is_call_exec(inner) || (op == ReassignmentOp::Equals
            && is_bool_lit_exec(value, expr_negation_result(inner)) && zip_eq_exec(&ids, &fold_expr_idents(inner))),
        ExprKind::Binary { op: cop, lhs, rhs } => {
            let cop = *cop;
            if cop == BinaryOp::Equal || cop == BinaryOp::NotEqual {
                is_call_exec(lhs) || is_call_exec(rhs) || zip_eq_exec(&ids, &fold_expr_idents(lhs))
                    || zip_eq_exec(&ids, &fold_expr_idents(rhs))
            } else if cop == BinaryOp::LessThan || cop == BinaryOp::LessThanEq {
                if op == ReassignmentOp::Equals {
                    if zip_eq_exec(&ids, &fold_expr_idents(lhs)) { is_binary_exec(value, BinaryOp::Add) }
                    else if zip_eq_exec(&ids, &fold_expr_idents(rhs)) { is_binary_exec(value, BinaryOp::Sub) }
                    else { false }
                } else if op == ReassignmentOp::AddEquals {
                    zip_eq_exec(&ids, &fold_expr_idents(lhs))
                } else if op == ReassignmentOp::SubEquals {
                    zip_eq_exec(&ids, &fold_expr_idents(rhs))
                } else {
                    false
                }
            } else if cop == BinaryOp::GreaterThan || cop == BinaryOp::GreaterThanEq {
                if op == ReassignmentOp::Equals {
                    if zip_eq_exec(&ids, &fold_expr_idents(lhs)) { is_binary_exec(value, BinaryOp::Sub) }
                    else if zip_eq_exec(&ids, &fold_expr_idents(rhs)) { is_binary_exec(value, BinaryOp::Add) }
                    else { false }
                } else if op == ReassignmentOp::AddEquals {
                    zip_eq_exec(&ids, &fold_expr_idents(rhs))
                } else if op == ReassignmentOp::SubEquals {
                    zip_eq_exec(&ids, &fold_expr_idents(lhs))
                } else {
                    false
                }
            } else {
                false
            }
        },
        _ => false,
    }
}

fn marks_contain(marks: &Vec<((usize, usize), (usize, usize), u8)>, key: (usize, usize), b: (usize, usize), m: u8) -> (r: bool)
    ensures
        r == marks_view(marks@).contains(((key.0 as int, key.1 as int), (b.0 as int, b.1 as int), m)),
{
    let ghost mv = marks_view(marks@);
    let mut k: usize = 0;
    while k < marks.len()
        invariant
            k <= marks@.len(),
            mv == marks_view(marks@),
            forall|j: int| 0 <= j < k ==> mv[j] != ((key.0 as int, key.1 as int), (b.0 as int, b.1 as int), m),
        decreases marks@.len() - k,
    {
        let x = &marks[k];
        if x.0.0 == key.0 && x.0.1 == key.1 && x.1.0 == b.0 && x.1.1 == b.1 && x.2 == m {
            proof {
                assert(mv[k as int] == ((key.0 as int, key.1 as int), (b.0 as int, b.1 as int), m));
            }
            return true;
        }
        k = k + 1;
    }
    false
}

/// The detector of this module; `detect` runs it over the events of a module.
pub struct PotentialInfiniteLoopsVisitor;

impl PotentialInfiniteLoopsVisitor {
    /// Reports the potentially infinite loops among the events of a module.
    pub fn detect<'a>(&self, events: &Vec<Event<'a>>) -> (r: Vec<Finding>)
        ensures
            findings_view(r@) == gather(events@, |i: int, ev: Event<'a>| infinite_loop_at(events@, i, ev)),
    {
        let ghost f = |i: int, ev: Event<'a>| infinite_loop_at(events@, i, ev);
        let ghost gl = |k: int, x: Event<'a>| loop_recs(k, x);
        let ghost gm = |j: int, x: Event<'a>| loop_marks(events@, j, x);
        let mut r: Vec<Finding> = Vec::new();
        let mut loops: Vec<((usize, usize), (usize, usize), &'a Expr)> = Vec::new();
        let mut marks: Vec<((usize, usize), (usize, usize), u8)> = Vec::new();
        let mut stack = BlockStack::new();
        let mut i: usize = 0;
        while i < events.len()
            invariant
                i <= events@.len(),
                f == (|i: int, ev: Event<'a>| infinite_loop_at(events@, i, ev)),
                gl == (|k: int, x: Event<'a>| loop_recs(k, x)),
                gm == (|j: int, x: Event<'a>| loop_marks(events@, j, x)),
                findings_view(r@) == gather(events@.take(i as int), f),
                loops_view(loops@) == gather(events@.take(i as int), gl),
                marks_view(marks@) == gather(events@.take(i as int), gm),
                stack.view() == open_blocks(events@.take(i as int)),
            decreases events@.len() - i,
        {
            proof {
                lemma_gather_step(events@, f, i as int);
                lemma_gather_step(events@, gl, i as int);
                lemma_gather_step(events@, gm, i as int);
                lemma_open_blocks_step(events@, i as int);
            }
            let ghost before = findings_view(r@);
            let ghost loops_before = loops_view(loops@);
            let ghost marks_before = marks_view(marks@);
            let ev = &events[i];
            match ev {
                Event::While(c, _, cond, body) => {
                    match c.item_fn {
                        Some(func) => {
                            loops.push((fn_key_of(func), (body.span.start, body.span.end), *cond));
                        },
                        None => {},
                    }
                    proof {
                        assert(loops_view(loops@) =~= loops_before + gl(i as int, events@[i as int]));
                    }
                },
                Event::Expr(c, e) => {
                    match c.item_fn {
                        Some(func) => {
                            let key = fn_key_of(func);
                            match innermost_loop_exec(&stack, key, &loops) {
                                Some(b) => match &e.kind {
                                    ExprKind::Break => {
                                        marks.push((key, b, 0));
                                    },
                                    ExprKind::Reassignment { assignable, op, value } => {
                                        match loop_condition_exec(&loops, key, b) {
                                            Some(cond) => if updates_condition_exec(cond, assignable, *op, value) {
                                                marks.push((key, b, 1));
                                            },
                                            None => {},
                                        }
                                    },
                                    _ => {},
                                },
                                None => {},
                            }
                        },
                        None => {},
                    }
                    proof {
                        assert(marks_view(marks@) =~= marks_before + gm(i as int, events@[i as int]));
                    }
                },
                Event::LeaveBlock(c, blk) => {
                    match c.item_fn {
                        Some(func) => {
                            let key = fn_key_of(func);
                            let bk = (blk.span.start, blk.span.end);
                            match loop_condition_exec(&loops, key, bk) {
                                Some(cond) => {
                                    if !marks_contain(&marks, key, bk, 0) && !marks_contain(&marks, key, bk, 1) {
                                        let mut text = context_location(c);
                                        push_str(&mut text, " contains a potentially infinite loop: `while ");
                                        push_str(&mut text, cond.span.text.as_str());
                                        push_str(&mut text, " { ... }`. Consider adding a `break` statement.");
                                        r.push(Finding { event: i, start: blk.span.start, severity: Severity::High, text, reference: None });
                                    }
                                },
                                None => {},
                            }
                        },
                        None => {},
                    }
                },
                _ => {},
            }
            proof {
                assert(loops_view(loops@) =~= loops_before + gl(i as int, events@[i as int]));
                assert(marks_view(marks@) =~= marks_before + gm(i as int, events@[i as int]));
                assert(findings_view(r@) =~= before + f(i as int, events@[i as int]));
            }
            stack.step(ev);
            i = i + 1;
        }
        proof {
            assert(events@.take(i as int) =~= events@);
        }
        r
    }
}

} // verus!
