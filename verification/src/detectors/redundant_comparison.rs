//! Reports comparisons whose both sides are known constants.
use vstd::prelude::*;
use crate::ast::{BinaryOp, Expr, ExprKind, Ident, IfCondition, PatternKind, Span};
use crate::detectors::{gather, lemma_gather_step, ctx_location, context_location, finding, findings_view, FindingView, Finding,
    fn_key, fn_key_of, block_key, open_blocks, lemma_open_blocks_step, BlockStack};
use crate::report::Severity;
use crate::storage_access::{ident_spans, fold_expr_ident_spans, span_refs};
use crate::text::{push_str, str_eq, copy_string};
use crate::utils::{name, derefs, pattern_idents, fold_pattern_idents};
use crate::walk::{Ctx, Event};

verus! {

/// A variable of a block of a function, with the text of the literal it was bound to, if any.
pub type ValueRec = ((int, int), (int, int), Seq<char>, Option<Seq<char>>);

/// The variables one event declares: a `let` (in the innermost open block), an `if let` (in its
/// `then` block).
pub open spec fn value_recs<'a>(evs: Seq<Event<'a>>, j: int, ev: Event<'a>) -> Seq<ValueRec> {
    match ev {
        Event::StatementLet(c, l) => match c.item_fn {
            Some(f) => {
                let open = open_blocks(evs.take(j));
                if open.len() > 0 {
                    match l.pattern.kind {
                        PatternKind::AmbiguousSingleIdent(x) => seq![(fn_key(f), open.last().1, name(x), match l.expr.kind {
                            ExprKind::Literal(lit) => Some(lit.span.text@),
                            _ => None,
                        })],
                        _ => pattern_idents(l.pattern).map_values(|x: Ident| (fn_key(f), open.last().1, name(x), None::<Seq<char>>)),
                    }
                } else {
                    Seq::empty()
                }
            },
            None => Seq::empty(),
        },
        Event::If(c, _, ifx) => match (c.item_fn, ifx.condition) {
            (Some(f), IfCondition::Let { lhs, .. }) =>
                pattern_idents(*lhs).map_values(|x: Ident| (fn_key(f), block_key(&ifx.then_block), name(x), None::<Seq<char>>)),
            _ => Seq::empty(),
        },
        _ => Seq::empty(),
    }
}

/// The value of the latest variable of the block with the given name, if there is one.
pub open spec fn block_lookup(recs: Seq<ValueRec>, key: (int, int), b: (int, int), nm: Seq<char>) -> Option<Option<Seq<char>>>
    decreases recs.len(),
{
    if recs.len() == 0 {
        None
    } else if recs.last().0 == key && recs.last().1 == b && recs.last().2 == nm {
        Some(recs.last().3)
    } else {
        block_lookup(recs.drop_last(), key, b, nm)
    }
}

/// The value of the variable with the given name in the innermost open block of the function
/// that declares one.
pub open spec fn scope_lookup(open: Seq<(Option<(int, int)>, (int, int))>, recs: Seq<ValueRec>, key: (int, int), nm: Seq<char>)
    -> Option<Option<Seq<char>>>
    decreases open.len(),
{
    if open.len() == 0 {
        None
    } else if open.last().0 == Some(key) && block_lookup(recs, key, open.last().1, nm) is Some {
        block_lookup(recs, key, open.last().1, nm)
    } else {
        scope_lookup(open.drop_last(), recs, key, nm)
    }
}

/// The known constant value of an expression: a literal, or a single name bound to one.
pub open spec fn expr_value(e: Expr, open: Seq<(Option<(int, int)>, (int, int))>, recs: Seq<ValueRec>, key: (int, int))
    -> Option<Seq<char>> {
    match e.kind {
        ExprKind::Literal(l) => Some(l.span.text@),
        _ => {
            let sp = ident_spans(e);
            if sp.len() != 1 {
                None
            } else {
                match scope_lookup(open, recs, key, sp[0].text@) {
                    Some(v) => v,
                    None => None,
                }
            }
        },
    }
}

/// Whether the operator compares.
pub open spec fn is_comparison(op: BinaryOp) -> bool {
    op == BinaryOp::Equal || op == BinaryOp::NotEqual || op == BinaryOp::LessThan || op == BinaryOp::GreaterThan
        || op == BinaryOp::LessThanEq || op == BinaryOp::GreaterThanEq
}

/// The comparisons of constants in a condition, through `&&` and `||`.
pub open spec fn redundant_comparisons(e: Expr, open: Seq<(Option<(int, int)>, (int, int))>, recs: Seq<ValueRec>, key: (int, int))
    -> Seq<Expr>
    decreases e,
{
    match e.kind {
        ExprKind::Binary { op, lhs, rhs } => if is_comparison(op) {
            if expr_value(*lhs, open, recs, key) is Some && expr_value(*rhs, open, recs, key) is Some { seq![e] } else { Seq::empty() }
        } else if op == BinaryOp::LogicalAnd || op == BinaryOp::LogicalOr {
            redundant_comparisons(*lhs, open, recs, key) + redundant_comparisons(*rhs, open, recs, key)
        } else {
            Seq::empty()
        },
        _ => Seq::empty(),
    }
}

/// The findings for the given comparisons.
pub open spec fn comparison_findings(i: int, loc: Seq<char>, s: Seq<Expr>) -> Seq<FindingView>
    decreases s.len(),
{
    if s.len() == 0 {
        Seq::empty()
    } else {
        comparison_findings(i, loc, s.drop_last()) + finding(i, s.last().span.start as int, Severity::Low,
            loc + " contains a redundant comparison: `"@ + s.last().span.text@ + "`"@)
    }
}

/// Findings of a concatenation.
pub proof fn lemma_comparison_findings_append(i: int, loc: Seq<char>, a: Seq<Expr>, b: Seq<Expr>)
    ensures
        comparison_findings(i, loc, a + b) == comparison_findings(i, loc, a) + comparison_findings(i, loc, b),
    decreases b.len(),
{
    if b.len() == 0 {
        assert(a + b =~= a);
    } else {
        lemma_comparison_findings_append(i, loc, a, b.drop_last());
        assert((a + b).drop_last() =~= a + b.drop_last());
    }
}

/// What the detector reports at one event, given the events before it: the redundant
/// comparisons of an `if` or `while` condition.
pub open spec fn redundant_comparison_at<'a>(evs: Seq<Event<'a>>, i: int, ev: Event<'a>) -> Seq<FindingView> {
    let recs = gather(evs.take(i), |j: int, x: Event<'a>| value_recs(evs, j, x));
    let open = open_blocks(evs.take(i));
    match ev {
        Event::If(c, _, ifx) => match (c.item_fn, ifx.condition) {
            (Some(f), IfCondition::Expr(cond)) =>
                comparison_findings(i, ctx_location(c), redundant_comparisons(*cond, open, recs, fn_key(f))),
            _ => Seq::empty(),
        },
        Event::While(c, _, cond, _) => match c.item_fn {
            Some(f) => comparison_findings(i, ctx_location(c), redundant_comparisons(*cond, open, recs, fn_key(f))),
            None => Seq::empty(),
        },
        _ => Seq::empty(),
    }
}

/// The value of a list of variables.
pub open spec fn value_recs_view(v: Seq<((usize, usize), (usize, usize), String, Option<String>)>) -> Seq<ValueRec> {
    v.map_values(|x: ((usize, usize), (usize, usize), String, Option<String>)| ((x.0.0 as int, x.0.1 as int),
        (x.1.0 as int, x.1.1 as int), x.2@, match x.3 { Some(s) => Some(s@), None => None::<Seq<char>> }))
}

/// The value of an optional string.
pub open spec fn opt_str(o: Option<String>) -> Option<Seq<char>> {
    match o {
        Some(s) => Some(s@),
        None => None,
    }
}

fn block_lookup_exec(recs: &Vec<((usize, usize), (usize, usize), String, Option<String>)>, key: (usize, usize), b: (usize, usize),
    nm: &str) -> (r: Option<Option<String>>)
    ensures
        match block_lookup(value_recs_view(recs@), (key.0 as int, key.1 as int), (b.0 as int, b.1 as int), nm@) {
            Some(v) => r matches Some(x) && opt_str(x) == v,
            None => r is None,
        },
{
    let ghost rv = value_recs_view(recs@);
    let ghost kk = (key.0 as int, key.1 as int);
    let ghost bb = (b.0 as int, b.1 as int);
    let mut k: usize = recs.len();
    proof {
        assert(rv.take(k as int) =~= rv);
    }
    while k > 0
        invariant
            k <= recs@.len(),
            rv == value_recs_view(recs@),
            kk == (key.0 as int, key.1 as int),
            bb == (b.0 as int, b.1 as int),
            block_lookup(rv, kk, bb, nm@) == block_lookup(rv.take(k as int), kk, bb, nm@),
        decreases k,
    {
        proof {
            assert(rv.take(k as int).last() == rv[k - 1]);
            assert(rv.take(k as int).drop_last() =~= rv.take(k - 1));
        }
        let x = &recs[k - 1];
        if x.0.0 == key.0 && x.0.1 == key.1 && x.1.0 == b.0 && x.1.1 == b.1 && str_eq(x.2.as_str(), nm) {
            let v = match &x.3 {
                Some(s) => Some(copy_string(s.as_str())),
                None => None,
            };
            return Some(v);
        }
        k = k - 1;
    }
    None
}

fn scope_lookup_exec(stack: &BlockStack, recs: &Vec<((usize, usize), (usize, usize), String, Option<String>)>, key: (usize, usize),
    nm: &str) -> (r: Option<Option<String>>)
    ensures
        match scope_lookup(stack.view(), value_recs_view(recs@), (key.0 as int, key.1 as int), nm@) {
            Some(v) => r matches Some(x) && opt_str(x) == v,
            None => r is None,
        },
{
    let ghost open = stack.view();
    let ghost rv = value_recs_view(recs@);
    let ghost kk = (key.0 as int, key.1 as int);
    let mut k: usize = stack.entries.len();
    proof {
        assert(open.take(k as int) =~= open);
    }
    while k > 0
        invariant
            k <= stack.entries@.len(),
            open == stack.view(),
            rv == value_recs_view(recs@),
            kk == (key.0 as int, key.1 as int),
            scope_lookup(open, rv, kk, nm@) == scope_lookup(open.take(k as int), rv, kk, nm@),
        decreases k,
    {
        proof {
            assert(open.take(k as int).last() == open[k - 1]);
            assert(open.take(k as int).drop_last() =~= open.take(k - 1));
        }
        let e = &stack.entries[k - 1];
        let same = match e.0 {
            Some(fk) => fk.0 == key.0 && fk.1 == key.1,
            None => false,
        };
        if same {
            let found = block_lookup_exec(recs, key, e.1, nm);
            if found.is_some() {
                return found;
            }
        }
        k = k - 1;
    }
    None
}

fn expr_value_known(e: &Expr, stack: &BlockStack, recs: &Vec<((usize, usize), (usize, usize), String, Option<String>)>,
    key: (usize, usize)) -> (r: bool)
    ensures
        r == expr_value(*e, stack.view(), value_recs_view(recs@), (key.0 as int, key.1 as int)) is Some,
{
    match &e.kind {
        ExprKind::Literal(_) => true,
        _ => {
            let sp = fold_expr_ident_spans(e);
            if sp.len() != 1 {
                return false;
            }
            match scope_lookup_exec(stack, recs, key, sp[0].text.as_str()) {
                Some(v) => v.is_some(),
                None => false,
            }
        },
    }
}

fn redundant_comparisons_exec<'b>(e: &'b Expr, stack: &BlockStack, recs: &Vec<((usize, usize), (usize, usize), String, Option<String>)>,
    key: (usize, usize), out: &mut Vec<&'b Expr>)
    ensures
        final(out)@.map_values(|x: &'b Expr| *x) == old(out)@.map_values(|x: &'b Expr| *x)
            + redundant_comparisons(*e, stack.view(), value_recs_view(recs@), (key.0 as int, key.1 as int)),
    decreases e,
{
    let ghost start = out@.map_values(|x: &'b Expr| *x);
    match &e.kind {
        ExprKind::Binary { op, lhs, rhs } => {
            let op = *op;
            if op == BinaryOp::Equal || op == BinaryOp::NotEqual || op == BinaryOp::LessThan || op == BinaryOp::GreaterThan
                || op == BinaryOp::LessThanEq || op == BinaryOp::GreaterThanEq {
                if expr_value_known(lhs, stack, recs, key) && expr_value_known(rhs, stack, recs, key) {
                    out.push(e);
                }
            } else if op == BinaryOp::LogicalAnd || op == BinaryOp::LogicalOr {
                redundant_comparisons_exec(lhs, stack, recs, key, out);
                redundant_comparisons_exec(rhs, stack, recs, key, out);
            }
        },
        _ => {},
    }
    proof {
        assert(out@.map_values(|x: &'b Expr| *x) =~= start
            + redundant_comparisons(*e, stack.view(), value_recs_view(recs@), (key.0 as int, key.1 as int)));
    }
}

fn comparison_findings_exec<'b>(i: usize, loc: &str, s: &Vec<&'b Expr>, out: &mut Vec<Finding>)
    ensures
        findings_view(final(out)@) == findings_view(old(out)@) + comparison_findings(i as int, loc@, s@.map_values(|x: &'b Expr| *x)),
{
    let ghost start = findings_view(out@);
    let ghost sv = s@.map_values(|x: &'b Expr| *x);
    let mut k: usize = 0;
    while k < s.len()
        invariant
            k <= s@.len(),
            sv == s@.map_values(|x: &'b Expr| *x),
            findings_view(out@) == start + comparison_findings(i as int, loc@, sv.take(k as int)),
        decreases s@.len() - k,
    {
        proof {
            assert(sv.take(k + 1).drop_last() =~= sv.take(k as int));
            assert(sv.take(k + 1).last() == *s@[k as int]);
        }
        let ghost before = findings_view(out@);
        let mut text = copy_string(loc);
        push_str(&mut text, " contains a redundant comparison: `");
        push_str(&mut text, s[k].span.text.as_str());
        push_str(&mut text, "`");
        out.push(Finding { event: i, start: s[k].span.start, severity: Severity::Low, text, reference: None });
        proof {
            assert(findings_view(out@) =~= before + finding(i as int, s@[k as int].span.start as int, Severity::Low,
                loc@ + " contains a redundant comparison: `"@ + s@[k as int].span.text@ + "`"@));
            assert(findings_view(out@) =~= start + comparison_findings(i as int, loc@, sv.take(k + 1)));
        }
        k = k + 1;
    }
    proof {
        assert(sv.take(k as int) =~= sv);
    }
}

fn push_idents_none(recs: &mut Vec<((usize, usize), (usize, usize), String, Option<String>)>, key: (usize, usize), b: (usize, usize),
    ids: &Vec<&Ident>)
    ensures
        value_recs_view(final(recs)@) == value_recs_view(old(recs)@)
            + derefs(ids@).map_values(|x: Ident| ((key.0 as int, key.1 as int), (b.0 as int, b.1 as int), name(x), None::<Seq<char>>)),
{
    let ghost start = value_recs_view(recs@);
    let mut k: usize = 0;
    while k < ids.len()
        invariant
            k <= ids@.len(),
            value_recs_view(recs@) == start
                + derefs(ids@).take(k as int).map_values(|x: Ident| ((key.0 as int, key.1 as int), (b.0 as int, b.1 as int), name(x), None::<Seq<char>>)),
        decreases ids@.len() - k,
    {
        let ghost vb = value_recs_view(recs@);
        recs.push((key, b, copy_string(ids[k].span.text.as_str()), None));
        proof {
            assert(value_recs_view(recs@) =~= vb.push(((key.0 as int, key.1 as int), (b.0 as int, b.1 as int), ids@[k as int].span.text@, None::<Seq<char>>)));
            assert(derefs(ids@).take(k + 1) =~= derefs(ids@).take(k as int).push(*ids@[k as int]));
            assert(value_recs_view(recs@) =~= start
                + derefs(ids@).take(k + 1).map_values(|x: Ident| ((key.0 as int, key.1 as int), (b.0 as int, b.1 as int), name(x), None::<Seq<char>>)));
        }
        k = k + 1;
    }
    proof {
        assert(derefs(ids@).take(k as int) =~= derefs(ids@));
    }
}

/// The detector of this module; `detect` runs it over the events of a module.
pub struct RedundantComparisonVisitor;

impl RedundantComparisonVisitor {
    /// Reports the redundant comparisons among the events of a module.
    pub fn detect<'a>(&self, events: &Vec<Event<'a>>) -> (r: Vec<Finding>)
        ensures
            findings_view(r@) == gather(events@, |i: int, ev: Event<'a>| redundant_comparison_at(events@, i, ev)),
    {
        let ghost f = |i: int, ev: Event<'a>| redundant_comparison_at(events@, i, ev);
        let ghost g = |j: int, x: Event<'a>| value_recs(events@, j, x);
        let mut r: Vec<Finding> = Vec::new();
        let mut recs: Vec<((usize, usize), (usize, usize), String, Option<String>)> = Vec::new();
        let mut stack = BlockStack::new();
        let mut i: usize = 0;
        while i < events.len()
            invariant
                i <= events@.len(),
                f == (|i: int, ev: Event<'a>| redundant_comparison_at(events@, i, ev)),
                g == (|j: int, x: Event<'a>| value_recs(events@, j, x)),
                findings_view(r@) == gather(events@.take(i as int), f),
                value_recs_view(recs@) == gather(events@.take(i as int), g),
                stack.view() == open_blocks(events@.take(i as int)),
            decreases events@.len() - i,
        {
            proof {
                lemma_gather_step(events@, f, i as int);
                lemma_gather_step(events@, g, i as int);
                lemma_open_blocks_step(events@, i as int);
            }
            let ghost before = findings_view(r@);
            let ghost recs_before = value_recs_view(recs@);
            let ev = &events[i];
            match ev {
                Event::StatementLet(c, l) => {
                    match c.item_fn {
                        Some(func) => if stack.entries.len() > 0 {
                            let key = fn_key_of(func);
                            let inner = stack.entries[stack.entries.len() - 1].1;
                            match &l.pattern.kind {
                                PatternKind::AmbiguousSingleIdent(x) => {
                                    let v = match &l.expr.kind {
                                        ExprKind::Literal(lit) => Some(copy_string(lit.span.text.as_str())),
                                        _ => None,
                                    };
                                    recs.push((key, inner, copy_string(x.span.text.as_str()), v));
                                },
                                _ => {
                                    let ids = fold_pattern_idents(&l.pattern);
                                    push_idents_none(&mut recs, key, inner, &ids);
                                },
                            }
                        },
                        None => {},
                    }
                },
                Event::If(c, _, ifx) => {
                    match (c.item_fn, &ifx.condition) {
                        (Some(func), IfCondition::Let { lhs, .. }) => {
                            let ids = fold_pattern_idents(lhs);
                            push_idents_none(&mut recs, fn_key_of(func), (ifx.then_block.span.start, ifx.then_block.span.end), &ids);
                        },
                        (Some(func), IfCondition::Expr(cond)) => {
                            let mut found: Vec<&Expr> = Vec::new();
                            redundant_comparisons_exec(cond, &stack, &recs, fn_key_of(func), &mut found);
                            let loc = context_location(c);
                            comparison_findings_exec(i, loc.as_str(), &found, &mut r);
                        },
                        _ => {},
                    }
                },
                Event::While(c, _, cond, _) => {
                    match c.item_fn {
                        Some(func) => {
                            let mut found: Vec<&Expr> = Vec::new();
                            redundant_comparisons_exec(cond, &stack, &recs, fn_key_of(func), &mut found);
                            let loc = context_location(c);
                            comparison_findings_exec(i, loc.as_str(), &found, &mut r);
                        },
                        None => {},
                    }
                },
                _ => {},
            }
            proof {
                assert(value_recs_view(recs@) =~= recs_before + g(i as int, events@[i as int]));
                assert(findings_view(r@) =~= before + f(i as int, events@[i as int]));
            }
            stack.step(ev);
            i = i + 1;
        }
        proof {
            assert(events@.take(i as int) =~= events@);
        }
        r
    }
}

} // verus!
