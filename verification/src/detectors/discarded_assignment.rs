//! Reports values assigned to variables that are overwritten, or go out of scope, unread.
use vstd::prelude::*;
use crate::ast::{AsmRegister, ExprKind, Ident, ReassignmentOp, Span, StatementKind};
use crate::detectors::{gather, lemma_gather_step, ctx_location, context_location, finding, findings_view, FindingView, Finding,
    Reference, fn_key, fn_key_of, block_key, open_blocks, lemma_open_blocks_step, BlockStack, is_first, lemma_first_unique,
    is_last, lemma_last_unique, is_innermost, lemma_innermost_unique};
use crate::report::Severity;
use crate::storage_access::{ident_spans, span_refs, fold_expr_ident_spans};
use crate::text::{push_str, str_eq, copy_string, has_prefix, str_starts_with, to_chars};
use crate::utils::{name, derefs, pattern_idents, fold_pattern_idents};
use crate::walk::Event;

verus! {

/// A value assigned in a block of a function: the function's key, the block's key, the name
/// assigned to, the span of the latest assignment, and whether the value has been read.
pub type Assign = ((int, int), (int, int), Seq<char>, Span, bool);

/// A value of the block assigned to `t`.
pub open spec fn name_match(key: (int, int), blk: (int, int), t: Seq<char>) -> spec_fn(Assign) -> bool {
    |x: Assign| x.0 == key && x.1 == blk && x.2 == t
}

/// Whether `nm` names a field of `t`: it starts with `t` and a dot.
pub open spec fn is_field_of(nm: Seq<char>, t: Seq<char>) -> bool {
    has_prefix(nm, t + "."@)
}

/// Whether the block of the function is open.
pub open spec fn block_open(open: Seq<(Option<(int, int)>, (int, int))>, key: (int, int), blk: (int, int)) -> bool {
    exists|m: int| 0 <= m < open.len() && #[trigger] open[m] == (Some(key), blk)
}

/// The values after an expression mentions `t`: in each open block of the function, the last
/// value assigned to `t` and every value assigned to a field of `t` are read.
pub open spec fn mention(bs: Seq<Assign>, open: Seq<(Option<(int, int)>, (int, int))>, key: (int, int), t: Seq<char>) -> Seq<Assign> {
    bs.map(|j: int, x: Assign| if x.0 == key && block_open(open, key, x.1)
        && (is_last(bs, name_match(key, x.1, t), j) || is_field_of(x.2, t)) { (x.0, x.1, x.2, x.3, true) } else { x })
}

/// The values after an expression mentions the names at the given spans, in order.
pub open spec fn mentions(bs: Seq<Assign>, open: Seq<(Option<(int, int)>, (int, int))>, key: (int, int), spans: Seq<Span>)
    -> Seq<Assign>
    decreases spans.len(),
{
    if spans.len() == 0 {
        bs
    } else {
        mention(mentions(bs, open, key, spans.drop_last()), open, key, spans.last().text@)
    }
}

/// Blocks holding a value assigned to `t`.
pub open spec fn named_in(bs: Seq<Assign>, key: (int, int), t: Seq<char>) -> spec_fn((int, int)) -> bool {
    |blk: (int, int)| exists|k: int| 0 <= k < bs.len() && name_match(key, blk, t)(#[trigger] bs[k])
}

/// Whether a value of the block is assigned to `t` or to a field of it.
pub open spec fn touches(x: Assign, key: (int, int), blk: (int, int), t: Seq<char>) -> bool {
    x.0 == key && x.1 == blk && (x.2 == t || is_field_of(x.2, t))
}

/// Blocks holding a value assigned to `t` or to a field of it.
pub open spec fn touched_in(bs: Seq<Assign>, key: (int, int), t: Seq<char>) -> spec_fn((int, int)) -> bool {
    |blk: (int, int)| exists|k: int| 0 <= k < bs.len() && #[trigger] touches(bs[k], key, blk, t)
}

/// The values after an `asm` register reads `t`: in the innermost open block of the function
/// that holds a value of `t` or of a field of it, the first value of `t` and the values of its
/// fields are read.
pub open spec fn asm_read(bs: Seq<Assign>, open: Seq<(Option<(int, int)>, (int, int))>, key: (int, int), t: Seq<char>) -> Seq<Assign> {
    if exists|m: int| #[trigger] is_innermost(open, key, touched_in(bs, key, t), m) {
        let m = choose|m: int| #[trigger] is_innermost(open, key, touched_in(bs, key, t), m);
        let blk = open[m].1;
        bs.map(|j: int, x: Assign| if is_first(bs, name_match(key, blk, t), j) || (x.0 == key && x.1 == blk && is_field_of(x.2, t)) {
            (x.0, x.1, x.2, x.3, true)
        } else {
            x
        })
    } else {
        bs
    }
}

/// What an `asm` register reads: its initial value, else the register itself.
pub open spec fn register_read(r: AsmRegister) -> Seq<char> {
    match r.value {
        Some(v) => v.span.text@,
        None => name(r.register),
    }
}

/// The values after the registers of an `asm` block are read, in order.
pub open spec fn asm_reads(bs: Seq<Assign>, open: Seq<(Option<(int, int)>, (int, int))>, key: (int, int), regs: Seq<AsmRegister>)
    -> Seq<Assign>
    decreases regs.len(),
{
    if regs.len() == 0 {
        bs
    } else {
        asm_read(asm_reads(bs, open, key, regs.drop_last()), open, key, register_read(regs.last()))
    }
}

/// The values after a loop condition that names `t` is left: in the innermost open block of the
/// function that holds a value of `t`, the first one is read.
pub open spec fn loop_read(bs: Seq<Assign>, open: Seq<(Option<(int, int)>, (int, int))>, key: (int, int), t: Seq<char>) -> Seq<Assign> {
    if exists|m: int| #[trigger] is_innermost(open, key, named_in(bs, key, t), m) {
        let m = choose|m: int| #[trigger] is_innermost(open, key, named_in(bs, key, t), m);
        let k = choose|k: int| #[trigger] is_first(bs, name_match(key, open[m].1, t), k);
        let x = bs[k];
        bs.update(k, (x.0, x.1, x.2, x.3, true))
    } else {
        bs
    }
}

/// The values after a loop condition that names the given spans is left, in order.
pub open spec fn loop_reads(bs: Seq<Assign>, open: Seq<(Option<(int, int)>, (int, int))>, key: (int, int), spans: Seq<Span>)
    -> Seq<Assign>
    decreases spans.len(),
{
    if spans.len() == 0 {
        bs
    } else {
        loop_read(loop_reads(bs, open, key, spans.drop_last()), open, key, spans.last().text@)
    }
}

/// The value that an assignment to `t` replaces: in the innermost open block of the function
/// that holds a value of `t`, the last one.
pub open spec fn overwritten(bs: Seq<Assign>, open: Seq<(Option<(int, int)>, (int, int))>, key: (int, int), t: Seq<char>) -> Option<int> {
    if exists|m: int| #[trigger] is_innermost(open, key, named_in(bs, key, t), m) {
        let m = choose|m: int| #[trigger] is_innermost(open, key, named_in(bs, key, t), m);
        Some(choose|k: int| #[trigger] is_last(bs, name_match(key, open[m].1, t), k))
    } else {
        None
    }
}

/// Whether a name starts with an underscore, which marks it as meant to stay unread.
pub open spec fn starts_with_underscore(nm: Seq<char>) -> bool {
    nm.len() > 0 && nm[0] == '_'
}

/// The values after one more event, the blocks `open` being open before it.
pub open spec fn assign_step<'a>(open: Seq<(Option<(int, int)>, (int, int))>, bs: Seq<Assign>, ev: Event<'a>) -> Seq<Assign> {
    match ev {
        Event::Statement(c, s) => match (c.item_fn, s.kind) {
            (Some(f), StatementKind::Let(l)) => if !c.in_const && open.len() > 0 {
                bs + pattern_idents(l.pattern).map_values(|x: Ident|
                    (fn_key(f), open.last().1, name(x), x.span, starts_with_underscore(name(x))))
            } else {
                bs
            },
            _ => bs,
        },
        Event::Expr(c, e) => match c.item_fn {
            Some(f) => if !c.in_const {
                let key = fn_key(f);
                match e.kind {
                    ExprKind::Reassignment { assignable, value, .. } => {
                        let t = assignable.span.text@;
                        match overwritten(bs, open, key, t) {
                            Some(k) => {
                                let x = bs[k];
                                mentions(bs.update(k, (x.0, x.1, x.2, assignable.span, false)), open, key, ident_spans(*value))
                            },
                            None => if open.len() > 0 {
                                mentions(bs.push((key, open.last().1, t, assignable.span, false)), open, key, ident_spans(*value))
                            } else {
                                bs
                            },
                        }
                    },
                    _ => mentions(bs, open, key, ident_spans(*e)),
                }
            } else {
                bs
            },
            None => bs,
        },
        Event::AsmBlock(c, a) => match c.item_fn {
            Some(f) => if !c.in_const { asm_reads(bs, open, fn_key(f), a.registers@) } else { bs },
            None => bs,
        },
        Event::LeaveWhile(c, _, cond, _) => match c.item_fn {
            Some(f) => if !c.in_const { loop_reads(bs, open, fn_key(f), ident_spans(*cond)) } else { bs },
            None => bs,
        },
        _ => bs,
    }
}

/// The values after the given events.
pub open spec fn assign_state<'a>(evs: Seq<Event<'a>>) -> Seq<Assign>
    decreases evs.len(),
{
    if evs.len() == 0 {
        Seq::empty()
    } else {
        assign_step(open_blocks(evs.drop_last()), assign_state(evs.drop_last()), evs.last())
    }
}

proof fn lemma_assign_state_step<'a>(evs: Seq<Event<'a>>, i: int)
    requires
        0 <= i < evs.len(),
    ensures
        assign_state(evs.take(i + 1)) == assign_step(open_blocks(evs.take(i)), assign_state(evs.take(i)), evs[i]),
{
    assert(evs.take(i + 1).drop_last() =~= evs.take(i));
}

/// What the values of a block that ends give: each value never read.
pub open spec fn unread_findings(i: int, loc: Seq<char>, bs: Seq<Assign>, key: (int, int), blk: (int, int)) -> Seq<FindingView>
    decreases bs.len(),
{
    if bs.len() == 0 {
        Seq::empty()
    } else {
        unread_findings(i, loc, bs.drop_last(), key, blk) + if bs.last().0 == key && bs.last().1 == blk && !bs.last().4 {
            finding(i, bs.last().3.start as int, Severity::High,
                loc + " makes an assignment to `"@ + bs.last().3.text@ + "` which is discarded."@)
        } else {
            Seq::empty()
        }
    }
}

/// What the detector reports at one event, given the events before it: a plain assignment that
/// replaces a value never read, naming the line of the new assignment; and, when a block of a
/// function ends, its values never read.
pub open spec fn discarded_assignment_at<'a>(evs: Seq<Event<'a>>, i: int, ev: Event<'a>) -> Seq<FindingView> {
    let bs = assign_state(evs.take(i));
    let open = open_blocks(evs.take(i));
    match ev {
        Event::Expr(c, e) => match (c.item_fn, e.kind) {
            (Some(f), ExprKind::Reassignment { assignable, op, .. }) => if !c.in_const {
                match overwritten(bs, open, fn_key(f), assignable.span.text@) {
                    Some(k) => if op == ReassignmentOp::Equals && !bs[k].4 {
                        seq![(i, bs[k].3.start as int, Severity::High,
                            ctx_location(c) + " makes an assignment to `"@ + bs[k].3.text@ + "` which is discarded by the assignment made on "@,
                            Some((assignable.span.start as int, ""@, true, "."@)))]
                    } else {
                        Seq::empty()
                    },
                    None => Seq::empty(),
                }
            } else {
                Seq::empty()
            },
            _ => Seq::empty(),
        },
        Event::LeaveBlock(c, b) => match c.item_fn {
            Some(f) => if !c.in_const { unread_findings(i, ctx_location(c), bs, fn_key(f), block_key(b)) } else { Seq::empty() },
            None => Seq::empty(),
        },
        _ => Seq::empty(),
    }
}

#[derive(Clone, Copy)]
struct Rec<'a> {
    key: (usize, usize),
    blk: (usize, usize),
    name: &'a str,
    span: &'a Span,
    used: bool,
}

spec fn kv(k: (usize, usize)) -> (int, int) {
    (k.0 as int, k.1 as int)
}

spec fn rec_view<'a>(r: Rec<'a>) -> Assign {
    (kv(r.key), kv(r.blk), r.name@, *r.span, r.used)
}

spec fn recs_view<'a>(v: Seq<Rec<'a>>) -> Seq<Assign> {
    v.map_values(|r: Rec<'a>| rec_view(r))
}

fn read_rec<'a>(x: Rec<'a>) -> (r: Rec<'a>)
    ensures
        rec_view(r) == (rec_view(x).0, rec_view(x).1, rec_view(x).2, rec_view(x).3, true),
{
    Rec { key: x.key, blk: x.blk, name: x.name, span: x.span, used: true }
}

fn block_open_exec(stack: &BlockStack, key: (usize, usize), blk: (usize, usize)) -> (r: bool)
    ensures
        r == block_open(stack.view(), kv(key), kv(blk)),
{
    let ghost open = stack.view();
    let mut m: usize = 0;
    while m < stack.entries.len()
        invariant
            m <= stack.entries@.len(),
            open == stack.view(),
            forall|l: int| 0 <= l < m ==> #[trigger] open[l] != (Some(kv(key)), kv(blk)),
        decreases stack.entries@.len() - m,
    {
        let e = stack.entries[m];
        let same = match e.0 {
            Some(fk) => fk.0 == key.0 && fk.1 == key.1,
            None => false,
        } && e.1.0 == blk.0 && e.1.1 == blk.1;
        if same {
            proof {
                assert(open[m as int] == (Some(kv(key)), kv(blk)));
            }
            return true;
        }
        m = m + 1;
    }
    false
}

fn rec_named<'a>(x: &Rec<'a>, key: (usize, usize), blk: (usize, usize), t: &str) -> (r: bool)
    ensures
        r == name_match(kv(key), kv(blk), t@)(rec_view(*x)),
{
    x.key.0 == key.0 && x.key.1 == key.1 && x.blk.0 == blk.0 && x.blk.1 == blk.1 && str_eq(x.name, t)
}

fn is_last_named<'a>(bs: &Vec<Rec<'a>>, j: usize, key: (usize, usize), blk: (usize, usize), t: &str) -> (r: bool)
    requires
        j < bs@.len(),
    ensures
        r == is_last(recs_view(bs@), name_match(kv(key), kv(blk), t@), j as int),
{
    let ghost p = name_match(kv(key), kv(blk), t@);
    let ghost v = recs_view(bs@);
    proof {
        assert(v[j as int] == rec_view(bs@[j as int]));
    }
    if !rec_named(&bs[j], key, blk, t) {
        return false;
    }
    let n = bs.len();
    let mut l: usize = j + 1;
    while l < bs.len()
        invariant
            j < l <= bs@.len(),
            p == name_match(kv(key), kv(blk), t@),
            v == recs_view(bs@),
            forall|m: int| j < m < l ==> !p(#[trigger] v[m]),
        decreases bs@.len() - l,
    {
        proof {
            assert(v[l as int] == rec_view(bs@[l as int]));
        }
        if rec_named(&bs[l], key, blk, t) {
            return false;
        }
        l = l + 1;
    }
    true
}

fn first_named<'a>(bs: &Vec<Rec<'a>>, key: (usize, usize), blk: (usize, usize), t: &str) -> (r: Option<usize>)
    ensures
        match r {
            Some(k) => is_first(recs_view(bs@), name_match(kv(key), kv(blk), t@), k as int),
            None => forall|k: int| 0 <= k < bs@.len() ==> !name_match(kv(key), kv(blk), t@)(#[trigger] recs_view(bs@)[k]),
        },
{
    let ghost p = name_match(kv(key), kv(blk), t@);
    let ghost v = recs_view(bs@);
    let mut l: usize = 0;
    while l < bs.len()
        invariant
            l <= bs@.len(),
            p == name_match(kv(key), kv(blk), t@),
            v == recs_view(bs@),
            forall|m: int| 0 <= m < l ==> !p(#[trigger] v[m]),
        decreases bs@.len() - l,
    {
        if rec_named(&bs[l], key, blk, t) {
            return Some(l);
        }
        l = l + 1;
    }
    None
}

fn last_named<'a>(bs: &Vec<Rec<'a>>, key: (usize, usize), blk: (usize, usize), t: &str) -> (r: Option<usize>)
    ensures
        match r {
            Some(k) => is_last(recs_view(bs@), name_match(kv(key), kv(blk), t@), k as int),
            None => forall|k: int| 0 <= k < bs@.len() ==> !name_match(kv(key), kv(blk), t@)(#[trigger] recs_view(bs@)[k]),
        },
{
    let ghost p = name_match(kv(key), kv(blk), t@);
    let ghost v = recs_view(bs@);
    let mut l: usize = bs.len();
    while l > 0
        invariant
            l <= bs@.len(),
            p == name_match(kv(key), kv(blk), t@),
            v == recs_view(bs@),
            forall|m: int| l <= m < bs@.len() ==> !p(#[trigger] v[m]),
        decreases l,
    {
        if rec_named(&bs[l - 1], key, blk, t) {
            return Some(l - 1);
        }
        l = l - 1;
    }
    None
}

fn dotted(t: &str) -> (r: String)
    ensures
        r@ == t@ + "."@,
{
    let mut s = copy_string(t);
    push_str(&mut s, ".");
    s
}

fn mention_exec<'a>(bs: &Vec<Rec<'a>>, stack: &BlockStack, key: (usize, usize), t: &str) -> (r: Vec<Rec<'a>>)
    ensures
        recs_view(r@) == mention(recs_view(bs@), stack.view(), kv(key), t@),
{
    let ghost v = recs_view(bs@);
    let ghost want = mention(v, stack.view(), kv(key), t@);
    let dot = dotted(t);
    let mut out: Vec<Rec<'a>> = Vec::new();
    let mut j: usize = 0;
    while j < bs.len()
        invariant
            j <= bs@.len(),
            v == recs_view(bs@),
            want == mention(v, stack.view(), kv(key), t@),
            dot@ == t@ + "."@,
            recs_view(out@) == want.take(j as int),
        decreases bs@.len() - j,
    {
        let x = bs[j];
        let hit = x.key.0 == key.0 && x.key.1 == key.1 && block_open_exec(stack, key, x.blk)
            && (is_last_named(bs, j, key, x.blk, t) || str_starts_with(x.name, dot.as_str()));
        let ghost before = recs_view(out@);
        proof {
            assert(v[j as int] == rec_view(x));
            assert(hit == (v[j as int].0 == kv(key) && block_open(stack.view(), kv(key), v[j as int].1)
                && (is_last(v, name_match(kv(key), v[j as int].1, t@), j as int) || is_field_of(v[j as int].2, t@))));
            assert(want[j as int] == (if hit { (v[j as int].0, v[j as int].1, v[j as int].2, v[j as int].3, true) } else { v[j as int] }));
        }
        if hit {
            out.push(read_rec(x));
        } else {
            out.push(x);
        }
        proof {
            assert(want.len() == v.len());
            assert(before.len() == j);
            assert(out@.len() == j + 1);
            assert(recs_view(out@).len() == out@.len());
            assert(recs_view(out@).len() == j + 1);
            assert(recs_view(out@)[j as int] == want[j as int]);
            assert(forall|l: int| 0 <= l < j ==> recs_view(out@)[l] == before[l]);
            assert(recs_view(out@) =~= want.take(j as int + 1));
        }
        j = j + 1;
    }
    proof {
        assert(want.take(j as int) =~= want);
    }
    out
}

fn mentions_exec<'a>(bs: Vec<Rec<'a>>, stack: &BlockStack, key: (usize, usize), spans: &Vec<&Span>) -> (r: Vec<Rec<'a>>)
    ensures
        recs_view(r@) == mentions(recs_view(bs@), stack.view(), kv(key), span_refs(spans@)),
{
    let ghost v0 = recs_view(bs@);
    let ghost sv = span_refs(spans@);
    let mut cur = bs;
    let mut j: usize = 0;
    while j < spans.len()
        invariant
            j <= spans@.len(),
            sv == span_refs(spans@),
            recs_view(cur@) == mentions(v0, stack.view(), kv(key), sv.take(j as int)),
        decreases spans@.len() - j,
    {
        proof {
            assert(sv.take(j as int + 1).drop_last() =~= sv.take(j as int));
            assert(sv.take(j as int + 1).last() == *spans@[j as int]);
        }
        cur = mention_exec(&cur, stack, key, spans[j].text.as_str());
        j = j + 1;
    }
    proof {
        assert(sv.take(j as int) =~= sv);
    }
    cur
}

fn innermost_named<'a>(bs: &Vec<Rec<'a>>, stack: &BlockStack, key: (usize, usize), t: &str) -> (r: Option<usize>)
    ensures
        match r {
            Some(m) => is_innermost(stack.view(), kv(key), named_in(recs_view(bs@), kv(key), t@), m as int),
            None => !exists|m: int| #[trigger] is_innermost(stack.view(), kv(key), named_in(recs_view(bs@), kv(key), t@), m),
        },
{
    let ghost open = stack.view();
    let ghost hit = named_in(recs_view(bs@), kv(key), t@);
    let mut m: usize = stack.entries.len();
    while m > 0
        invariant
            m <= stack.entries@.len(),
            open == stack.view(),
            hit == named_in(recs_view(bs@), kv(key), t@),
            forall|m2: int| m <= m2 < open.len() && (#[trigger] open[m2]).0 == Some(kv(key)) ==> !hit(open[m2].1),
        decreases m,
    {
        let e = stack.entries[m - 1];
        let same = match e.0 {
            Some(fk) => fk.0 == key.0 && fk.1 == key.1,
            None => false,
        };
        proof {
            assert(open[m - 1].1 == kv(e.1));
        }
        if same {
            match first_named(bs, key, e.1, t) {
                Some(k) => {
                    proof {
                        assert(name_match(kv(key), kv(e.1), t@)(recs_view(bs@)[k as int]));
                        assert(hit(open[m - 1].1));
                    }
                    return Some(m - 1);
                },
                None => {},
            }
        }
        m = m - 1;
    }
    proof {
        assert forall|c: int| !#[trigger] is_innermost(open, kv(key), hit, c) by {
            if is_innermost(open, kv(key), hit, c) {
                assert(hit(open[c].1));
            }
        }
    }
    None
}

fn rec_touches<'a>(x: &Rec<'a>, key: (usize, usize), blk: (usize, usize), t: &str, dot: &str) -> (r: bool)
    requires
        dot@ == t@ + "."@,
    ensures
        r == touches(rec_view(*x), kv(key), kv(blk), t@),
{
    x.key.0 == key.0 && x.key.1 == key.1 && x.blk.0 == blk.0 && x.blk.1 == blk.1 && (str_eq(x.name, t) || str_starts_with(x.name, dot))
}

fn innermost_touched<'a>(bs: &Vec<Rec<'a>>, stack: &BlockStack, key: (usize, usize), t: &str, dot: &str) -> (r: Option<usize>)
    requires
        dot@ == t@ + "."@,
    ensures
        match r {
            Some(m) => is_innermost(stack.view(), kv(key), touched_in(recs_view(bs@), kv(key), t@), m as int),
            None => !exists|m: int| #[trigger] is_innermost(stack.view(), kv(key), touched_in(recs_view(bs@), kv(key), t@), m),
        },
{
    let ghost open = stack.view();
    let ghost v = recs_view(bs@);
    let ghost hit = touched_in(v, kv(key), t@);
    let mut m: usize = stack.entries.len();
    while m > 0
        invariant
            m <= stack.entries@.len(),
            open == stack.view(),
            v == recs_view(bs@),
            dot@ == t@ + "."@,
            hit == touched_in(v, kv(key), t@),
            forall|m2: int| m <= m2 < open.len() && (#[trigger] open[m2]).0 == Some(kv(key)) ==> !hit(open[m2].1),
        decreases m,
    {
        let e = stack.entries[m - 1];
        let same = match e.0 {
            Some(fk) => fk.0 == key.0 && fk.1 == key.1,
            None => false,
        };
        proof {
            assert(open[m - 1].1 == kv(e.1));
        }
        if same {
            let mut k: usize = 0;
            let mut found = false;
            while k < bs.len()
                invariant
                    k <= bs@.len(),
                    v == recs_view(bs@),
                    dot@ == t@ + "."@,
                    found ==> exists|l: int| 0 <= l < v.len() && #[trigger] touches(v[l], kv(key), kv(e.1), t@),
                    !found ==> forall|l: int| 0 <= l < k ==> !#[trigger] touches(v[l], kv(key), kv(e.1), t@),
                decreases bs@.len() - k,
            {
                proof {
                    assert(v[k as int] == rec_view(bs@[k as int]));
                }
                if !found && rec_touches(&bs[k], key, e.1, t, dot) {
                    found = true;
                }
                k = k + 1;
            }
            if found {
                proof {
                    assert(hit(open[m - 1].1));
                }
                return Some(m - 1);
            }
            proof {
                assert(!hit(open[m - 1].1));
            }
        }
        m = m - 1;
    }
    proof {
        assert forall|c: int| !#[trigger] is_innermost(open, kv(key), hit, c) by {
            if is_innermost(open, kv(key), hit, c) {
                assert(hit(open[c].1));
            }
        }
    }
    None
}

fn asm_read_exec<'a>(bs: Vec<Rec<'a>>, stack: &BlockStack, key: (usize, usize), t: &str) -> (r: Vec<Rec<'a>>)
    ensures
        recs_view(r@) == asm_read(recs_view(bs@), stack.view(), kv(key), t@),
{
    let ghost v = recs_view(bs@);
    let ghost open = stack.view();
    let dot = dotted(t);
    match innermost_touched(&bs, stack, key, t, dot.as_str()) {
        Some(m) => {
            let blk = stack.entries[m].1;
            proof {
                let c = choose|c: int| #[trigger] is_innermost(open, kv(key), touched_in(v, kv(key), t@), c);
                lemma_innermost_unique(open, kv(key), touched_in(v, kv(key), t@), c, m as int);
                assert(open[m as int].1 == kv(blk));
            }
            let ghost want = asm_read(v, open, kv(key), t@);
            let first = first_named(&bs, key, blk, t);
            let mut out: Vec<Rec<'a>> = Vec::new();
            let mut j: usize = 0;
            while j < bs.len()
                invariant
                    j <= bs@.len(),
                    v == recs_view(bs@),
                    dot@ == t@ + "."@,
                    match first {
                        Some(k) => is_first(v, name_match(kv(key), kv(blk), t@), k as int),
                        None => forall|k: int| 0 <= k < v.len() ==> !name_match(kv(key), kv(blk), t@)(#[trigger] v[k]),
                    },
                    want == v.map(|j: int, x: Assign| if is_first(v, name_match(kv(key), kv(blk), t@), j)
                        || (x.0 == kv(key) && x.1 == kv(blk) && is_field_of(x.2, t@)) { (x.0, x.1, x.2, x.3, true) } else { x }),
                    recs_view(out@) == want.take(j as int),
                decreases bs@.len() - j,
            {
                let x = bs[j];
                let is_first_j = match first {
                    Some(k) => k == j,
                    None => false,
                };
                proof {
                    match first {
                        Some(k) => {
                            if is_first(v, name_match(kv(key), kv(blk), t@), j as int) {
                                lemma_first_unique(v, name_match(kv(key), kv(blk), t@), j as int, k as int);
                            }
                        },
                        None => {},
                    }
                }
                let hit = is_first_j || (x.key.0 == key.0 && x.key.1 == key.1 && x.blk.0 == blk.0 && x.blk.1 == blk.1
                    && str_starts_with(x.name, dot.as_str()));
                let ghost before = recs_view(out@);
                proof {
                    assert(v[j as int] == rec_view(x));
                    assert(want[j as int] == (if hit { (v[j as int].0, v[j as int].1, v[j as int].2, v[j as int].3, true) } else { v[j as int] }));
                }
                if hit {
                    out.push(read_rec(x));
                } else {
                    out.push(x);
                }
                proof {
                    assert(want.len() == v.len());
                    assert(before.len() == j);
                    assert(out@.len() == j + 1);
                    assert(recs_view(out@).len() == out@.len());
                    assert(forall|l: int| 0 <= l < j ==> recs_view(out@)[l] == before[l]);
                    assert(recs_view(out@) =~= want.take(j as int + 1));
                }
                j = j + 1;
            }
            proof {
                assert(want.take(j as int) =~= want);
            }
            out
        },
        None => bs,
    }
}

fn asm_reads_exec<'a>(bs: Vec<Rec<'a>>, stack: &BlockStack, key: (usize, usize), regs: &Vec<AsmRegister>) -> (r: Vec<Rec<'a>>)
    ensures
        recs_view(r@) == asm_reads(recs_view(bs@), stack.view(), kv(key), regs@),
{
    let ghost v0 = recs_view(bs@);
    let mut cur = bs;
    let mut j: usize = 0;
    while j < regs.len()
        invariant
            j <= regs@.len(),
            recs_view(cur@) == asm_reads(v0, stack.view(), kv(key), regs@.take(j as int)),
        decreases regs@.len() - j,
    {
        proof {
            assert(regs@.take(j as int + 1).drop_last() =~= regs@.take(j as int));
        }
        let reg = &regs[j];
        let t: &str = match &reg.value {
            Some(v) => v.span.text.as_str(),
            None => reg.register.span.text.as_str(),
        };
        cur = asm_read_exec(cur, stack, key, t);
        j = j + 1;
    }
    proof {
        assert(regs@.take(j as int) =~= regs@);
    }
    cur
}

fn loop_read_exec<'a>(bs: Vec<Rec<'a>>, stack: &BlockStack, key: (usize, usize), t: &str) -> (r: Vec<Rec<'a>>)
    ensures
        recs_view(r@) == loop_read(recs_view(bs@), stack.view(), kv(key), t@),
{
    let ghost v = recs_view(bs@);
    let ghost open = stack.view();
    match innermost_named(&bs, stack, key, t) {
        Some(m) => {
            let blk = stack.entries[m].1;
            proof {
                let c = choose|c: int| #[trigger] is_innermost(open, kv(key), named_in(v, kv(key), t@), c);
                lemma_innermost_unique(open, kv(key), named_in(v, kv(key), t@), c, m as int);
                assert(open[m as int].1 == kv(blk));
                let w = choose|w: int| 0 <= w < v.len() && name_match(kv(key), kv(blk), t@)(#[trigger] v[w]);
            }
            match first_named(&bs, key, blk, t) {
                Some(k) => {
                    proof {
                        let c2 = choose|c2: int| #[trigger] is_first(v, name_match(kv(key), kv(blk), t@), c2);
                        lemma_first_unique(v, name_match(kv(key), kv(blk), t@), c2, k as int);
                    }
                    let mut out = bs;
                    let x = out[k];
                    out.set(k, read_rec(x));
                    proof {
                        assert(recs_view(out@) =~= loop_read(v, open, kv(key), t@));
                    }
                    out
                },
                None => {
                    proof {
                        assert(false);
                    }
                    bs
                },
            }
        },
        None => bs,
    }
}

fn loop_reads_exec<'a>(bs: Vec<Rec<'a>>, stack: &BlockStack, key: (usize, usize), spans: &Vec<&Span>) -> (r: Vec<Rec<'a>>)
    ensures
        recs_view(r@) == loop_reads(recs_view(bs@), stack.view(), kv(key), span_refs(spans@)),
{
    let ghost v0 = recs_view(bs@);
    let ghost sv = span_refs(spans@);
    let mut cur = bs;
    let mut j: usize = 0;
    while j < spans.len()
        invariant
            j <= spans@.len(),
            sv == span_refs(spans@),
            recs_view(cur@) == loop_reads(v0, stack.view(), kv(key), sv.take(j as int)),
        decreases spans@.len() - j,
    {
        proof {
            assert(sv.take(j as int + 1).drop_last() =~= sv.take(j as int));
            assert(sv.take(j as int + 1).last() == *spans@[j as int]);
        }
        cur = loop_read_exec(cur, stack, key, spans[j].text.as_str());
        j = j + 1;
    }
    proof {
        assert(sv.take(j as int) =~= sv);
    }
    cur
}

fn overwritten_exec<'a>(bs: &Vec<Rec<'a>>, stack: &BlockStack, key: (usize, usize), t: &str) -> (r: Option<usize>)
    ensures
        match overwritten(recs_view(bs@), stack.view(), kv(key), t@) {
            Some(k) => r matches Some(rk) && rk as int == k && k < bs@.len(),
            None => r is None,
        },
{
    let ghost v = recs_view(bs@);
    let ghost open = stack.view();
    match innermost_named(bs, stack, key, t) {
        Some(m) => {
            let blk = stack.entries[m].1;
            proof {
                let c = choose|c: int| #[trigger] is_innermost(open, kv(key), named_in(v, kv(key), t@), c);
                lemma_innermost_unique(open, kv(key), named_in(v, kv(key), t@), c, m as int);
                assert(open[m as int].1 == kv(blk));
                let w = choose|w: int| 0 <= w < v.len() && name_match(kv(key), kv(blk), t@)(#[trigger] v[w]);
            }
            match last_named(bs, key, blk, t) {
                Some(k) => {
                    proof {
                        let c2 = choose|c2: int| #[trigger] is_last(v, name_match(kv(key), kv(blk), t@), c2);
                        lemma_last_unique(v, name_match(kv(key), kv(blk), t@), c2, k as int);
                    }
                    Some(k)
                },
                None => {
                    proof {
                        assert(false);
                    }
                    None
                },
            }
        },
        None => None,
    }
}

fn step_exec<'a>(bs: Vec<Rec<'a>>, stack: &BlockStack, ev: &Event<'a>) -> (r: Vec<Rec<'a>>)
    ensures
        recs_view(r@) == assign_step(stack.view(), recs_view(bs@), *ev),
{
    let ghost v = recs_view(bs@);
    match ev {
        Event::Statement(c, s) => match (c.item_fn, &s.kind) {
            (Some(func), StatementKind::Let(l)) => if !c.in_const && stack.entries.len() > 0 {
                let key = fn_key_of(func);
                let inner = stack.entries[stack.entries.len() - 1].1;
                let ids = fold_pattern_idents(&l.pattern);
                let mut out = bs;
                let mut k: usize = 0;
                while k < ids.len()
                    invariant
                        k <= ids@.len(),
                        recs_view(out@) == v + derefs(ids@).take(k as int).map_values(|x: Ident|
                            (kv(key), kv(inner), name(x), x.span, starts_with_underscore(name(x)))),
                    decreases ids@.len() - k,
                {
                    let id = ids[k];
                    let nm = id.span.text.as_str();
                    let chars = to_chars(nm);
                    let under = chars.len() > 0 && chars[0] == '_';
                    let ghost before = recs_view(out@);
                    out.push(Rec { key, blk: inner, name: nm, span: &id.span, used: under });
                    proof {
                        assert(derefs(ids@)[k as int] == *ids@[k as int]);
                        assert(under == starts_with_underscore(nm@));
                        assert(recs_view(out@) =~= before.push((kv(key), kv(inner), name(*id), id.span, starts_with_underscore(name(*id)))));
                        assert(derefs(ids@).take(k + 1) =~= derefs(ids@).take(k as int).push(*ids@[k as int]));
                        assert(recs_view(out@) =~= v + derefs(ids@).take(k + 1).map_values(|x: Ident|
                            (kv(key), kv(inner), name(x), x.span, starts_with_underscore(name(x)))));
                    }
                    k = k + 1;
                }
                proof {
                    assert(derefs(ids@).take(k as int) =~= derefs(ids@));
                    assert(kv(inner) == stack.view().last().1);
                    assert(recs_view(out@) =~= v + pattern_idents(l.pattern).map_values(|x: Ident|
                        (fn_key(func), stack.view().last().1, name(x), x.span, starts_with_underscore(name(x)))));
                    assert(recs_view(out@) == assign_step(stack.view(), v, *ev));
                }
                out
            } else {
                proof {
                    assert(stack.view().len() == stack.entries@.len());
                }
                bs
            },
            _ => {
                proof {
                    assert(assign_step(stack.view(), v, *ev) == v);
                }
                bs
            },
        },
        Event::Expr(c, e) => match c.item_fn {
            Some(func) => if !c.in_const {
                let key = fn_key_of(func);
                match &e.kind {
                    ExprKind::Reassignment { assignable, value, .. } => {
                        let t = assignable.span.text.as_str();
                        let spans = fold_expr_ident_spans(value);
                        match overwritten_exec(&bs, stack, key, t) {
                            Some(k) => {
                                let mut out = bs;
                                let x = out[k];
                                out.set(k, Rec { key: x.key, blk: x.blk, name: x.name, span: &assignable.span, used: false });
                                proof {
                                    let xv = v[k as int];
                                    assert(recs_view(out@) =~= v.update(k as int, (xv.0, xv.1, xv.2, assignable.span, false)));
                                }
                                let r = mentions_exec(out, stack, key, &spans);
                                proof {
                                    let xv = v[k as int];
                                    assert(overwritten(v, stack.view(), kv(key), t@) == Some(k as int));
                                    assert(kv(key) == fn_key(func));
                                    assert(span_refs(spans@) == ident_spans(**value));
                                    assert(recs_view(r@) == mentions(v.update(k as int, (xv.0, xv.1, xv.2, assignable.span, false)),
                                        stack.view(), fn_key(func), ident_spans(**value)));
                                    assert(recs_view(r@) == assign_step(stack.view(), v, *ev));
                                }
                                r
                            },
                            None => if stack.entries.len() > 0 {
                                let inner = stack.entries[stack.entries.len() - 1].1;
                                let mut out = bs;
                                out.push(Rec { key, blk: inner, name: t, span: &assignable.span, used: false });
                                proof {
                                    assert(kv(inner) == stack.view().last().1);
                                    assert(recs_view(out@) =~= v.push((kv(key), kv(inner), t@, assignable.span, false)));
                                }
                                let r = mentions_exec(out, stack, key, &spans);
                                r
                            } else {
                                bs
                            },
                        }
                    },
                    _ => {
                        let spans = fold_expr_ident_spans(e);
                        let r = mentions_exec(bs, stack, key, &spans);
                        r
                    },
                }
            } else {
                bs
            },
            None => bs,
        },
        Event::AsmBlock(c, a) => match c.item_fn {
            Some(func) => if !c.in_const {
                let r = asm_reads_exec(bs, stack, fn_key_of(func), &a.registers);
                r
            } else { bs },
            None => bs,
        },
        Event::LeaveWhile(c, _, cond, _) => match c.item_fn {
            Some(func) => if !c.in_const {
                let spans = fold_expr_ident_spans(cond);
                let r = loop_reads_exec(bs, stack, fn_key_of(func), &spans);
                r
            } else {
                bs
            },
            None => bs,
        },
        _ => bs,
    }
}

/// The detector of this module; `detect` runs it over the events of a module.
pub struct DiscardedAssignmentVisitor;

impl DiscardedAssignmentVisitor {
    /// Reports the discarded assignments among the events of a module.
    pub fn detect<'a>(&self, events: &Vec<Event<'a>>) -> (r: Vec<Finding>)
        ensures
            findings_view(r@) == gather(events@, |i: int, ev: Event<'a>| discarded_assignment_at(events@, i, ev)),
    {
        let ghost f = |i: int, ev: Event<'a>| discarded_assignment_at(events@, i, ev);
        let mut r: Vec<Finding> = Vec::new();
        let mut bs: Vec<Rec<'a>> = Vec::new();
        let mut stack = BlockStack::new();
        let mut i: usize = 0;
        while i < events.len()
            invariant
                i <= events@.len(),
                f == (|i: int, ev: Event<'a>| discarded_assignment_at(events@, i, ev)),
                findings_view(r@) == gather(events@.take(i as int), f),
                recs_view(bs@) == assign_state(events@.take(i as int)),
                stack.view() == open_blocks(events@.take(i as int)),
            decreases events@.len() - i,
        {
            proof {
                lemma_gather_step(events@, f, i as int);
                lemma_open_blocks_step(events@, i as int);
                lemma_assign_state_step(events@, i as int);
            }
            let ghost before = findings_view(r@);
            let ghost v = recs_view(bs@);
            let ev = &events[i];
            match ev {
                Event::Expr(c, e) => match (c.item_fn, &e.kind) {
                    (Some(func), ExprKind::Reassignment { assignable, op, .. }) => if !c.in_const {
                        match overwritten_exec(&bs, &stack, fn_key_of(func), assignable.span.text.as_str()) {
                            Some(k) => {
                                let x = bs[k];
                                proof {
                                    assert(v[k as int] == rec_view(x));
                                }
                                if *op == ReassignmentOp::Equals && !x.used {
                                    let mut text = context_location(c);
                                    push_str(&mut text, " makes an assignment to `");
                                    push_str(&mut text, x.span.text.as_str());
                                    push_str(&mut text, "` which is discarded by the assignment made on ");
                                    let reference = Reference { offset: assignable.span.start, lead: String::new(), required: true,
                                        tail: copy_string(".") };
                                    proof {
                                        assert(reference.lead@ =~= ""@) by {
                                            reveal_strlit("");
                                        }
                                    }
                                    r.push(Finding { event: i, start: x.span.start, severity: Severity::High, text, reference: Some(reference) });
                                    proof {
                                        assert(findings_view(r@) =~= before + seq![(i as int, v[k as int].3.start as int, Severity::High,
                                            ctx_location(*c) + " makes an assignment to `"@ + v[k as int].3.text@
                                            + "` which is discarded by the assignment made on "@,
                                            Some((assignable.span.start as int, ""@, true, "."@)))]);
                                    }
                                }
                            },
                            None => {},
                        }
                    },
                    _ => {},
                },
                Event::LeaveBlock(c, b) => match c.item_fn {
                    Some(func) => if !c.in_const {
                        let key = fn_key_of(func);
                        let blk = (b.span.start, b.span.end);
                        let ghost loc = ctx_location(*c);
                        let mut k: usize = 0;
                        while k < bs.len()
                            invariant
                                k <= bs@.len(),
                                v == recs_view(bs@),
                                loc == ctx_location(*c),
                                findings_view(r@) == before + unread_findings(i as int, loc, v.take(k as int), kv(key), kv(blk)),
                            decreases bs@.len() - k,
                        {
                            proof {
                                assert(v.take(k as int + 1).drop_last() =~= v.take(k as int));
                            }
                            let x = bs[k];
                            let ghost b2 = findings_view(r@);
                            let ghost add = if v[k as int].0 == kv(key) && v[k as int].1 == kv(blk) && !v[k as int].4 {
                                finding(i as int, v[k as int].3.start as int, Severity::High,
                                    loc + " makes an assignment to `"@ + v[k as int].3.text@ + "` which is discarded."@)
                            } else {
                                Seq::empty()
                            };
                            proof {
                                assert(v[k as int] == rec_view(x));
                                assert(v.take(k as int + 1).last() == v[k as int]);
                                assert(unread_findings(i as int, loc, v.take(k as int + 1), kv(key), kv(blk))
                                    == unread_findings(i as int, loc, v.take(k as int), kv(key), kv(blk)) + add);
                            }
                            if x.key.0 == key.0 && x.key.1 == key.1 && x.blk.0 == blk.0 && x.blk.1 == blk.1 && !x.used {
                                let mut text = context_location(c);
                                push_str(&mut text, " makes an assignment to `");
                                push_str(&mut text, x.span.text.as_str());
                                push_str(&mut text, "` which is discarded.");
                                r.push(Finding { event: i, start: x.span.start, severity: Severity::High, text, reference: None });
                            }
                            proof {
                                assert(findings_view(r@) =~= b2 + add);
                                assert(findings_view(r@) =~= before + unread_findings(i as int, loc, v.take(k as int + 1), kv(key), kv(blk)));
                            }
                            k = k + 1;
                        }
                        proof {
                            assert(v.take(k as int) =~= v);
                        }
                    },
                    None => {},
                },
                _ => {},
            }
            proof {
                assert(findings_view(r@) =~= before + f(i as int, events@[i as int]));
            }
            bs = step_exec(bs, &stack, ev);
            stack.step(ev);
            i = i + 1;
        }
        proof {
            assert(events@.take(i as int) =~= events@);
        }
        r
    }
}

} // verus!
