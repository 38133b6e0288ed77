//! Reports storage values bound to mutable local variables in `#[storage(write)]` functions
//! that are modified and never written back, are shadowed first, or change after being written back.
use vstd::prelude::*;
use crate::ast::{ExprKind, Ident, ItemFn, PatternKind, Statement, StatementKind};
use crate::detectors::{gather, lemma_gather_step, finding, findings_view, FindingView, Finding, Reference, fn_key,
    fn_key_of, block_key, open_blocks, lemma_open_blocks_step, BlockStack, is_last, lemma_last_unique,
    is_innermost, lemma_innermost_unique};
use crate::report::Severity;
use crate::text::{push_str, str_eq, copy_string};
use crate::utils::{name, assignable_idents, derefs, storage_read_binding, statement_to_storage_read_binding_idents,
    statement_to_reassignment_idents, storage_write_pair, statement_to_storage_write_idents,
    statement_to_variable_binding_ident, has_attribute, check_attribute_decls, names_view};
use crate::walk::{Ctx, Event};

verus! {

/// A storage value bound to a local variable in a block of a function: the function's key, the
/// block's key, the storage field, the variable, the name of the variable where it changed after
/// the value was written back, the variable that shadows it, whether the value was written
/// back, and whether the variable was modified.
pub type Binding = ((int, int), (int, int), Ident, Ident, Option<Ident>, Option<Ident>, bool, bool);

/// A binding of the block whose variable is named `nm`.
pub open spec fn var_match(key: (int, int), blk: (int, int), nm: Seq<char>) -> spec_fn(Binding) -> bool {
    |x: Binding| x.0 == key && x.1 == blk && name(x.3) == nm
}

/// A binding of the block whose storage field is named `nm`.
pub open spec fn storage_match(key: (int, int), blk: (int, int), nm: Seq<char>) -> spec_fn(Binding) -> bool {
    |x: Binding| x.0 == key && x.1 == blk && name(x.2) == nm
}

/// Blocks holding a binding whose variable is named `nm`.
pub open spec fn var_hit(bs: Seq<Binding>, key: (int, int), nm: Seq<char>) -> spec_fn((int, int)) -> bool {
    |blk: (int, int)| exists|k: int| 0 <= k < bs.len() && var_match(key, blk, nm)(#[trigger] bs[k])
}

/// Blocks whose last binding of the storage field `st` binds the variable named `v`.
pub open spec fn write_hit(bs: Seq<Binding>, key: (int, int), st: Seq<char>, v: Seq<char>) -> spec_fn((int, int)) -> bool {
    |blk: (int, int)| exists|k: int| #[trigger] is_last(bs, storage_match(key, blk, st), k) && name(bs[k].3) == v
}

/// The bindings after a `let` of the variable `v` in the block: the last binding of the block
/// with a variable of that name is shadowed by `v`.
pub open spec fn shadow(bs: Seq<Binding>, key: (int, int), blk: (int, int), v: Ident) -> Seq<Binding> {
    if exists|k: int| #[trigger] is_last(bs, var_match(key, blk, name(v)), k) {
        let k = choose|k: int| #[trigger] is_last(bs, var_match(key, blk, name(v)), k);
        let x = bs[k];
        bs.update(k, (x.0, x.1, x.2, x.3, x.4, Some(v), x.6, x.7))
    } else {
        bs
    }
}

/// The bindings after a reassignment of the variable `v`: in the innermost open block of the
/// function that binds a variable of that name, the last such binding is changed, and it
/// records `v` as a change after the write-back when it was written back.
pub open spec fn reassign(bs: Seq<Binding>, open: Seq<(Option<(int, int)>, (int, int))>, key: (int, int), v: Ident) -> Seq<Binding> {
    if exists|m: int| #[trigger] is_innermost(open, key, var_hit(bs, key, name(v)), m) {
        let m = choose|m: int| #[trigger] is_innermost(open, key, var_hit(bs, key, name(v)), m);
        let k = choose|k: int| #[trigger] is_last(bs, var_match(key, open[m].1, name(v)), k);
        let x = bs[k];
        bs.update(k, (x.0, x.1, x.2, x.3, if x.6 { Some(v) } else { x.4 }, x.5, x.6, true))
    } else {
        bs
    }
}

/// The bindings after writing `v` back to the storage field `st`: in the innermost open block of
/// the function whose last binding of `st` binds a variable named as `v`, that binding is
/// written back.
pub open spec fn write_back(bs: Seq<Binding>, open: Seq<(Option<(int, int)>, (int, int))>, key: (int, int), st: Ident, v: Ident)
    -> Seq<Binding>
{
    if exists|m: int| #[trigger] is_innermost(open, key, write_hit(bs, key, name(st), name(v)), m) {
        let m = choose|m: int| #[trigger] is_innermost(open, key, write_hit(bs, key, name(st), name(v)), m);
        let k = choose|k: int| #[trigger] is_last(bs, storage_match(key, open[m].1, name(st)), k);
        let x = bs[k];
        bs.update(k, (x.0, x.1, x.2, x.3, x.4, x.5, true, x.7))
    } else {
        bs
    }
}

/// The variable a `let` binds when its pattern is a plain variable.
pub open spec fn let_variable(s: Statement) -> Option<Ident> {
    match s.kind {
        StatementKind::Let(l) => match l.pattern.kind {
            PatternKind::Var { name, .. } => Some(name),
            _ => None,
        },
        _ => None,
    }
}

/// The first name along the target of a reassignment statement.
pub open spec fn reassigned_variable(s: Statement) -> Option<Ident> {
    match s.kind {
        StatementKind::Expr { expr, .. } => match expr.kind {
            ExprKind::Reassignment { assignable, .. } => if assignable_idents(assignable).len() > 0 {
                Some(assignable_idents(assignable)[0])
            } else {
                None
            },
            _ => None,
        },
        _ => None,
    }
}

/// The bindings after one more event, the blocks `open` being open before it. A statement of a
/// function first shadows, then binds a storage value, or else reassigns a variable, or else
/// writes a value back.
pub open spec fn binding_step<'a>(open: Seq<(Option<(int, int)>, (int, int))>, bs: Seq<Binding>, ev: Event<'a>) -> Seq<Binding> {
    match ev {
        Event::Statement(c, s) => match c.item_fn {
            Some(f) => if open.len() > 0 {
                let key = fn_key(f);
                let blk = open.last().1;
                let b1 = match let_variable(*s) {
                    Some(v) => shadow(bs, key, blk, v),
                    None => bs,
                };
                match storage_read_binding(*s) {
                    Some((st, v)) => b1.push((key, blk, st, v, None, None, false, false)),
                    None => match reassigned_variable(*s) {
                        Some(v) => reassign(b1, open, key, v),
                        None => match storage_write_pair(*s) {
                            Some((st, v)) => write_back(b1, open, key, st, v),
                            None => b1,
                        },
                    },
                }
            } else {
                bs
            },
            None => bs,
        },
        _ => bs,
    }
}

/// The bindings after the given events.
pub open spec fn binding_state<'a>(evs: Seq<Event<'a>>) -> Seq<Binding>
    decreases evs.len(),
{
    if evs.len() == 0 {
        Seq::empty()
    } else {
        binding_step(open_blocks(evs.drop_last()), binding_state(evs.drop_last()), evs.last())
    }
}

proof fn lemma_binding_state_step<'a>(evs: Seq<Event<'a>>, i: int)
    requires
        0 <= i < evs.len(),
    ensures
        binding_state(evs.take(i + 1)) == binding_step(open_blocks(evs.take(i)), binding_state(evs.take(i)), evs[i]),
{
    assert(evs.take(i + 1).drop_last() =~= evs.take(i));
}

/// Whether the `i`-th event is a reassignment statement of a function, inside a block, whose
/// target names no variable.
pub open spec fn unnamed_reassignment<'a>(evs: Seq<Event<'a>>, i: int) -> bool {
    match evs[i] {
        Event::Statement(c, s) => c.item_fn is Some && open_blocks(evs.take(i)).len() > 0 && match s.kind {
            StatementKind::Expr { expr, .. } => match expr.kind {
                ExprKind::Reassignment { assignable, .. } => assignable_idents(assignable).len() == 0,
                _ => false,
            },
            _ => false,
        },
        _ => false,
    }
}

/// Every reassignment statement of a function names the variable it assigns to.
pub open spec fn reassignments_named<'a>(evs: Seq<Event<'a>>) -> bool {
    forall|i: int| 0 <= i < evs.len() ==> !#[trigger] unnamed_reassignment(evs, i)
}

/// The name of a function as the messages write it: `Type::name` inside an `impl` block.
pub open spec fn fn_display_name(c: Ctx, f: &ItemFn) -> Seq<char> {
    match c.item_impl {
        Some(im) => im.ty.span.text@ + "::"@ + name(f.fn_signature.name),
        None => name(f.fn_signature.name),
    }
}

/// What one binding gives when its block ends: a value never written back that was shadowed or
/// modified, or one whose variable changed after the write-back.
pub open spec fn binding_finding(i: int, fname: Seq<char>, x: Binding) -> Seq<FindingView> {
    let head = "The `"@ + fname + "` function has storage bound to local variable `"@ + name(x.3);
    if !x.6 {
        match x.5 {
            Some(sh) => seq![(i, x.3.span.start as int, Severity::High, head + "` which is shadowed"@,
                Some((sh.span.start as int, " at "@, false, " before being written back to `storage."@ + name(x.2) + "`."@)))],
            None => if x.7 {
                finding(i, x.3.span.start as int, Severity::High,
                    head + "` which is not written back to `storage."@ + name(x.2) + "`."@)
            } else {
                Seq::empty()
            },
        }
    } else {
        match x.4 {
            Some(pw) => finding(i, pw.span.start as int, Severity::High,
                head + "` which is updated after writing back to `storage."@ + name(x.2) + "` without writing updated value."@),
            None => Seq::empty(),
        }
    }
}

/// What the bindings of a block give when it ends, in the order they were made.
pub open spec fn block_findings(i: int, fname: Seq<char>, bs: Seq<Binding>, key: (int, int), blk: (int, int)) -> Seq<FindingView>
    decreases bs.len(),
{
    if bs.len() == 0 {
        Seq::empty()
    } else {
        block_findings(i, fname, bs.drop_last(), key, blk) + if bs.last().0 == key && bs.last().1 == blk {
            binding_finding(i, fname, bs.last())
        } else {
            Seq::empty()
        }
    }
}

/// What the detector reports at one event, given the events before it: at the end of a block of
/// a function marked `#[storage(write)]`, its bindings that went wrong.
pub open spec fn storage_not_updated_at<'a>(evs: Seq<Event<'a>>, i: int, ev: Event<'a>) -> Seq<FindingView> {
    match ev {
        Event::LeaveBlock(c, b) => match (c.item_fn, c.fn_attributes) {
            (Some(f), Some(attrs)) => if has_attribute(attrs@, "storage"@, seq!["write"@]) {
                block_findings(i, fn_display_name(c, f), binding_state(evs.take(i)), fn_key(f), block_key(b))
            } else {
                Seq::empty()
            },
            _ => Seq::empty(),
        },
        _ => Seq::empty(),
    }
}

struct BindingRec<'a> {
    key: (usize, usize),
    block: (usize, usize),
    storage: &'a Ident,
    var: &'a Ident,
    post_write: Option<&'a Ident>,
    shadow: Option<&'a Ident>,
    written: bool,
    modified: bool,
}

spec fn opt_ident(o: Option<&Ident>) -> Option<Ident> {
    match o {
        Some(i) => Some(*i),
        None => None,
    }
}

spec fn rec_view<'a>(r: BindingRec<'a>) -> Binding {
    ((r.key.0 as int, r.key.1 as int), (r.block.0 as int, r.block.1 as int), *r.storage, *r.var, opt_ident(r.post_write),
        opt_ident(r.shadow), r.written, r.modified)
}

spec fn recs_view<'a>(v: Seq<BindingRec<'a>>) -> Seq<Binding> {
    v.map_values(|r: BindingRec<'a>| rec_view(r))
}

spec fn kv(k: (usize, usize)) -> (int, int) {
    (k.0 as int, k.1 as int)
}

fn find_last_var<'a>(bs: &Vec<BindingRec<'a>>, key: (usize, usize), blk: (usize, usize), nm: &str) -> (r: Option<usize>)
    ensures
        match r {
            Some(k) => is_last(recs_view(bs@), var_match(kv(key), kv(blk), nm@), k as int),
            None => forall|k: int| 0 <= k < bs@.len() ==> !var_match(kv(key), kv(blk), nm@)(#[trigger] recs_view(bs@)[k]),
        },
{
    let ghost p = var_match(kv(key), kv(blk), nm@);
    let ghost v = recs_view(bs@);
    let mut i: usize = bs.len();
    while i > 0
        invariant
            i <= bs@.len(),
            p == var_match(kv(key), kv(blk), nm@),
            v == recs_view(bs@),
            forall|l: int| i <= l < bs@.len() ==> !p(#[trigger] v[l]),
        decreases i,
    {
        let x = &bs[i - 1];
        if x.key.0 == key.0 && x.key.1 == key.1 && x.block.0 == blk.0 && x.block.1 == blk.1 && str_eq(x.var.span.text.as_str(), nm) {
            return Some(i - 1);
        }
        i = i - 1;
    }
    None
}

fn find_last_storage<'a>(bs: &Vec<BindingRec<'a>>, key: (usize, usize), blk: (usize, usize), nm: &str) -> (r: Option<usize>)
    ensures
        match r {
            Some(k) => is_last(recs_view(bs@), storage_match(kv(key), kv(blk), nm@), k as int),
            None => forall|k: int| 0 <= k < bs@.len() ==> !storage_match(kv(key), kv(blk), nm@)(#[trigger] recs_view(bs@)[k]),
        },
{
    let ghost p = storage_match(kv(key), kv(blk), nm@);
    let ghost v = recs_view(bs@);
    let mut i: usize = bs.len();
    while i > 0
        invariant
            i <= bs@.len(),
            p == storage_match(kv(key), kv(blk), nm@),
            v == recs_view(bs@),
            forall|l: int| i <= l < bs@.len() ==> !p(#[trigger] v[l]),
        decreases i,
    {
        let x = &bs[i - 1];
        if x.key.0 == key.0 && x.key.1 == key.1 && x.block.0 == blk.0 && x.block.1 == blk.1
            && str_eq(x.storage.span.text.as_str(), nm) {
            return Some(i - 1);
        }
        i = i - 1;
    }
    None
}

fn replace_rec<'a>(bs: &mut Vec<BindingRec<'a>>, k: usize, rec: BindingRec<'a>)
    requires
        k < old(bs)@.len(),
    ensures
        recs_view(final(bs)@) == recs_view(old(bs)@).update(k as int, rec_view(rec)),
{
    bs.remove(k);
    bs.insert(k, rec);
    proof {
        assert(recs_view(bs@) =~= recs_view(old(bs)@).update(k as int, rec_view(rec)));
    }
}

fn shadow_exec<'a>(bs: &mut Vec<BindingRec<'a>>, key: (usize, usize), blk: (usize, usize), v: &'a Ident)
    ensures
        recs_view(final(bs)@) == shadow(recs_view(old(bs)@), kv(key), kv(blk), *v),
{
    let ghost b0 = recs_view(bs@);
    let ghost p = var_match(kv(key), kv(blk), name(*v));
    match find_last_var(bs, key, blk, v.span.text.as_str()) {
        Some(k) => {
            proof {
                let c = choose|c: int| #[trigger] is_last(b0, p, c);
                lemma_last_unique(b0, p, c, k as int);
            }
            let x = &bs[k];
            let rec = BindingRec { key: x.key, block: x.block, storage: x.storage, var: x.var, post_write: x.post_write,
                shadow: Some(v), written: x.written, modified: x.modified };
            replace_rec(bs, k, rec);
        },
        None => {
            proof {
                assert(!exists|c: int| #[trigger] is_last(b0, p, c));
            }
        },
    }
}

fn block_has_var<'a>(bs: &Vec<BindingRec<'a>>, key: (usize, usize), blk: (usize, usize), nm: &str) -> (r: Option<usize>)
    ensures
        match r {
            Some(k) => is_last(recs_view(bs@), var_match(kv(key), kv(blk), nm@), k as int)
                && var_hit(recs_view(bs@), kv(key), nm@)(kv(blk)),
            None => !var_hit(recs_view(bs@), kv(key), nm@)(kv(blk)),
        },
{
    let r = find_last_var(bs, key, blk, nm);
    proof {
        let v = recs_view(bs@);
        match r {
            Some(k) => {
                assert(var_match(kv(key), kv(blk), nm@)(v[k as int]));
            },
            None => {},
        }
    }
    r
}

fn reassign_exec<'a>(bs: &mut Vec<BindingRec<'a>>, stack: &BlockStack, key: (usize, usize), v: &'a Ident)
    ensures
        recs_view(final(bs)@) == reassign(recs_view(old(bs)@), stack.view(), kv(key), *v),
{
    let ghost b0 = recs_view(bs@);
    let ghost open = stack.view();
    let ghost hit = var_hit(b0, kv(key), name(*v));
    let mut m: usize = stack.entries.len();
    while m > 0
        invariant
            m <= stack.entries@.len(),
            open == stack.view(),
            b0 == recs_view(bs@),
            b0 == recs_view(old(bs)@),
            hit == var_hit(b0, kv(key), name(*v)),
            forall|m2: int| m <= m2 < open.len() && (#[trigger] open[m2]).0 == Some(kv(key)) ==> !hit(open[m2].1),
        decreases m,
    {
        let e = stack.entries[m - 1];
        let same = match e.0 {
            Some(fk) => fk.0 == key.0 && fk.1 == key.1,
            None => false,
        };
        if same {
            match block_has_var(bs, key, e.1, v.span.text.as_str()) {
                Some(k) => {
                    proof {
                        assert(open[m - 1].1 == kv(e.1));
                        assert(is_innermost(open, kv(key), hit, m - 1));
                        let c = choose|c: int| #[trigger] is_innermost(open, kv(key), hit, c);
                        lemma_innermost_unique(open, kv(key), hit, c, m - 1);
                        let pk = var_match(kv(key), open[m - 1].1, name(*v));
                        let ck = choose|ck: int| #[trigger] is_last(b0, pk, ck);
                        lemma_last_unique(b0, pk, ck, k as int);
                    }
                    let x = &bs[k];
                    let pw = if x.written { Some(v) } else { x.post_write };
                    let rec = BindingRec { key: x.key, block: x.block, storage: x.storage, var: x.var, post_write: pw,
                        shadow: x.shadow, written: x.written, modified: true };
                    replace_rec(bs, k, rec);
                    return;
                },
                None => {
                    proof {
                        assert(open[m - 1].1 == kv(e.1));
                    }
                },
            }
        }
        m = m - 1;
    }
    proof {
        assert(!exists|c: int| #[trigger] is_innermost(open, kv(key), hit, c));
    }
}

fn block_write_hit<'a>(bs: &Vec<BindingRec<'a>>, key: (usize, usize), blk: (usize, usize), st: &str, v: &str) -> (r: Option<usize>)
    ensures
        match r {
            Some(k) => is_last(recs_view(bs@), storage_match(kv(key), kv(blk), st@), k as int)
                && write_hit(recs_view(bs@), kv(key), st@, v@)(kv(blk)),
            None => !write_hit(recs_view(bs@), kv(key), st@, v@)(kv(blk)),
        },
{
    let ghost b = recs_view(bs@);
    let ghost p = storage_match(kv(key), kv(blk), st@);
    match find_last_storage(bs, key, blk, st) {
        Some(k) => {
            if str_eq(bs[k].var.span.text.as_str(), v) {
                Some(k)
            } else {
                proof {
                    assert forall|c: int| #[trigger] is_last(b, p, c) implies name(b[c].3) != v@ by {
                        lemma_last_unique(b, p, c, k as int);
                    }
                }
                None
            }
        },
        None => None,
    }
}

fn write_back_exec<'a>(bs: &mut Vec<BindingRec<'a>>, stack: &BlockStack, key: (usize, usize), st: &'a Ident, v: &'a Ident)
    ensures
        recs_view(final(bs)@) == write_back(recs_view(old(bs)@), stack.view(), kv(key), *st, *v),
{
    let ghost b0 = recs_view(bs@);
    let ghost open = stack.view();
    let ghost hit = write_hit(b0, kv(key), name(*st), name(*v));
    let mut m: usize = stack.entries.len();
    while m > 0
        invariant
            m <= stack.entries@.len(),
            open == stack.view(),
            b0 == recs_view(bs@),
            b0 == recs_view(old(bs)@),
            hit == write_hit(b0, kv(key), name(*st), name(*v)),
            forall|m2: int| m <= m2 < open.len() && (#[trigger] open[m2]).0 == Some(kv(key)) ==> !hit(open[m2].1),
        decreases m,
    {
        let e = stack.entries[m - 1];
        let same = match e.0 {
            Some(fk) => fk.0 == key.0 && fk.1 == key.1,
            None => false,
        };
        if same {
            match block_write_hit(bs, key, e.1, st.span.text.as_str(), v.span.text.as_str()) {
                Some(k) => {
                    proof {
                        assert(open[m - 1].1 == kv(e.1));
                        assert(is_innermost(open, kv(key), hit, m - 1));
                        let c = choose|c: int| #[trigger] is_innermost(open, kv(key), hit, c);
                        lemma_innermost_unique(open, kv(key), hit, c, m - 1);
                        let pk = storage_match(kv(key), open[m - 1].1, name(*st));
                        let ck = choose|ck: int| #[trigger] is_last(b0, pk, ck);
                        lemma_last_unique(b0, pk, ck, k as int);
                    }
                    let x = &bs[k];
                    let rec = BindingRec { key: x.key, block: x.block, storage: x.storage, var: x.var, post_write: x.post_write,
                        shadow: x.shadow, written: true, modified: x.modified };
                    replace_rec(bs, k, rec);
                    return;
                },
                None => {
                    proof {
                        assert(open[m - 1].1 == kv(e.1));
                    }
                },
            }
        }
        m = m - 1;
    }
    proof {
        assert(!exists|c: int| #[trigger] is_innermost(open, kv(key), hit, c));
    }
}

fn step_exec<'a>(bs: &mut Vec<BindingRec<'a>>, stack: &BlockStack, ev: &Event<'a>)
    requires
        match *ev {
            Event::Statement(c, s) => c.item_fn is Some && stack.view().len() > 0 ==> match s.kind {
                StatementKind::Expr { expr, .. } => match expr.kind {
                    ExprKind::Reassignment { assignable, .. } => assignable_idents(assignable).len() > 0,
                    _ => true,
                },
                _ => true,
            },
            _ => true,
        },
    ensures
        recs_view(final(bs)@) == binding_step(stack.view(), recs_view(old(bs)@), *ev),
{
    match ev {
        Event::Statement(c, s) => {
            match c.item_fn {
                Some(func) => if stack.entries.len() > 0 {
                    let key = fn_key_of(func);
                    let blk = stack.entries[stack.entries.len() - 1].1;
                    match statement_to_variable_binding_ident(s) {
                        Some(v) => shadow_exec(bs, key, blk, v),
                        None => {},
                    }
                    match statement_to_storage_read_binding_idents(s) {
                        Some((st, v)) => {
                            let ghost b1 = recs_view(bs@);
                            bs.push(BindingRec { key, block: blk, storage: st, var: v, post_write: None, shadow: None, written: false,
                                modified: false });
                            proof {
                                assert(recs_view(bs@) =~= b1.push((kv(key), kv(blk), *st, *v, None, None, false, false)));
                            }
                        },
                        None => match statement_to_reassignment_idents(s) {
                            Some(ids) => {
                                proof {
                                    assert(derefs(ids@).len() == ids@.len());
                                }
                                let v = ids[0];
                                proof {
                                    assert(derefs(ids@)[0] == *v);
                                }
                                reassign_exec(bs, stack, key, v);
                            },
                            None => match statement_to_storage_write_idents(s) {
                                Some((st, v)) => write_back_exec(bs, stack, key, st, v),
                                None => {},
                            },
                        },
                    }
                },
                None => {},
            }
        },
        _ => {},
    }
}

fn push_fn_name(out: &mut String, c: &Ctx, f: &ItemFn)
    ensures
        final(out)@ == old(out)@ + fn_display_name(*c, f),
{
    let ghost start = out@;
    match c.item_impl {
        Some(im) => {
            push_str(out, im.ty.span.text.as_str());
            push_str(out, "::");
        },
        None => {},
    }
    push_str(out, f.fn_signature.name.span.text.as_str());
    proof {
        assert(out@ =~= start + fn_display_name(*c, f));
    }
}

fn binding_finding_exec<'a>(i: usize, c: &Ctx, f: &ItemFn, x: &BindingRec<'a>, out: &mut Vec<Finding>)
    ensures
        findings_view(final(out)@) == findings_view(old(out)@) + binding_finding(i as int, fn_display_name(*c, f), rec_view(*x)),
{
    let ghost before = findings_view(out@);
    let ghost fname = fn_display_name(*c, f);
    let mut head = String::new();
    push_str(&mut head, "The `");
    push_fn_name(&mut head, c, f);
    push_str(&mut head, "` function has storage bound to local variable `");
    push_str(&mut head, x.var.span.text.as_str());
    proof {
        assert(head@ =~= "The `"@ + fname + "` function has storage bound to local variable `"@ + name(*x.var));
    }
    if !x.written {
        match x.shadow {
            Some(sh) => {
                let mut text = head;
                push_str(&mut text, "` which is shadowed");
                let mut tail = String::new();
                push_str(&mut tail, " before being written back to `storage.");
                push_str(&mut tail, x.storage.span.text.as_str());
                push_str(&mut tail, "`.");
                let reference = Reference { offset: sh.span.start, lead: copy_string(" at "), required: false, tail };
                out.push(Finding { event: i, start: x.var.span.start, severity: Severity::High, text, reference: Some(reference) });
            },
            None => if x.modified {
                let mut text = head;
                push_str(&mut text, "` which is not written back to `storage.");
                push_str(&mut text, x.storage.span.text.as_str());
                push_str(&mut text, "`.");
                out.push(Finding { event: i, start: x.var.span.start, severity: Severity::High, text, reference: None });
            },
        }
    } else {
        match x.post_write {
            Some(pw) => {
                let mut text = head;
                push_str(&mut text, "` which is updated after writing back to `storage.");
                push_str(&mut text, x.storage.span.text.as_str());
                push_str(&mut text, "` without writing updated value.");
                out.push(Finding { event: i, start: pw.span.start, severity: Severity::High, text, reference: None });
            },
            None => {},
        }
    }
    proof {
        assert(findings_view(out@) =~= before + binding_finding(i as int, fname, rec_view(*x)));
    }
}

/// The detector of this module; `detect` runs it over the events of a module.
pub struct StorageNotUpdatedVisitor;

impl StorageNotUpdatedVisitor {
    /// Reports the storage values that are not written back properly among the events of a module,
    /// each reassignment statement of a function naming the variable it assigns to.
    pub fn detect<'a>(&self, events: &Vec<Event<'a>>) -> (r: Vec<Finding>)
        requires
            reassignments_named(events@),
        ensures
            findings_view(r@) == gather(events@, |i: int, ev: Event<'a>| storage_not_updated_at(events@, i, ev)),
    {
        let ghost f = |i: int, ev: Event<'a>| storage_not_updated_at(events@, i, ev);
        let mut r: Vec<Finding> = Vec::new();
        let mut bs: Vec<BindingRec<'a>> = Vec::new();
        let mut stack = BlockStack::new();
        let mut write: Vec<&str> = Vec::new();
        write.push("write");
        proof {
            reveal_strlit("write");
            assert(names_view(write@) =~= seq!["write"@]);
        }
        let mut i: usize = 0;
        while i < events.len()
            invariant
                i <= events@.len(),
                reassignments_named(events@),
                names_view(write@) == seq!["write"@],
                f == (|i: int, ev: Event<'a>| storage_not_updated_at(events@, i, ev)),
                findings_view(r@) == gather(events@.take(i as int), f),
                recs_view(bs@) == binding_state(events@.take(i as int)),
                stack.view() == open_blocks(events@.take(i as int)),
            decreases events@.len() - i,
        {
            proof {
                lemma_gather_step(events@, f, i as int);
                lemma_open_blocks_step(events@, i as int);
                lemma_binding_state_step(events@, i as int);
                assert(!unnamed_reassignment(events@, i as int));
            }
            let ghost before = findings_view(r@);
            let ev = &events[i];
            match ev {
                Event::LeaveBlock(c, b) => {
                    match (c.item_fn, c.fn_attributes) {
                        (Some(func), Some(attrs)) => {
                            if check_attribute_decls(attrs, "storage", write.as_slice()) {
                                let key = fn_key_of(func);
                                let blk = (b.span.start, b.span.end);
                                let ghost fname = fn_display_name(*c, func);
                                let ghost bv = recs_view(bs@);
                                let mut k: usize = 0;
                                while k < bs.len()
                                    invariant
                                        k <= bs@.len(),
                                        bv == recs_view(bs@),
                                        fname == fn_display_name(*c, func),
                                        findings_view(r@) == before + block_findings(i as int, fname, bv.take(k as int), kv(key), kv(blk)),
                                    decreases bs@.len() - k,
                                {
                                    proof {
                                        assert(bv.take(k as int + 1).drop_last() =~= bv.take(k as int));
                                    }
                                    let x = &bs[k];
                                    if x.key.0 == key.0 && x.key.1 == key.1 && x.block.0 == blk.0 && x.block.1 == blk.1 {
                                        binding_finding_exec(i, c, func, x, &mut r);
                                    }
                                    proof {
                                        assert(findings_view(r@) =~= before + block_findings(i as int, fname, bv.take(k as int + 1), kv(key), kv(blk)));
                                    }
                                    k = k + 1;
                                }
                                proof {
                                    assert(bv.take(k as int) =~= bv);
                                }
                            }
                        },
                        _ => {},
                    }
                },
                _ => {},
            }
            proof {
                assert(findings_view(r@) =~= before + f(i as int, events@[i as int]));
            }
            step_exec(&mut bs, &stack, ev);
            stack.step(ev);
            i = i + 1;
        }
        proof {
            assert(events@.take(i as int) =~= events@);
        }
        r
    }
}

} // verus!
