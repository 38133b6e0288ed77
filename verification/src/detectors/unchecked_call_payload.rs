//! Reports `CALL` instructions whose payload register holds a `raw_ptr` parameter, or a
//! `Bytes` parameter whose length was never checked.
use vstd::prelude::*;
use crate::ast::{AsmBlock, AsmRegister, BinaryOp, Expr, ExprKind, FnArg, Ident, IfCondition, PatternKind};
use crate::detectors::{ctx_location, context_location, finding, findings_view, FindingView, Finding, gather,
    lemma_gather_step, opt_seq, fn_key, fn_key_of, block_key, open_blocks, lemma_open_blocks_step, BlockStack, strings_contain,
    is_first, lemma_first_unique};
use crate::report::Severity;
use crate::text::{push_str, str_eq, copy_string, strings_view};
use crate::utils::{name, derefs, pattern_idents, fold_pattern_idents, has_revert, block_has_revert, use_tree_name,
    use_tree_to_name};
use crate::walk::Event;

verus! {

/// A parameter that may carry a call payload: its function's key, whether it is a `raw_ptr`
/// (else a `Bytes`), its name, its type as written, the position of its name, and whether its
/// length has been checked.
pub type PayloadArg = ((int, int), bool, Seq<char>, Seq<char>, (int, int), bool);

/// A variable declared in a block of a function: the function's key, the block's key, its name.
pub type PayloadVar = ((int, int), (int, int), Seq<char>);

/// A register of an `asm` block that holds a payload parameter: the function's key, the key of
/// the block the `asm` block stands in, the `asm` block's key, whether the parameter is a
/// `raw_ptr`, the register's name, and the parameter's name and position.
pub type PayloadReg = ((int, int), (int, int), (int, int), bool, Seq<char>, Seq<char>, (int, int));

/// What the detector knows after some events.
pub struct PayloadState {
    /// The names under which `std::bytes::Bytes` is known.
    pub names: Seq<Seq<char>>,
    /// The payload parameters of the functions met so far.
    pub args: Seq<PayloadArg>,
    /// The variables declared so far.
    pub vars: Seq<PayloadVar>,
    /// The registers known to hold a payload parameter.
    pub regs: Seq<PayloadReg>,
}

/// The full path of the byte buffer type.
pub open spec fn bytes_path() -> Seq<char> {
    "std::bytes::Bytes"@
}

/// The state before any event: `Bytes` is known by its full path only.
pub open spec fn payload_start() -> PayloadState {
    PayloadState { names: seq![bytes_path()], args: Seq::empty(), vars: Seq::empty(), regs: Seq::empty() }
}

/// The position of a name.
pub open spec fn ident_pos(i: Ident) -> (int, int) {
    (i.span.start as int, i.span.end as int)
}

/// The key of an `asm` block: its position.
pub open spec fn asm_key(a: &AsmBlock) -> (int, int) {
    (a.span.start as int, a.span.end as int)
}

/// The payload parameters of a function with the given key: each parameter named by a single
/// identifier whose type is written `raw_ptr` or as one of the names of `Bytes`.
pub open spec fn payload_params(key: (int, int), names: Seq<Seq<char>>, args: Seq<FnArg>) -> Seq<PayloadArg>
    decreases args.len(),
{
    if args.len() == 0 {
        Seq::empty()
    } else {
        payload_params(key, names, args.drop_last()) + match args.last().pattern.kind {
            PatternKind::AmbiguousSingleIdent(id) => {
                let t = args.last().ty.span.text@;
                if t == "raw_ptr"@ {
                    seq![(key, true, name(id), t, ident_pos(id), false)]
                } else if names.contains(t) {
                    seq![(key, false, name(id), t, ident_pos(id), false)]
                } else {
                    Seq::empty()
                }
            },
            _ => Seq::empty(),
        }
    }
}

/// The measured expression and the bound of a `require` or an `if ... revert` that keeps a
/// length at or above a bound: `require(x >= v)`, `require(v <= x)`, `if x < v { revert(..) }`,
/// `if v > x { revert(..) }`.
pub open spec fn length_operands(e: Expr) -> Option<(Expr, Expr)> {
    match e.kind {
        ExprKind::FuncApp { func, args, .. } => if func.span.text@ == "require"@ && args@.len() > 0 {
            match args@[0].kind {
                ExprKind::Binary { op, lhs, rhs } => if op == BinaryOp::GreaterThanEq {
                    Some((*lhs, *rhs))
                } else if op == BinaryOp::LessThanEq {
                    Some((*rhs, *lhs))
                } else {
                    None
                },
                _ => None,
            }
        } else {
            None
        },
        ExprKind::If(ifx) => if has_revert(ifx.then_block) {
            match ifx.condition {
                IfCondition::Expr(x) => match x.kind {
                    ExprKind::Binary { op, lhs, rhs } => if op == BinaryOp::LessThan {
                        Some((*lhs, *rhs))
                    } else if op == BinaryOp::GreaterThan {
                        Some((*rhs, *lhs))
                    } else {
                        None
                    },
                    _ => None,
                },
                _ => None,
            }
        } else {
            None
        },
        _ => None,
    }
}

/// A `Bytes` parameter of the function whose length `text` reads.
pub open spec fn len_match(key: (int, int), text: Seq<char>) -> spec_fn(PayloadArg) -> bool {
    |a: PayloadArg| a.0 == key && !a.1 && a.2 + ".len()"@ == text
}

/// A `raw_ptr` parameter of the function named `text`.
pub open spec fn raw_match(key: (int, int), text: Seq<char>) -> spec_fn(PayloadArg) -> bool {
    |a: PayloadArg| a.0 == key && a.1 && a.2 == text
}

/// A `Bytes` parameter of the function whose buffer pointer `text` reads.
pub open spec fn ptr_match(key: (int, int), text: Seq<char>) -> spec_fn(PayloadArg) -> bool {
    |a: PayloadArg| a.0 == key && !a.1 && a.2 + ".buf.ptr"@ == text
}

/// A `Bytes` parameter of the function whose name stands at `pos`.
pub open spec fn pos_match(key: (int, int), pos: (int, int)) -> spec_fn(PayloadArg) -> bool {
    |a: PayloadArg| a.0 == key && !a.1 && a.4 == pos
}

/// A register of the given `asm` block with the given name, holding a parameter of the given kind.
pub open spec fn reg_match(key: (int, int), b: (int, int), ak: (int, int), raw: bool, register: Seq<char>)
    -> spec_fn(PayloadReg) -> bool
{
    |r: PayloadReg| r.0 == key && r.1 == b && r.2 == ak && r.3 == raw && r.4 == register
}

/// The parameters after a length check of `text` in the function: the first `Bytes` parameter
/// whose length `text` reads is marked as checked.
pub open spec fn mark_checked(args: Seq<PayloadArg>, key: (int, int), text: Seq<char>) -> Seq<PayloadArg> {
    args.map(|j: int, a: PayloadArg| if is_first(args, len_match(key, text), j) { (a.0, a.1, a.2, a.3, a.4, true) } else { a })
}

/// Whether a variable of the given name is declared in an open block of the function.
pub open spec fn shadowed(vars: Seq<PayloadVar>, open: Seq<(Option<(int, int)>, (int, int))>, key: (int, int), nm: Seq<char>) -> bool {
    exists|m: int| 0 <= m < open.len() && (#[trigger] open[m]).0 == Some(key) && vars.contains((key, open[m].1, nm))
}

/// What one register of an `asm` block records: the first `raw_ptr` parameter that its value
/// names, else the first `Bytes` parameter whose buffer pointer its value reads, unless a
/// variable of an open block hides that parameter.
pub open spec fn register_entry(st: PayloadState, open: Seq<(Option<(int, int)>, (int, int))>, key: (int, int),
    b: (int, int), ak: (int, int), r: AsmRegister) -> Seq<PayloadReg>
{
    match r.value {
        Some(v) => {
            let t = v.span.text@;
            if exists|k: int| #[trigger] is_first(st.args, raw_match(key, t), k) {
                let k = choose|k: int| #[trigger] is_first(st.args, raw_match(key, t), k);
                if shadowed(st.vars, open, key, st.args[k].2) {
                    Seq::empty()
                } else {
                    seq![(key, b, ak, true, name(r.register), st.args[k].2, st.args[k].4)]
                }
            } else if exists|k: int| #[trigger] is_first(st.args, ptr_match(key, t), k) {
                let k = choose|k: int| #[trigger] is_first(st.args, ptr_match(key, t), k);
                if shadowed(st.vars, open, key, st.args[k].2) {
                    Seq::empty()
                } else {
                    seq![(key, b, ak, false, name(r.register), st.args[k].2, st.args[k].4)]
                }
            } else {
                Seq::empty()
            }
        },
        None => Seq::empty(),
    }
}

/// What the registers of an `asm` block record, in order.
pub open spec fn register_entries(st: PayloadState, open: Seq<(Option<(int, int)>, (int, int))>, key: (int, int),
    b: (int, int), ak: (int, int), regs: Seq<AsmRegister>) -> Seq<PayloadReg>
    decreases regs.len(),
{
    if regs.len() == 0 {
        Seq::empty()
    } else {
        register_entries(st, open, key, b, ak, regs.drop_last()) + register_entry(st, open, key, b, ak, regs.last())
    }
}

/// The state after one more event, the blocks `open` being open before it.
pub open spec fn payload_step<'a>(open: Seq<(Option<(int, int)>, (int, int))>, st: PayloadState, ev: Event<'a>) -> PayloadState {
    match ev {
        Event::Use(_, u) => PayloadState { names: st.names + opt_seq(use_tree_name(u.tree, bytes_path())), ..st },
        Event::Fn(_, f) => PayloadState { args: st.args + payload_params(fn_key(f), st.names, f.fn_signature.args@), ..st },
        Event::StatementLet(c, l) => match c.item_fn {
            Some(f) => if open.len() > 0 {
                PayloadState { vars: st.vars + pattern_idents(l.pattern).map_values(|x: Ident| (fn_key(f), open.last().1, name(x))), ..st }
            } else {
                st
            },
            None => st,
        },
        Event::If(c, _, ifx) => match (c.item_fn, ifx.condition) {
            (Some(f), IfCondition::Let { lhs, .. }) => PayloadState {
                vars: st.vars + pattern_idents(*lhs).map_values(|x: Ident| (fn_key(f), block_key(&ifx.then_block), name(x))),
                ..st
            },
            _ => st,
        },
        Event::Expr(c, e) => match (c.item_fn, length_operands(*e)) {
            (Some(f), Some((x, v))) => if v.span.text@ == "32"@ {
                PayloadState { args: mark_checked(st.args, fn_key(f), x.span.text@), ..st }
            } else {
                st
            },
            _ => st,
        },
        Event::AsmBlock(c, a) => match c.item_fn {
            Some(f) => if open.len() > 0 {
                PayloadState { regs: st.regs + register_entries(st, open, fn_key(f), open.last().1, asm_key(a), a.registers@), ..st }
            } else {
                st
            },
            None => st,
        },
        _ => st,
    }
}

/// The state after the given events.
pub open spec fn payload_state<'a>(evs: Seq<Event<'a>>) -> PayloadState
    decreases evs.len(),
{
    if evs.len() == 0 {
        payload_start()
    } else {
        payload_step(open_blocks(evs.drop_last()), payload_state(evs.drop_last()), evs.last())
    }
}

proof fn lemma_payload_state_step<'a>(evs: Seq<Event<'a>>, i: int)
    requires
        0 <= i < evs.len(),
    ensures
        payload_state(evs.take(i + 1)) == payload_step(open_blocks(evs.take(i)), payload_state(evs.take(i)), evs[i]),
{
    assert(evs.take(i + 1).drop_last() =~= evs.take(i));
}

/// The message for a `raw_ptr` parameter used as a payload.
pub open spec fn raw_payload_text(loc: Seq<char>, arg: Seq<char>, register: Seq<char>, call: Seq<char>) -> Seq<char> {
    loc + " uses the `"@ + arg + ": raw_ptr` parameter as the payload in a `CALL` instruction via register `"@ + register
        + "`, which may revert if the data is incorrect: `"@ + call + "`"@
}

/// The message for a `Bytes` parameter used as a payload without a length check.
pub open spec fn bytes_payload_text(loc: Seq<char>, arg: Seq<char>, ty: Seq<char>, register: Seq<char>, call: Seq<char>) -> Seq<char> {
    loc + " uses the `"@ + arg + ": "@ + ty + "` parameter as the payload in a `CALL` instruction via register `"@ + register
        + "` without checking its length, which may revert if the data is incorrect: `"@ + call + "`"@
}

/// What the detector reports at one event, given the events before it: a `call` instruction
/// whose first register holds a `raw_ptr` parameter, or a `Bytes` parameter whose length was
/// not checked to be at least 32.
pub open spec fn unchecked_call_payload_at<'a>(evs: Seq<Event<'a>>, i: int, ev: Event<'a>) -> Seq<FindingView> {
    let st = payload_state(evs.take(i));
    let open = open_blocks(evs.take(i));
    match ev {
        Event::AsmInstruction(c, a, ins) => match c.item_fn {
            Some(f) => if open.len() > 0 && ins.op_code.span.text@ == "call"@ && ins.args@.len() > 0 {
                let r0 = name(ins.args@[0]);
                let key = fn_key(f);
                let b = open.last().1;
                let ak = asm_key(a);
                if exists|k: int| #[trigger] is_first(st.regs, reg_match(key, b, ak, true, r0), k) {
                    let k = choose|k: int| #[trigger] is_first(st.regs, reg_match(key, b, ak, true, r0), k);
                    finding(i, ins.span.start as int, Severity::Low,
                        raw_payload_text(ctx_location(c), st.regs[k].5, r0, ins.span.text@))
                } else if exists|k: int| #[trigger] is_first(st.regs, reg_match(key, b, ak, false, r0), k) {
                    let k = choose|k: int| #[trigger] is_first(st.regs, reg_match(key, b, ak, false, r0), k);
                    let pos = st.regs[k].6;
                    if exists|m: int| #[trigger] is_first(st.args, pos_match(key, pos), m) {
                        let m = choose|m: int| #[trigger] is_first(st.args, pos_match(key, pos), m);
                        if st.args[m].5 {
                            Seq::empty()
                        } else {
                            finding(i, ins.span.start as int, Severity::Low,
                                bytes_payload_text(ctx_location(c), st.args[m].2, st.args[m].3, r0, ins.span.text@))
                        }
                    } else {
                        Seq::empty()
                    }
                } else {
                    Seq::empty()
                }
            } else {
                Seq::empty()
            },
            None => Seq::empty(),
        },
        _ => Seq::empty(),
    }
}

struct ArgRecord {
    key: (usize, usize),
    raw: bool,
    name: String,
    ty: String,
    pos: (usize, usize),
    checked: bool,
}

spec fn arg_view(a: ArgRecord) -> PayloadArg {
    ((a.key.0 as int, a.key.1 as int), a.raw, a.name@, a.ty@, (a.pos.0 as int, a.pos.1 as int), a.checked)
}

spec fn args_view(v: Seq<ArgRecord>) -> Seq<PayloadArg> {
    v.map_values(|a: ArgRecord| arg_view(a))
}

struct RegRecord {
    key: (usize, usize),
    block: (usize, usize),
    block_asm: (usize, usize),
    raw: bool,
    register: String,
    arg: String,
    pos: (usize, usize),
}

spec fn reg_view(r: RegRecord) -> PayloadReg {
    ((r.key.0 as int, r.key.1 as int), (r.block.0 as int, r.block.1 as int), (r.block_asm.0 as int, r.block_asm.1 as int), r.raw,
        r.register@, r.arg@, (r.pos.0 as int, r.pos.1 as int))
}

spec fn regs_view(v: Seq<RegRecord>) -> Seq<PayloadReg> {
    v.map_values(|r: RegRecord| reg_view(r))
}

spec fn vars_view(v: Seq<((usize, usize), (usize, usize), String)>) -> Seq<PayloadVar> {
    v.map_values(|x: ((usize, usize), (usize, usize), String)| ((x.0.0 as int, x.0.1 as int), (x.1.0 as int, x.1.1 as int), x.2@))
}

struct Tracker {
    names: Vec<String>,
    args: Vec<ArgRecord>,
    vars: Vec<((usize, usize), (usize, usize), String)>,
    regs: Vec<RegRecord>,
}

impl Tracker {
    spec fn view(&self) -> PayloadState {
        PayloadState { names: strings_view(self.names@), args: args_view(self.args@), vars: vars_view(self.vars@), regs: regs_view(self.regs@) }
    }
}

spec fn key_view(k: (usize, usize)) -> (int, int) {
    (k.0 as int, k.1 as int)
}

fn payload_params_exec(key: (usize, usize), names: &Vec<String>, args: &Vec<FnArg>) -> (r: Vec<ArgRecord>)
    ensures
        args_view(r@) == payload_params(key_view(key), strings_view(names@), args@),
{
    let ghost kk = key_view(key);
    let ghost nv = strings_view(names@);
    let mut r: Vec<ArgRecord> = Vec::new();
    let mut i: usize = 0;
    while i < args.len()
        invariant
            i <= args@.len(),
            kk == key_view(key),
            nv == strings_view(names@),
            args_view(r@) == payload_params(kk, nv, args@.subrange(0, i as int)),
        decreases args@.len() - i,
    {
        proof {
            assert(args@.subrange(0, i as int + 1).drop_last() =~= args@.subrange(0, i as int));
        }
        let ghost before = args_view(r@);
        let arg = &args[i];
        match &arg.pattern.kind {
            PatternKind::AmbiguousSingleIdent(id) => {
                let t = arg.ty.span.text.as_str();
                if str_eq(t, "raw_ptr") {
                    r.push(ArgRecord { key, raw: true, name: copy_string(id.span.text.as_str()), ty: copy_string(t),
                        pos: (id.span.start, id.span.end), checked: false });
                } else {
                    if strings_contain(names, t) {
                        r.push(ArgRecord { key, raw: false, name: copy_string(id.span.text.as_str()), ty: copy_string(t),
                            pos: (id.span.start, id.span.end), checked: false });
                    }
                }
            },
            _ => {},
        }
        proof {
            assert(args_view(r@) =~= before + (match args@[i as int].pattern.kind {
                PatternKind::AmbiguousSingleIdent(id) => {
                    let t = args@[i as int].ty.span.text@;
                    if t == "raw_ptr"@ {
                        seq![(kk, true, name(id), t, ident_pos(id), false)]
                    } else if nv.contains(t) {
                        seq![(kk, false, name(id), t, ident_pos(id), false)]
                    } else {
                        Seq::empty()
                    }
                },
                _ => Seq::empty(),
            }));
        }
        i = i + 1;
    }
    proof {
        assert(args@.subrange(0, i as int) =~= args@);
    }
    r
}

fn length_operands_exec(e: &Expr) -> (r: Option<(&Expr, &Expr)>)
    ensures
        match length_operands(*e) {
            Some((x, v)) => r matches Some((rx, rv)) && *rx == x && *rv == v,
            None => r is None,
        },
{
    match &e.kind {
        ExprKind::FuncApp { func, args, .. } => {
            if str_eq(func.span.text.as_str(), "require") && args.len() > 0 {
                match &args[0].kind {
                    ExprKind::Binary { op, lhs, rhs } => {
                        if *op == BinaryOp::GreaterThanEq {
                            Some((&**lhs, &**rhs))
                        } else if *op == BinaryOp::LessThanEq {
                            Some((&**rhs, &**lhs))
                        } else {
                            None
                        }
                    },
                    _ => None,
                }
            } else {
                None
            }
        },
        ExprKind::If(ifx) => {
            if block_has_revert(&ifx.then_block) {
                match &ifx.condition {
                    IfCondition::Expr(x) => match &x.kind {
                        ExprKind::Binary { op, lhs, rhs } => {
                            if *op == BinaryOp::LessThan {
                                Some((&**lhs, &**rhs))
                            } else if *op == BinaryOp::GreaterThan {
                                Some((&**rhs, &**lhs))
                            } else {
                                None
                            }
                        },
                        _ => None,
                    },
                    _ => None,
                }
            } else {
                None
            }
        },
        _ => None,
    }
}

/// Whether `text` is `s` followed by `tail`.
fn is_followed(s: &str, tail: &str, text: &str) -> (r: bool)
    ensures
        r == (s@ + tail@ == text@),
{
    let mut joined = copy_string(s);
    push_str(&mut joined, tail);
    str_eq(joined.as_str(), text)
}

fn find_len_arg(args: &Vec<ArgRecord>, key: (usize, usize), text: &str) -> (r: Option<usize>)
    ensures
        match r {
            Some(k) => is_first(args_view(args@), len_match(key_view(key), text@), k as int),
            None => forall|k: int| 0 <= k < args@.len() ==> !len_match(key_view(key), text@)(#[trigger] args_view(args@)[k]),
        },
{
    let ghost p = len_match(key_view(key), text@);
    let ghost av = args_view(args@);
    let mut i: usize = 0;
    while i < args.len()
        invariant
            i <= args@.len(),
            p == len_match(key_view(key), text@),
            av == args_view(args@),
            forall|l: int| 0 <= l < i ==> !p(#[trigger] av[l]),
        decreases args@.len() - i,
    {
        let a = &args[i];
        if a.key.0 == key.0 && a.key.1 == key.1 && !a.raw && is_followed(a.name.as_str(), ".len()", text) {
            return Some(i);
        }
        i = i + 1;
    }
    None
}

fn find_raw_arg(args: &Vec<ArgRecord>, key: (usize, usize), text: &str) -> (r: Option<usize>)
    ensures
        match r {
            Some(k) => is_first(args_view(args@), raw_match(key_view(key), text@), k as int),
            None => forall|k: int| 0 <= k < args@.len() ==> !raw_match(key_view(key), text@)(#[trigger] args_view(args@)[k]),
        },
{
    let ghost p = raw_match(key_view(key), text@);
    let ghost av = args_view(args@);
    let mut i: usize = 0;
    while i < args.len()
        invariant
            i <= args@.len(),
            p == raw_match(key_view(key), text@),
            av == args_view(args@),
            forall|l: int| 0 <= l < i ==> !p(#[trigger] av[l]),
        decreases args@.len() - i,
    {
        let a = &args[i];
        if a.key.0 == key.0 && a.key.1 == key.1 && a.raw && str_eq(a.name.as_str(), text) {
            return Some(i);
        }
        i = i + 1;
    }
    None
}

fn find_ptr_arg(args: &Vec<ArgRecord>, key: (usize, usize), text: &str) -> (r: Option<usize>)
    ensures
        match r {
            Some(k) => is_first(args_view(args@), ptr_match(key_view(key), text@), k as int),
            None => forall|k: int| 0 <= k < args@.len() ==> !ptr_match(key_view(key), text@)(#[trigger] args_view(args@)[k]),
        },
{
    let ghost p = ptr_match(key_view(key), text@);
    let ghost av = args_view(args@);
    let mut i: usize = 0;
    while i < args.len()
        invariant
            i <= args@.len(),
            p == ptr_match(key_view(key), text@),
            av == args_view(args@),
            forall|l: int| 0 <= l < i ==> !p(#[trigger] av[l]),
        decreases args@.len() - i,
    {
        let a = &args[i];
        if a.key.0 == key.0 && a.key.1 == key.1 && !a.raw && is_followed(a.name.as_str(), ".buf.ptr", text) {
            return Some(i);
        }
        i = i + 1;
    }
    None
}

fn find_pos_arg(args: &Vec<ArgRecord>, key: (usize, usize), pos: (usize, usize)) -> (r: Option<usize>)
    ensures
        match r {
            Some(k) => is_first(args_view(args@), pos_match(key_view(key), key_view(pos)), k as int),
            None => forall|k: int| 0 <= k < args@.len() ==> !pos_match(key_view(key), key_view(pos))(#[trigger] args_view(args@)[k]),
        },
{
    let ghost p = pos_match(key_view(key), key_view(pos));
    let ghost av = args_view(args@);
    let mut i: usize = 0;
    while i < args.len()
        invariant
            i <= args@.len(),
            p == pos_match(key_view(key), key_view(pos)),
            av == args_view(args@),
            forall|l: int| 0 <= l < i ==> !p(#[trigger] av[l]),
        decreases args@.len() - i,
    {
        let a = &args[i];
        if a.key.0 == key.0 && a.key.1 == key.1 && !a.raw && a.pos.0 == pos.0 && a.pos.1 == pos.1 {
            return Some(i);
        }
        i = i + 1;
    }
    None
}

fn find_reg(regs: &Vec<RegRecord>, key: (usize, usize), b: (usize, usize), ak: (usize, usize), raw: bool, register: &str)
    -> (r: Option<usize>)
    ensures
        match r {
            Some(k) => is_first(regs_view(regs@), reg_match(key_view(key), key_view(b), key_view(ak), raw, register@), k as int),
            None => forall|k: int| 0 <= k < regs@.len()
                ==> !reg_match(key_view(key), key_view(b), key_view(ak), raw, register@)(#[trigger] regs_view(regs@)[k]),
        },
{
    let ghost p = reg_match(key_view(key), key_view(b), key_view(ak), raw, register@);
    let ghost rv = regs_view(regs@);
    let mut i: usize = 0;
    while i < regs.len()
        invariant
            i <= regs@.len(),
            p == reg_match(key_view(key), key_view(b), key_view(ak), raw, register@),
            rv == regs_view(regs@),
            forall|l: int| 0 <= l < i ==> !p(#[trigger] rv[l]),
        decreases regs@.len() - i,
    {
        let x = &regs[i];
        if x.key.0 == key.0 && x.key.1 == key.1 && x.block.0 == b.0 && x.block.1 == b.1 && x.block_asm.0 == ak.0
            && x.block_asm.1 == ak.1 && x.raw == raw && str_eq(x.register.as_str(), register) {
            return Some(i);
        }
        i = i + 1;
    }
    None
}

fn var_declared(vars: &Vec<((usize, usize), (usize, usize), String)>, key: (usize, usize), b: (usize, usize), nm: &str) -> (r: bool)
    ensures
        r == vars_view(vars@).contains((key_view(key), key_view(b), nm@)),
{
    let ghost vv = vars_view(vars@);
    let mut i: usize = 0;
    while i < vars.len()
        invariant
            i <= vars@.len(),
            vv == vars_view(vars@),
            forall|l: int| 0 <= l < i ==> #[trigger] vv[l] != (key_view(key), key_view(b), nm@),
        decreases vars@.len() - i,
    {
        let x = &vars[i];
        if x.0.0 == key.0 && x.0.1 == key.1 && x.1.0 == b.0 && x.1.1 == b.1 && str_eq(x.2.as_str(), nm) {
            proof {
                assert(vv[i as int] == (key_view(key), key_view(b), nm@));
            }
            return true;
        }
        i = i + 1;
    }
    false
}

fn is_shadowed(vars: &Vec<((usize, usize), (usize, usize), String)>, stack: &BlockStack, key: (usize, usize), nm: &str) -> (r: bool)
    ensures
        r == shadowed(vars_view(vars@), stack.view(), key_view(key), nm@),
{
    let ghost open = stack.view();
    let ghost vv = vars_view(vars@);
    let mut m: usize = 0;
    while m < stack.entries.len()
        invariant
            m <= stack.entries@.len(),
            open == stack.view(),
            vv == vars_view(vars@),
            forall|j: int| 0 <= j < m ==> !((#[trigger] open[j]).0 == Some(key_view(key)) && vv.contains((key_view(key), open[j].1, nm@))),
        decreases stack.entries@.len() - m,
    {
        let e = stack.entries[m];
        let same = match e.0 {
            Some(fk) => fk.0 == key.0 && fk.1 == key.1,
            None => false,
        };
        if same && var_declared(vars, key, e.1, nm) {
            proof {
                assert(open[m as int].0 == Some(key_view(key)) && vv.contains((key_view(key), open[m as int].1, nm@)));
            }
            return true;
        }
        m = m + 1;
    }
    false
}

impl Tracker {
    fn new() -> (r: Tracker)
        ensures
            r.view() == payload_start(),
    {
        let mut names: Vec<String> = Vec::new();
        names.push(copy_string("std::bytes::Bytes"));
        let r = Tracker { names, args: Vec::new(), vars: Vec::new(), regs: Vec::new() };
        proof {
            assert(r.view().names =~= seq![bytes_path()]);
            assert(r.view().args =~= Seq::<PayloadArg>::empty());
            assert(r.view().vars =~= Seq::<PayloadVar>::empty());
            assert(r.view().regs =~= Seq::<PayloadReg>::empty());
        }
        r
    }

    fn push_vars(&mut self, key: (usize, usize), b: (usize, usize), ids: Vec<&Ident>)
        ensures
            final(self).view() == (PayloadState {
                vars: old(self).view().vars + derefs(ids@).map_values(|x: Ident| (key_view(key), key_view(b), name(x))),
                ..old(self).view()
            }),
    {
        let ghost start = vars_view(self.vars@);
        let mut k: usize = 0;
        while k < ids.len()
            invariant
                k <= ids@.len(),
                self.names@ == old(self).names@,
                self.args@ == old(self).args@,
                self.regs@ == old(self).regs@,
                start == vars_view(old(self).vars@),
                vars_view(self.vars@) == start + derefs(ids@).take(k as int).map_values(|x: Ident| (key_view(key), key_view(b), name(x))),
            decreases ids@.len() - k,
        {
            let ghost vb = vars_view(self.vars@);
            self.vars.push((key, b, copy_string(ids[k].span.text.as_str())));
            proof {
                assert(vars_view(self.vars@) =~= vb.push((key_view(key), key_view(b), ids@[k as int].span.text@)));
                assert(derefs(ids@).take(k + 1) =~= derefs(ids@).take(k as int).push(*ids@[k as int]));
                assert(vars_view(self.vars@) =~= start + derefs(ids@).take(k + 1).map_values(|x: Ident| (key_view(key), key_view(b), name(x))));
            }
            k = k + 1;
        }
        proof {
            assert(derefs(ids@).take(k as int) =~= derefs(ids@));
        }
    }

    fn mark(&mut self, key: (usize, usize), text: &str)
        ensures
            final(self).view() == (PayloadState { args: mark_checked(old(self).view().args, key_view(key), text@), ..old(self).view() }),
    {
        let ghost av = args_view(self.args@);
        let ghost p = len_match(key_view(key), text@);
        match find_len_arg(&self.args, key, text) {
            Some(k) => {
                let mut a = self.args.remove(k);
                a.checked = true;
                self.args.insert(k, a);
                proof {
                    let nv = args_view(self.args@);
                    let want = mark_checked(av, key_view(key), text@);
                    assert forall|j: int| 0 <= j < nv.len() implies #[trigger] nv[j] == want[j] by {
                        if j != k {
                            if is_first(av, p, j) {
                                lemma_first_unique(av, p, j, k as int);
                            }
                        }
                    }
                    assert(nv =~= want);
                }
            },
            None => {
                proof {
                    assert(args_view(self.args@) =~= mark_checked(av, key_view(key), text@));
                }
            },
        }
    }

    fn register(&mut self, stack: &BlockStack, key: (usize, usize), b: (usize, usize), ak: (usize, usize), r: &AsmRegister,
        Ghost(st): Ghost<PayloadState>)
        requires
            st.args == old(self).view().args,
            st.vars == old(self).view().vars,
        ensures
            final(self).view() == (PayloadState {
                regs: old(self).view().regs + register_entry(st, stack.view(), key_view(key), key_view(b), key_view(ak), *r),
                ..old(self).view()
            }),
    {
        let ghost before = regs_view(self.regs@);
        let ghost open = stack.view();
        let ghost kk = key_view(key);
        match &r.value {
            Some(v) => {
                let t = v.span.text.as_str();
                match find_raw_arg(&self.args, key, t) {
                    Some(k) => {
                        proof {
                            let c = choose|c: int| #[trigger] is_first(st.args, raw_match(kk, t@), c);
                            lemma_first_unique(st.args, raw_match(kk, t@), c, k as int);
                        }
                        if !is_shadowed(&self.vars, stack, key, self.args[k].name.as_str()) {
                            let rec = RegRecord { key, block: b, block_asm: ak, raw: true, register: copy_string(r.register.span.text.as_str()),
                                arg: copy_string(self.args[k].name.as_str()), pos: self.args[k].pos };
                            self.regs.push(rec);
                            proof {
                                assert(regs_view(self.regs@) =~= before + register_entry(st, open, kk, key_view(b), key_view(ak), *r));
                            }
                        } else {
                            proof {
                                assert(regs_view(self.regs@) =~= before + register_entry(st, open, kk, key_view(b), key_view(ak), *r));
                            }
                        }
                    },
                    None => {
                        proof {
                            assert(!exists|c: int| #[trigger] is_first(st.args, raw_match(kk, t@), c));
                        }
                        match find_ptr_arg(&self.args, key, t) {
                            Some(k) => {
                                proof {
                                    let c = choose|c: int| #[trigger] is_first(st.args, ptr_match(kk, t@), c);
                                    lemma_first_unique(st.args, ptr_match(kk, t@), c, k as int);
                                }
                                if !is_shadowed(&self.vars, stack, key, self.args[k].name.as_str()) {
                                    let rec = RegRecord { key, block: b, block_asm: ak, raw: false,
                                        register: copy_string(r.register.span.text.as_str()),
                                        arg: copy_string(self.args[k].name.as_str()), pos: self.args[k].pos };
                                    self.regs.push(rec);
                                    proof {
                                        assert(regs_view(self.regs@) =~= before + register_entry(st, open, kk, key_view(b), key_view(ak), *r));
                                    }
                                } else {
                                    proof {
                                        assert(regs_view(self.regs@) =~= before + register_entry(st, open, kk, key_view(b), key_view(ak), *r));
                                    }
                                }
                            },
                            None => {
                                proof {
                                    assert(!exists|c: int| #[trigger] is_first(st.args, ptr_match(kk, t@), c));
                                    assert(regs_view(self.regs@) =~= before + register_entry(st, open, kk, key_view(b), key_view(ak), *r));
                                }
                            },
                        }
                    },
                }
            },
            None => {
                proof {
                    assert(regs_view(self.regs@) =~= before + register_entry(st, open, kk, key_view(b), key_view(ak), *r));
                }
            },
        }
    }

    fn step<'a>(&mut self, stack: &BlockStack, ev: &Event<'a>)
        ensures
            final(self).view() == payload_step(stack.view(), old(self).view(), *ev),
    {
        let ghost st = self.view();
        let ghost open = stack.view();
        match ev {
            Event::Use(_, u) => {
                let ghost nb = strings_view(self.names@);
                match use_tree_to_name(&u.tree, "std::bytes::Bytes") {
                    Some(n) => self.names.push(n),
                    None => {},
                }
                proof {
                    assert(strings_view(self.names@) =~= nb + opt_seq(use_tree_name(u.tree, bytes_path())));
                }
            },
            Event::Fn(_, f) => {
                let ghost ab = args_view(self.args@);
                let mut more = payload_params_exec(fn_key_of(f), &self.names, &f.fn_signature.args);
                let ghost mv = args_view(more@);
                self.args.append(&mut more);
                proof {
                    assert(args_view(self.args@) =~= ab + mv);
                }
            },
            Event::StatementLet(c, l) => {
                match c.item_fn {
                    Some(func) => if stack.entries.len() > 0 {
                        let inner = stack.entries[stack.entries.len() - 1].1;
                        let ids = fold_pattern_idents(&l.pattern);
                        self.push_vars(fn_key_of(func), inner, ids);
                    },
                    None => {},
                }
            },
            Event::If(c, _, ifx) => {
                match (c.item_fn, &ifx.condition) {
                    (Some(func), IfCondition::Let { lhs, .. }) => {
                        let ids = fold_pattern_idents(lhs);
                        self.push_vars(fn_key_of(func), (ifx.then_block.span.start, ifx.then_block.span.end), ids);
                    },
                    _ => {},
                }
            },
            Event::Expr(c, e) => {
                match (c.item_fn, length_operands_exec(e)) {
                    (Some(func), Some((x, v))) => {
                        if str_eq(v.span.text.as_str(), "32") {
                            self.mark(fn_key_of(func), x.span.text.as_str());
                        }
                    },
                    _ => {},
                }
            },
            Event::AsmBlock(c, a) => {
                match c.item_fn {
                    Some(func) => if stack.entries.len() > 0 {
                        let key = fn_key_of(func);
                        let inner = stack.entries[stack.entries.len() - 1].1;
                        let ak = (a.span.start, a.span.end);
                        let ghost start = regs_view(self.regs@);
                        let mut j: usize = 0;
                        while j < a.registers.len()
                            invariant
                                j <= a.registers@.len(),
                                open == stack.view(),
                                st.args == self.view().args,
                                st.vars == self.view().vars,
                                self.view() == (PayloadState { regs: self.view().regs, ..st }),
                                start == st.regs,
                                regs_view(self.regs@) == start + register_entries(st, open, key_view(key), key_view(inner),
                                    key_view(ak), a.registers@.subrange(0, j as int)),
                            decreases a.registers@.len() - j,
                        {
                            proof {
                                assert(a.registers@.subrange(0, j as int + 1).drop_last() =~= a.registers@.subrange(0, j as int));
                            }
                            self.register(stack, key, inner, ak, &a.registers[j], Ghost(st));
                            j = j + 1;
                        }
                        proof {
                            assert(a.registers@.subrange(0, j as int) =~= a.registers@);
                        }
                    },
                    None => {},
                }
            },
            _ => {},
        }
    }
}

/// The detector of this module; `detect` runs it over the events of a module.
pub struct UncheckedCallPayloadVisitor;

impl UncheckedCallPayloadVisitor {
    /// Reports the `CALL` instructions with an unchecked payload among the events of a module.
    pub fn detect<'a>(&self, events: &Vec<Event<'a>>) -> (r: Vec<Finding>)
        ensures
            findings_view(r@) == gather(events@, |i: int, ev: Event<'a>| unchecked_call_payload_at(events@, i, ev)),
    {
        let ghost f = |i: int, ev: Event<'a>| unchecked_call_payload_at(events@, i, ev);
        let mut r: Vec<Finding> = Vec::new();
        let mut tracker = Tracker::new();
        let mut stack = BlockStack::new();
        let mut i: usize = 0;
        while i < events.len()
            invariant
                i <= events@.len(),
                f == (|i: int, ev: Event<'a>| unchecked_call_payload_at(events@, i, ev)),
                findings_view(r@) == gather(events@.take(i as int), f),
                tracker.view() == payload_state(events@.take(i as int)),
                stack.view() == open_blocks(events@.take(i as int)),
            decreases events@.len() - i,
        {
            proof {
                lemma_gather_step(events@, f, i as int);
                lemma_open_blocks_step(events@, i as int);
                lemma_payload_state_step(events@, i as int);
            }
            let ghost before = findings_view(r@);
            let ghost st = tracker.view();
            let ghost open = stack.view();
            let ev = &events[i];
            match ev {
                Event::AsmInstruction(c, a, ins) => {
                    match c.item_fn {
                        Some(func) => if stack.entries.len() > 0 && str_eq(ins.op_code.span.text.as_str(), "call") && ins.args.len() > 0 {
                            let r0 = ins.args[0].span.text.as_str();
                            let key = fn_key_of(func);
                            let b = stack.entries[stack.entries.len() - 1].1;
                            let ak = (a.span.start, a.span.end);
                            let ghost kk = key_view(key);
                            let ghost bb = key_view(b);
                            let ghost aa = key_view(ak);
                            match find_reg(&tracker.regs, key, b, ak, true, r0) {
                                Some(k) => {
                                    proof {
                                        let c2 = choose|c2: int| #[trigger] is_first(st.regs, reg_match(kk, bb, aa, true, r0@), c2);
                                        lemma_first_unique(st.regs, reg_match(kk, bb, aa, true, r0@), c2, k as int);
                                    }
                                    let mut text = context_location(c);
                                    push_str(&mut text, " uses the `");
                                    push_str(&mut text, tracker.regs[k].arg.as_str());
                                    push_str(&mut text, ": raw_ptr` parameter as the payload in a `CALL` instruction via register `");
                                    push_str(&mut text, r0);
                                    push_str(&mut text, "`, which may revert if the data is incorrect: `");
                                    push_str(&mut text, ins.span.text.as_str());
                                    push_str(&mut text, "`");
                                    r.push(Finding { event: i, start: ins.span.start, severity: Severity::Low, text, reference: None });
                                },
                                None => {
                                    proof {
                                        assert(!exists|c2: int| #[trigger] is_first(st.regs, reg_match(kk, bb, aa, true, r0@), c2));
                                    }
                                    match find_reg(&tracker.regs, key, b, ak, false, r0) {
                                        Some(k) => {
                                            proof {
                                                let c2 = choose|c2: int| #[trigger] is_first(st.regs, reg_match(kk, bb, aa, false, r0@), c2);
                                                lemma_first_unique(st.regs, reg_match(kk, bb, aa, false, r0@), c2, k as int);
                                            }
                                            let pos = tracker.regs[k].pos;
                                            match find_pos_arg(&tracker.args, key, pos) {
                                                Some(m) => {
                                                    proof {
                                                        let c3 = choose|c3: int| #[trigger] is_first(st.args, pos_match(kk, key_view(pos)), c3);
                                                        lemma_first_unique(st.args, pos_match(kk, key_view(pos)), c3, m as int);
                                                    }
                                                    if !tracker.args[m].checked {
                                                        let mut text = context_location(c);
                                                        push_str(&mut text, " uses the `");
                                                        push_str(&mut text, tracker.args[m].name.as_str());
                                                        push_str(&mut text, ": ");
                                                        push_str(&mut text, tracker.args[m].ty.as_str());
                                                        push_str(&mut text, "` parameter as the payload in a `CALL` instruction via register `");
                                                        push_str(&mut text, r0);
                                                        push_str(&mut text, "` without checking its length, which may revert if the data is incorrect: `");
                                                        push_str(&mut text, ins.span.text.as_str());
                                                        push_str(&mut text, "`");
                                                        r.push(Finding { event: i, start: ins.span.start, severity: Severity::Low, text, reference: None });
                                                    }
                                                },
                                                None => {
                                                    proof {
                                                        assert(!exists|c3: int| #[trigger] is_first(st.args, pos_match(kk, key_view(pos)), c3));
                                                    }
                                                },
                                            }
                                        },
                                        None => {
                                            proof {
                                                assert(!exists|c2: int| #[trigger] is_first(st.regs, reg_match(kk, bb, aa, false, r0@), c2));
                                            }
                                        },
                                    }
                                },
                            }
                        },
                        None => {},
                    }
                },
                _ => {},
            }
            proof {
                assert(findings_view(r@) =~= before + f(i as int, events@[i as int]));
            }
            tracker.step(&stack, ev);
            stack.step(ev);
            i = i + 1;
        }
        proof {
            assert(events@.take(i as int) =~= events@);
        }
        r
    }
}

} // verus!
