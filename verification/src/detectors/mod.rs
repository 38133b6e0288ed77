//! The detectors: each one reads the visit events of a module and reports findings.
use vstd::prelude::*;
use crate::ast::{Block, ItemFn, ItemImpl, ItemKind};
use crate::report::Severity;
use crate::text::{push_str, str_eq, str_contains, strings_view, is_infix};
use crate::walk::{Ctx, Event, ItemRef};
pub use crate::search::{is_first, lemma_first_unique, is_last, lemma_last_unique};

pub mod arbitrary_asset_transfer;
pub mod arbitrary_code_execution;
pub mod boolean_comparison;
pub mod discarded_assignment;
pub mod division_before_multiplication;
pub mod explicit_return_statement;
pub mod external_call_in_loop;
pub mod inline_assembly_usage;
pub mod large_literal;
pub mod locked_native_asset;
pub mod magic_number;
pub mod manipulatable_balance_usage;
pub mod missing_logs;
pub mod msg_amount_in_loop;
pub mod non_zero_identity_validation;
pub mod potential_infinite_loop;
pub mod redundant_comparison;
pub mod redundant_storage_access;
pub mod storage_field_mutability;
pub mod storage_not_updated;
pub mod storage_read_in_loop_condition;
pub mod strict_equality;
pub mod unchecked_call_payload;
pub mod unprotected_initialization;
pub mod unprotected_storage_variable;
pub mod unsafe_timestamp_usage;
pub mod unused_import;
pub mod weak_prng;

verus! {

/// A line that a message names: the offset whose line it names, the text put before the line
/// number, whether the line must exist, and the rest of the message.
///
/// The message then reads: the finding's text; when the offset lies on a line `n`, the lead,
/// `L` and `n`; then the tail. A required line that the file does not have cannot be written.
pub struct Reference {
    pub offset: usize,
    pub lead: String,
    pub required: bool,
    pub tail: String,
}

/// The value of a reference: offset, lead, whether required, tail.
pub type ReferenceView = (int, Seq<char>, bool, Seq<char>);

/// The value of a reference.
pub open spec fn reference_view(r: Option<Reference>) -> Option<ReferenceView> {
    match r {
        Some(x) => Some((x.offset as int, x.lead@, x.required, x.tail@)),
        None => None,
    }
}

/// What a detector reports: the position in the walk at which it is reported, the offset in
/// the source that it points to, its severity, its message, and the line it refers to, if any.
pub struct Finding {
    pub event: usize,
    pub start: usize,
    pub severity: Severity,
    pub text: String,
    pub reference: Option<Reference>,
}

/// The value of a finding.
pub open spec fn finding_view(f: Finding) -> FindingView {
    (f.event as int, f.start as int, f.severity, f.text@, reference_view(f.reference))
}

/// The values of a sequence of findings.
pub open spec fn findings_view(v: Seq<Finding>) -> Seq<FindingView> {
    v.map_values(|f: Finding| finding_view(f))
}

/// The value of a finding: walk position, source offset, severity, message, reference.
pub type FindingView = (int, int, Severity, Seq<char>, Option<ReferenceView>);

/// What `f` gives for each event of `evs` in turn, `f` taking the event's position.
pub open spec fn gather<'a, T>(evs: Seq<Event<'a>>, f: spec_fn(int, Event<'a>) -> Seq<T>) -> Seq<T>
    decreases evs.len(),
{
    if evs.len() == 0 {
        Seq::empty()
    } else {
        gather(evs.drop_last(), f) + f(evs.len() - 1, evs.last())
    }
}

/// Gathering one more event appends what that event gives.
pub proof fn lemma_gather_step<'a, T>(evs: Seq<Event<'a>>, f: spec_fn(int, Event<'a>) -> Seq<T>, i: int)
    requires
        0 <= i < evs.len(),
    ensures
        gather(evs.take(i + 1), f) == gather(evs.take(i), f) + f(i, evs[i]),
{
    assert(evs.take(i + 1).drop_last() =~= evs.take(i));
}

/// Whether `m` is the innermost open block of the function for which `hit` holds.
pub open spec fn is_innermost(open: Seq<(Option<(int, int)>, (int, int))>, key: (int, int), hit: spec_fn((int, int)) -> bool,
    m: int) -> bool
{
    0 <= m < open.len() && open[m].0 == Some(key) && hit(open[m].1)
        && forall|m2: int| m < m2 < open.len() && (#[trigger] open[m2]).0 == Some(key) ==> !hit(open[m2].1)
}

/// There is at most one innermost such block.
pub proof fn lemma_innermost_unique(open: Seq<(Option<(int, int)>, (int, int))>, key: (int, int), hit: spec_fn((int, int)) -> bool,
    m1: int, m2: int)
    requires
        is_innermost(open, key, hit, m1),
        is_innermost(open, key, hit, m2),
    ensures
        m1 == m2,
{
    if m1 < m2 {
        assert(!hit(open[m2].1));
    } else if m2 < m1 {
        assert(!hit(open[m1].1));
    }
}

/// The key of a function: the position of its signature.
pub open spec fn fn_key(f: &ItemFn) -> (int, int) {
    (f.fn_signature.span.start as int, f.fn_signature.span.end as int)
}

/// The key of the function a context lies in.
pub open spec fn ctx_fn_key(c: Ctx) -> Option<(int, int)> {
    match c.item_fn {
        Some(f) => Some(fn_key(f)),
        None => None,
    }
}

/// The key of a block: its position.
pub open spec fn block_key(b: &Block) -> (int, int) {
    (b.span.start as int, b.span.end as int)
}

/// The blocks open after the given events, innermost last, each with the key of its function.
pub open spec fn open_blocks<'a>(evs: Seq<Event<'a>>) -> Seq<(Option<(int, int)>, (int, int))>
    decreases evs.len(),
{
    if evs.len() == 0 {
        Seq::empty()
    } else {
        let s = open_blocks(evs.drop_last());
        match evs.last() {
            Event::Block(c, b) => s.push((ctx_fn_key(c), block_key(b))),
            Event::LeaveBlock(_, _) => if s.len() > 0 { s.drop_last() } else { s },
            _ => s,
        }
    }
}

/// Opening and closing blocks one event at a time.
pub proof fn lemma_open_blocks_step<'a>(evs: Seq<Event<'a>>, i: int)
    requires
        0 <= i < evs.len(),
    ensures
        open_blocks(evs.take(i + 1)) == ({
            let s = open_blocks(evs.take(i));
            match evs[i] {
                Event::Block(c, b) => s.push((ctx_fn_key(c), block_key(b))),
                Event::LeaveBlock(_, _) => if s.len() > 0 { s.drop_last() } else { s },
                _ => s,
            }
        }),
{
    assert(evs.take(i + 1).drop_last() =~= evs.take(i));
}

/// The finding with the given values.
pub open spec fn finding(event: int, start: int, severity: Severity, text: Seq<char>) -> Seq<FindingView> {
    seq![(event, start, severity, text, None)]
}

/// The name of a function as a location: "The `Type::name` function" inside an `impl` block.
pub open spec fn fn_location(f: ItemFn, item_impl: Option<&ItemImpl>) -> Seq<char> {
    match item_impl {
        Some(i) => "The `"@ + i.ty.span.text@ + "::"@ + f.fn_signature.name.span.text@ + "` function"@,
        None => "The `"@ + f.fn_signature.name.span.text@ + "` function"@,
    }
}

/// Where a node stands, in words, as the findings' messages start.
pub open spec fn item_location(item: ItemRef, item_impl: Option<&ItemImpl>, item_fn: Option<&ItemFn>) -> Seq<char> {
    match item {
        ItemRef::Kind(ItemKind::Fn(f)) => fn_location(*f, item_impl),
        ItemRef::Fn(f) => fn_location(*f, item_impl),
        ItemRef::Kind(ItemKind::Const(k)) => const_location(k.name.span.text@, item_impl, item_fn),
        ItemRef::Const(k) => const_location(k.name.span.text@, item_impl, item_fn),
        ItemRef::Kind(ItemKind::Storage { .. }) => "Storage"@,
        ItemRef::Kind(ItemKind::Configurable { .. }) => "Configurable"@,
        _ => "An item"@,
    }
}

/// The name of a constant as a location, with the `impl` block and function it stands in.
pub open spec fn const_location(name: Seq<char>, item_impl: Option<&ItemImpl>, item_fn: Option<&ItemFn>) -> Seq<char> {
    match (item_impl, item_fn) {
        (Some(i), Some(f)) => "The `"@ + name + "` constant in the `"@ + i.ty.span.text@ + "::"@
            + f.fn_signature.name.span.text@ + "` function"@,
        (Some(i), None) => "The `"@ + i.ty.span.text@ + "::"@ + name + "` constant"@,
        (None, Some(f)) => "The `"@ + name + "` constant in the `"@ + f.fn_signature.name.span.text@ + "` function"@,
        (None, None) => "The `"@ + name + "` constant"@,
    }
}

/// The location of a context.
pub open spec fn ctx_location(c: Ctx) -> Seq<char> {
    item_location(c.item, c.item_impl, c.item_fn)
}

fn push_fn_location(out: &mut String, f: &ItemFn, item_impl: Option<&ItemImpl>)
    ensures
        final(out)@ == old(out)@ + fn_location(*f, item_impl),
{
    let ghost start = out@;
    push_str(out, "The `");
    match item_impl {
        Some(i) => {
            push_str(out, i.ty.span.text.as_str());
            push_str(out, "::");
        },
        None => {},
    }
    push_str(out, f.fn_signature.name.span.text.as_str());
    push_str(out, "` function");
    proof {
        assert(out@ =~= start + fn_location(*f, item_impl));
    }
}

fn push_const_location(out: &mut String, name: &str, item_impl: Option<&ItemImpl>, item_fn: Option<&ItemFn>)
    ensures
        final(out)@ == old(out)@ + const_location(name@, item_impl, item_fn),
{
    let ghost start = out@;
    push_str(out, "The `");
    match (item_impl, item_fn) {
        (Some(i), Some(f)) => {
            push_str(out, name);
            push_str(out, "` constant in the `");
            push_str(out, i.ty.span.text.as_str());
            push_str(out, "::");
            push_str(out, f.fn_signature.name.span.text.as_str());
            push_str(out, "` function");
        },
        (Some(i), None) => {
            push_str(out, i.ty.span.text.as_str());
            push_str(out, "::");
            push_str(out, name);
            push_str(out, "` constant");
        },
        (None, Some(f)) => {
            push_str(out, name);
            push_str(out, "` constant in the `");
            push_str(out, f.fn_signature.name.span.text.as_str());
            push_str(out, "` function");
        },
        (None, None) => {
            push_str(out, name);
            push_str(out, "` constant");
        },
    }
    proof {
        assert(out@ =~= start + const_location(name@, item_impl, item_fn));
    }
}

/// Where a node stands, in words: the function or constant it belongs to, or the storage or
/// configurable block.
pub fn get_item_location(item: ItemRef, item_impl: Option<&ItemImpl>, item_fn: Option<&ItemFn>) -> (r: String)
    ensures
        r@ == item_location(item, item_impl, item_fn),
{
    let mut out = String::new();
    match item {
        ItemRef::Kind(ItemKind::Fn(f)) => push_fn_location(&mut out, f, item_impl),
        ItemRef::Fn(f) => push_fn_location(&mut out, f, item_impl),
        ItemRef::Kind(ItemKind::Const(k)) => push_const_location(&mut out, k.name.span.text.as_str(), item_impl, item_fn),
        ItemRef::Const(k) => push_const_location(&mut out, k.name.span.text.as_str(), item_impl, item_fn),
        ItemRef::Kind(ItemKind::Storage { .. }) => push_str(&mut out, "Storage"),
        ItemRef::Kind(ItemKind::Configurable { .. }) => push_str(&mut out, "Configurable"),
        _ => push_str(&mut out, "An item"),
    }
    proof {
        assert(out@ =~= item_location(item, item_impl, item_fn));
    }
    out
}

/// The location of a context, in words.
pub fn context_location(c: &Ctx) -> (r: String)
    ensures
        r@ == ctx_location(*c),
{
    get_item_location(c.item, c.item_impl, c.item_fn)
}


/// The key of a function.
pub fn fn_key_of(f: &ItemFn) -> (r: (usize, usize))
    ensures
        (r.0 as int, r.1 as int) == fn_key(f),
{
    (f.fn_signature.span.start, f.fn_signature.span.end)
}

/// The key of the function a context lies in.
pub fn ctx_fn_key_of(c: &Ctx) -> (r: Option<(usize, usize)>)
    ensures
        match r {
            Some(k) => ctx_fn_key(*c) == Some((k.0 as int, k.1 as int)),
            None => ctx_fn_key(*c) is None,
        },
{
    match c.item_fn {
        Some(f) => Some(fn_key_of(f)),
        None => None,
    }
}

/// The value of a key of the function a block belongs to.
pub open spec fn opt_key_view(k: Option<(usize, usize)>) -> Option<(int, int)> {
    match k {
        Some(x) => Some((x.0 as int, x.1 as int)),
        None => None,
    }
}

/// The blocks that are open at some point of the walk, innermost last.
pub struct BlockStack {
    pub entries: Vec<(Option<(usize, usize)>, (usize, usize))>,
}

impl BlockStack {
    /// The blocks, each with the key of its function and its own key.
    pub open spec fn view(&self) -> Seq<(Option<(int, int)>, (int, int))> {
        self.entries@.map_values(|e: (Option<(usize, usize)>, (usize, usize))| (opt_key_view(e.0), (e.1.0 as int, e.1.1 as int)))
    }

    /// No block open.
    pub fn new() -> (r: BlockStack)
        ensures
            r.view() == Seq::<(Option<(int, int)>, (int, int))>::empty(),
    {
        let r = BlockStack { entries: Vec::new() };
        proof {
            assert(r.view() =~= Seq::<(Option<(int, int)>, (int, int))>::empty());
        }
        r
    }

    /// Opens or closes a block as the event says.
    pub fn step<'a>(&mut self, ev: &Event<'a>)
        ensures
            final(self).view() == ({
                let s = old(self).view();
                match *ev {
                    Event::Block(c, b) => s.push((ctx_fn_key(c), block_key(b))),
                    Event::LeaveBlock(_, _) => if s.len() > 0 { s.drop_last() } else { s },
                    _ => s,
                }
            }),
    {
        let ghost s = self.view();
        match ev {
            Event::Block(c, b) => {
                let k = ctx_fn_key_of(c);
                self.entries.push((k, (b.span.start, b.span.end)));
                proof {
                    assert(self.view() =~= s.push((ctx_fn_key(*c), block_key(*b))));
                }
            },
            Event::LeaveBlock(_, _) => {
                if self.entries.len() > 0 {
                    self.entries.pop();
                    proof {
                        assert(self.view() =~= s.drop_last());
                    }
                }
            },
            _ => {},
        }
    }
}


/// The values of a sequence of keys.
pub open spec fn keys_view(v: Seq<(usize, usize)>) -> Seq<(int, int)> {
    v.map_values(|k: (usize, usize)| (k.0 as int, k.1 as int))
}

/// Whether a key is among the given keys.
pub fn keys_contain(v: &Vec<(usize, usize)>, k: (usize, usize)) -> (r: bool)
    ensures
        r == keys_view(v@).contains((k.0 as int, k.1 as int)),
{
    let mut i: usize = 0;
    while i < v.len()
        invariant
            i <= v@.len(),
            forall|j: int| 0 <= j < i ==> keys_view(v@)[j] != (k.0 as int, k.1 as int),
        decreases v@.len() - i,
    {
        if v[i].0 == k.0 && v[i].1 == k.1 {
            proof {
                assert(keys_view(v@)[i as int] == (k.0 as int, k.1 as int));
            }
            return true;
        }
        i = i + 1;
    }
    false
}

/// Whether a string is among the given strings.
pub fn strings_contain(v: &Vec<String>, s: &str) -> (r: bool)
    ensures
        r == strings_view(v@).contains(s@),
{
    let mut i: usize = 0;
    while i < v.len()
        invariant
            i <= v@.len(),
            forall|j: int| 0 <= j < i ==> strings_view(v@)[j] != s@,
        decreases v@.len() - i,
    {
        if str_eq(v[i].as_str(), s) {
            proof {
                assert(strings_view(v@)[i as int] == s@);
            }
            return true;
        }
        i = i + 1;
    }
    false
}

/// Whether some string of `v` occurs in `hay`.
pub fn any_string_in(v: &Vec<String>, hay: &str) -> (r: bool)
    ensures
        r == (exists|j: int| 0 <= j < v@.len() && is_infix(#[trigger] v@[j]@, hay@)),
{
    let mut i: usize = 0;
    while i < v.len()
        invariant
            i <= v@.len(),
            forall|j: int| 0 <= j < i ==> !is_infix(#[trigger] v@[j]@, hay@),
        decreases v@.len() - i,
    {
        if str_contains(hay, v[i].as_str()) {
            return true;
        }
        i = i + 1;
    }
    false
}

/// The sequence holding the value, if any.
pub open spec fn opt_seq<T>(o: Option<T>) -> Seq<T> {
    match o {
        Some(x) => seq![x],
        None => Seq::empty(),
    }
}


/// The values of a sequence of pairs of keys.
pub open spec fn pairs_view(v: Seq<((usize, usize), (usize, usize))>) -> Seq<((int, int), (int, int))> {
    v.map_values(|k: ((usize, usize), (usize, usize))| ((k.0.0 as int, k.0.1 as int), (k.1.0 as int, k.1.1 as int)))
}

/// The loop bodies that an event starts: the keys of the function and of the body of a `while`.
pub open spec fn loop_bodies<'a>(j: int, ev: Event<'a>) -> Seq<((int, int), (int, int))> {
    match ev {
        Event::While(c, _, _, body) => match c.item_fn {
            Some(f) => seq![(fn_key(f), block_key(body))],
            None => Seq::empty(),
        },
        _ => Seq::empty(),
    }
}

/// Whether one of the open blocks of the function is the body of a loop.
pub open spec fn in_loop(open: Seq<(Option<(int, int)>, (int, int))>, loops: Seq<((int, int), (int, int))>, key: (int, int)) -> bool {
    exists|m: int| 0 <= m < open.len() && (#[trigger] open[m]).0 == Some(key) && loops.contains((key, open[m].1))
}

/// Whether a pair of keys is among the given pairs.
pub fn pairs_contain(v: &Vec<((usize, usize), (usize, usize))>, a: (usize, usize), b: (usize, usize)) -> (r: bool)
    ensures
        r == pairs_view(v@).contains(((a.0 as int, a.1 as int), (b.0 as int, b.1 as int))),
{
    let ghost pv = pairs_view(v@);
    let mut i: usize = 0;
    while i < v.len()
        invariant
            i <= v@.len(),
            pv == pairs_view(v@),
            forall|j: int| 0 <= j < i ==> pv[j] != ((a.0 as int, a.1 as int), (b.0 as int, b.1 as int)),
        decreases v@.len() - i,
    {
        let x = v[i];
        if x.0.0 == a.0 && x.0.1 == a.1 && x.1.0 == b.0 && x.1.1 == b.1 {
            proof {
                assert(pv[i as int] == ((a.0 as int, a.1 as int), (b.0 as int, b.1 as int)));
            }
            return true;
        }
        i = i + 1;
    }
    false
}

/// Whether one of the open blocks of the function is the body of a loop.
pub fn in_loop_exec(stack: &BlockStack, loops: &Vec<((usize, usize), (usize, usize))>, key: (usize, usize)) -> (r: bool)
    ensures
        r == in_loop(stack.view(), pairs_view(loops@), (key.0 as int, key.1 as int)),
{
    let ghost open = stack.view();
    let ghost kk = (key.0 as int, key.1 as int);
    let mut m: usize = 0;
    while m < stack.entries.len()
        invariant
            m <= stack.entries@.len(),
            open == stack.view(),
            kk == (key.0 as int, key.1 as int),
            forall|j: int| 0 <= j < m ==> !((#[trigger] open[j]).0 == Some(kk) && pairs_view(loops@).contains((kk, open[j].1))),
        decreases stack.entries@.len() - m,
    {
        let e = stack.entries[m];
        let same = match e.0 {
            Some(fk) => fk.0 == key.0 && fk.1 == key.1,
            None => false,
        };
        if same && pairs_contain(loops, key, e.1) {
            proof {
                assert(open[m as int].0 == Some(kk) && pairs_view(loops@).contains((kk, open[m as int].1)));
            }
            return true;
        }
        m = m + 1;
    }
    false
}

} // verus!
