//! Reports storage fields that nothing ever writes, which could be constants.
use vstd::prelude::*;
use crate::ast::{AnnotatedField, ExprKind, PatternKind, StatementKind, StorageField};
use crate::detectors::{gather, lemma_gather_step, finding, findings_view, FindingView, Finding, fn_key, fn_key_of, open_blocks,
    lemma_open_blocks_step, BlockStack, strings_contain};
use crate::report::Severity;
use crate::text::{push_str, str_eq, copy_string, strings_view};
use crate::utils::{name, expr_idents, fold_expr_idents};
use crate::walk::Event;

verus! {

/// The fields of the first storage declaration among the events.
pub open spec fn first_storage_fields<'a>(evs: Seq<Event<'a>>) -> Seq<StorageField>
    decreases evs.len(),
{
    if evs.len() == 0 {
        Seq::empty()
    } else {
        match evs[0] {
            Event::Storage(_, fields) => fields@.map_values(|f: AnnotatedField<StorageField>| f.value),
            _ => first_storage_fields(evs.drop_first()),
        }
    }
}

/// Whether a name is the name of one of the fields.
pub open spec fn is_field(fields: Seq<StorageField>, nm: Seq<char>) -> bool {
    exists|k: int| 0 <= k < fields.len() && (#[trigger] fields[k]).name.span.text@ == nm
}

/// The local bindings of storage reads one event makes: `let v = storage.f. ... .read()` (or
/// `.get()`) in the innermost open block, with the variable and the field.
pub open spec fn storage_bindings<'a>(evs: Seq<Event<'a>>, j: int, ev: Event<'a>) -> Seq<((int, int), (int, int), Seq<char>, Seq<char>)> {
    match ev {
        Event::Statement(c, s) => match (c.item_fn, s.kind) {
            (Some(f), StatementKind::Let(l)) => match l.pattern.kind {
                PatternKind::AmbiguousSingleIdent(v) => {
                    let open = open_blocks(evs.take(j));
                    let ids = expr_idents(l.expr);
                    if open.len() > 0 && ids.len() >= 3 && name(ids[0]) == "storage"@
                        && (name(ids.last()) == "get"@ || name(ids.last()) == "read"@) {
                        seq![(fn_key(f), open.last().1, name(v), name(ids[1]))]
                    } else {
                        Seq::empty()
                    }
                },
                _ => Seq::empty(),
            },
            _ => Seq::empty(),
        },
        _ => Seq::empty(),
    }
}

/// The field bound to the latest binding of the variable in the block.
pub open spec fn latest_binding(binds: Seq<((int, int), (int, int), Seq<char>, Seq<char>)>, key: (int, int), b: (int, int), nm: Seq<char>)
    -> Option<Seq<char>>
    decreases binds.len(),
{
    if binds.len() == 0 {
        None
    } else if binds.last().0 == key && binds.last().1 == b && binds.last().2 == nm {
        Some(binds.last().3)
    } else {
        latest_binding(binds.drop_last(), key, b, nm)
    }
}

/// The field that a variable is bound to, looked up from the innermost open block of the
/// function outwards, skipping bindings to names that are no field.
pub open spec fn bound_field(open: Seq<(Option<(int, int)>, (int, int))>, binds: Seq<((int, int), (int, int), Seq<char>, Seq<char>)>,
    key: (int, int), nm: Seq<char>, fields: Seq<StorageField>) -> Option<Seq<char>>
    decreases open.len(),
{
    if open.len() == 0 {
        None
    } else if open.last().0 == Some(key) && (match latest_binding(binds, key, open.last().1, nm) {
        Some(s) => is_field(fields, s),
        None => false,
    }) {
        latest_binding(binds, key, open.last().1, nm)
    } else {
        bound_field(open.drop_last(), binds, key, nm, fields)
    }
}

/// The field one event writes: `storage.f. ... .write(..)` (or `.insert(..)`), or such a call
/// on a variable bound to a field.
pub open spec fn field_writes<'a>(evs: Seq<Event<'a>>, fields: Seq<StorageField>, j: int, ev: Event<'a>) -> Seq<Seq<char>> {
    match ev {
        Event::Expr(c, e) => match (c.item_fn, e.kind) {
            (Some(f), ExprKind::MethodCall { .. }) => {
                let ids = expr_idents(*e);
                if ids.len() >= 2 && (name(ids.last()) == "write"@ || name(ids.last()) == "insert"@) {
                    if name(ids[0]) == "storage"@ {
                        if is_field(fields, name(ids[1])) { seq![name(ids[1])] } else { Seq::empty() }
                    } else if !c.in_const {
                        match bound_field(open_blocks(evs.take(j)), gather(evs.take(j), |k: int, x: Event<'a>| storage_bindings(evs, k, x)),
                            fn_key(f), name(ids[0]), fields) {
                            Some(s) => seq![s],
                            None => Seq::empty(),
                        }
                    } else {
                        Seq::empty()
                    }
                } else {
                    Seq::empty()
                }
            },
            _ => Seq::empty(),
        },
        _ => Seq::empty(),
    }
}

/// The findings for the fields never written, in the order of declaration.
pub open spec fn immutable_findings(n: int, fields: Seq<StorageField>, written: Seq<Seq<char>>) -> Seq<FindingView>
    decreases fields.len(),
{
    if fields.len() == 0 {
        Seq::empty()
    } else {
        immutable_findings(n, fields.drop_last(), written) + if !written.contains(fields.last().name.span.text@) {
            finding(n, fields.last().name.span.start as int, Severity::Low, "The `"@ + fields.last().name.span.text@
                + "` storage field is never mutated. Consider refactoring it into a constant or a configurable field."@)
        } else {
            Seq::empty()
        }
    }
}

/// What the detector reports for a module with the given events: at its end, each field of its
/// storage that no event writes.
pub open spec fn storage_field_mutability_findings<'a>(evs: Seq<Event<'a>>) -> Seq<FindingView> {
    let fields = first_storage_fields(evs);
    immutable_findings(evs.len() as int, fields, gather(evs, |j: int, x: Event<'a>| field_writes(evs, fields, j, x)))
}

/// The value of a list of bindings.
pub open spec fn binds_view(v: Seq<((usize, usize), (usize, usize), String, String)>) -> Seq<((int, int), (int, int), Seq<char>, Seq<char>)> {
    v.map_values(|x: ((usize, usize), (usize, usize), String, String)| ((x.0.0 as int, x.0.1 as int), (x.1.0 as int, x.1.1 as int), x.2@, x.3@))
}

fn first_storage_fields_exec<'a>(events: &Vec<Event<'a>>) -> (r: Vec<&'a StorageField>)
    ensures
        r@.map_values(|f: &'a StorageField| *f) == first_storage_fields(events@),
{
    let mut k: usize = 0;
    proof {
        assert(events@.skip(0) =~= events@);
    }
    while k < events.len()
        invariant
            k <= events@.len(),
            first_storage_fields(events@) == first_storage_fields(events@.skip(k as int)),
        decreases events@.len() - k,
    {
        proof {
            assert(events@.skip(k as int)[0] == events@[k as int]);
            assert(events@.skip(k as int).drop_first() =~= events@.skip(k + 1));
        }
        match &events[k] {
            Event::Storage(_, fields) => {
                let mut r: Vec<&'a StorageField> = Vec::new();
                let mut m: usize = 0;
                while m < fields.len()
                    invariant
                        m <= fields@.len(),
                        r@.map_values(|f: &'a StorageField| *f) == fields@.take(m as int).map_values(|f: AnnotatedField<StorageField>| f.value),
                    decreases fields@.len() - m,
                {
                    let ghost rb = r@.map_values(|f: &'a StorageField| *f);
                    r.push(&fields[m].value);
                    proof {
                        assert(r@.map_values(|f: &'a StorageField| *f) =~= rb.push(fields@[m as int].value));
                        assert(fields@.take(m + 1).map_values(|f: AnnotatedField<StorageField>| f.value)
                            =~= fields@.take(m as int).map_values(|f: AnnotatedField<StorageField>| f.value).push(fields@[m as int].value));
                    }
                    m = m + 1;
                }
                proof {
                    assert(fields@.take(m as int) =~= fields@);
                }
                return r;
            },
            _ => {},
        }
        k = k + 1;
    }
    proof {
        assert(events@.skip(k as int) =~= Seq::<Event<'a>>::empty());
    }
    let r: Vec<&'a StorageField> = Vec::new();
    proof {
        assert(r@.map_values(|f: &'a StorageField| *f) =~= Seq::<StorageField>::empty());
    }
    r
}

fn is_field_exec<'a>(fields: &Vec<&'a StorageField>, nm: &str) -> (r: bool)
    ensures
        r == is_field(fields@.map_values(|f: &'a StorageField| *f), nm@),
{
    let ghost fv = fields@.map_values(|f: &'a StorageField| *f);
    let mut k: usize = 0;
    while k < fields.len()
        invariant
            k <= fields@.len(),
            fv == fields@.map_values(|f: &'a StorageField| *f),
            forall|m: int| 0 <= m < k ==> (#[trigger] fv[m]).name.span.text@ != nm@,
        decreases fields@.len() - k,
    {
        if str_eq(fields[k].name.span.text.as_str(), nm) {
            proof {
                assert(fv[k as int].name.span.text@ == nm@);
            }
            return true;
        }
        k = k + 1;
    }
    false
}

fn latest_binding_exec(binds: &Vec<((usize, usize), (usize, usize), String, String)>, key: (usize, usize), b: (usize, usize), nm: &str)
    -> (r: Option<String>)
    ensures
        match latest_binding(binds_view(binds@), (key.0 as int, key.1 as int), (b.0 as int, b.1 as int), nm@) {
            Some(s) => r matches Some(x) && x@ == s,
            None => r is None,
        },
{
    let ghost bv = binds_view(binds@);
    let ghost kk = (key.0 as int, key.1 as int);
    let ghost bb = (b.0 as int, b.1 as int);
    let mut k: usize = binds.len();
    proof {
        assert(bv.take(k as int) =~= bv);
    }
    while k > 0
        invariant
            k <= binds@.len(),
            bv == binds_view(binds@),
            kk == (key.0 as int, key.1 as int),
            bb == (b.0 as int, b.1 as int),
            latest_binding(bv, kk, bb, nm@) == latest_binding(bv.take(k as int), kk, bb, nm@),
        decreases k,
    {
        proof {
            assert(bv.take(k as int).last() == bv[k - 1]);
            assert(bv.take(k as int).drop_last() =~= bv.take(k - 1));
        }
        let x = &binds[k - 1];
        if x.0.0 == key.0 && x.0.1 == key.1 && x.1.0 == b.0 && x.1.1 == b.1 && str_eq(x.2.as_str(), nm) {
            return Some(copy_string(x.3.as_str()));
        }
        k = k - 1;
    }
    None
}

fn bound_field_exec<'a>(stack: &BlockStack, binds: &Vec<((usize, usize), (usize, usize), String, String)>, key: (usize, usize), nm: &str,
    fields: &Vec<&'a StorageField>) -> (r: Option<String>)
    ensures
        match bound_field(stack.view(), binds_view(binds@), (key.0 as int, key.1 as int), nm@, fields@.map_values(|f: &'a StorageField| *f)) {
            Some(s) => r matches Some(x) && x@ == s,
            None => r is None,
        },
{
    let ghost open = stack.view();
    let ghost bv = binds_view(binds@);
    let ghost kk = (key.0 as int, key.1 as int);
    let ghost fv = fields@.map_values(|f: &'a StorageField| *f);
    let mut k: usize = stack.entries.len();
    proof {
        assert(open.take(k as int) =~= open);
    }
    while k > 0
        invariant
            k <= stack.entries@.len(),
            open == stack.view(),
            bv == binds_view(binds@),
            kk == (key.0 as int, key.1 as int),
            fv == fields@.map_values(|f: &'a StorageField| *f),
            bound_field(open, bv, kk, nm@, fv) == bound_field(open.take(k as int), bv, kk, nm@, fv),
        decreases k,
    {
        proof {
            assert(open.take(k as int).last() == open[k - 1]);
            assert(open.take(k as int).drop_last() =~= open.take(k - 1));
        }
        let e = stack.entries[k - 1];
        let same = match e.0 {
            Some(fk) => fk.0 == key.0 && fk.1 == key.1,
            None => false,
        };
        if same {
            match latest_binding_exec(binds, key, e.1, nm) {
                Some(s) => if is_field_exec(fields, s.as_str()) {
                    return Some(s);
                },
                None => {},
            }
        }
        k = k - 1;
    }
    None
}

/// The detector of this module; `detect` runs it over the events of a module.
pub struct StorageFieldMutabilityVisitor;

impl StorageFieldMutabilityVisitor {
    /// Reports the storage fields that a module with the given events never writes.
    pub fn detect<'a>(&self, events: &Vec<Event<'a>>) -> (r: Vec<Finding>)
        ensures
            findings_view(r@) == storage_field_mutability_findings(events@),
    {
        let fields = first_storage_fields_exec(events);
        let ghost fv = fields@.map_values(|f: &'a StorageField| *f);
        let ghost gw = |j: int, x: Event<'a>| field_writes(events@, fv, j, x);
        let ghost gb = |k: int, x: Event<'a>| storage_bindings(events@, k, x);
        let mut written: Vec<String> = Vec::new();
        let mut binds: Vec<((usize, usize), (usize, usize), String, String)> = Vec::new();
        let mut stack = BlockStack::new();
        let mut i: usize = 0;
        while i < events.len()
            invariant
                i <= events@.len(),
                fv == fields@.map_values(|f: &'a StorageField| *f),
                fv == first_storage_fields(events@),
                gw == (|j: int, x: Event<'a>| field_writes(events@, fv, j, x)),
                gb == (|k: int, x: Event<'a>| storage_bindings(events@, k, x)),
                strings_view(written@) == gather(events@.take(i as int), gw),
                binds_view(binds@) == gather(events@.take(i as int), gb),
                stack.view() == open_blocks(events@.take(i as int)),
            decreases events@.len() - i,
        {
            proof {
                lemma_gather_step(events@, gw, i as int);
                lemma_gather_step(events@, gb, i as int);
                lemma_open_blocks_step(events@, i as int);
            }
            let ghost written_before = strings_view(written@);
            let ghost binds_before = binds_view(binds@);
            let ev = &events[i];
            match ev {
                Event::Statement(c, s) => {
                    match (c.item_fn, &s.kind) {
                        (Some(func), StatementKind::Let(l)) => match &l.pattern.kind {
                            PatternKind::AmbiguousSingleIdent(v) => {
                                let ids = fold_expr_idents(&l.expr);
                                if stack.entries.len() > 0 && ids.len() >= 3 && str_eq(ids[0].span.text.as_str(), "storage")
                                    && (str_eq(ids[ids.len() - 1].span.text.as_str(), "get") || str_eq(ids[ids.len() - 1].span.text.as_str(), "read")) {
                                    let inner = stack.entries[stack.entries.len() - 1].1;
                                    binds.push((fn_key_of(func), inner, copy_string(v.span.text.as_str()), copy_string(ids[1].span.text.as_str())));
                                }
                            },
                            _ => {},
                        },
                        _ => {},
                    }
                },
                Event::Expr(c, e) => {
                    match (c.item_fn, &e.kind) {
                        (Some(func), ExprKind::MethodCall { .. }) => {
                            let ids = fold_expr_idents(e);
                            if ids.len() >= 2 && (str_eq(ids[ids.len() - 1].span.text.as_str(), "write")
                                || str_eq(ids[ids.len() - 1].span.text.as_str(), "insert")) {
                                if str_eq(ids[0].span.text.as_str(), "storage") {
                                    if is_field_exec(&fields, ids[1].span.text.as_str()) {
                                        written.push(copy_string(ids[1].span.text.as_str()));
                                    }
                                } else if !c.in_const {
                                    match bound_field_exec(&stack, &binds, fn_key_of(func), ids[0].span.text.as_str(), &fields) {
                                        Some(s) => written.push(s),
                                        None => {},
                                    }
                                }
                            }
                        },
                        _ => {},
                    }
                },
                _ => {},
            }
            proof {
                assert(strings_view(written@) =~= written_before + gw(i as int, events@[i as int]));
                assert(binds_view(binds@) =~= binds_before + gb(i as int, events@[i as int]));
            }
            stack.step(ev);
            i = i + 1;
        }
        proof {
            assert(events@.take(i as int) =~= events@);
        }
        let n = events.len();
        let ghost wv = strings_view(written@);
        let mut r: Vec<Finding> = Vec::new();
        let mut k: usize = 0;
        while k < fields.len()
            invariant
                k <= fields@.len(),
                n == events@.len(),
                fv == fields@.map_values(|f: &'a StorageField| *f),
                wv == strings_view(written@),
                findings_view(r@) == immutable_findings(n as int, fv.take(k as int), wv),
            decreases fields@.len() - k,
        {
            proof {
                assert(fv.take(k + 1).drop_last() =~= fv.take(k as int));
                assert(fv.take(k + 1).last() == *fields@[k as int]);
            }
            let ghost before = findings_view(r@);
            let fld = fields[k];
            if !strings_contain(&written, fld.name.span.text.as_str()) {
                let mut text = String::new();
                push_str(&mut text, "The `");
                push_str(&mut text, fld.name.span.text.as_str());
                push_str(&mut text, "` storage field is never mutated. Consider refactoring it into a constant or a configurable field.");
                r.push(Finding { event: n, start: fld.name.span.start, severity: Severity::Low, text, reference: None });
                proof {
                    assert(findings_view(r@) =~= before + finding(n as int, fld.name.span.start as int, Severity::Low, "The `"@
                        + fld.name.span.text@ + "` storage field is never mutated. Consider refactoring it into a constant or a configurable field."@));
                }
            }
            k = k + 1;
        }
        proof {
            assert(fv.take(k as int) =~= fv);
        }
        r
    }
}

} // verus!
