//! What holds of the analyzer across its operations: how the report grows, what the severity
//! filter keeps, which detectors run, in which order the modules are analyzed.
use vstd::prelude::*;
use crate::analysis::{chosen_upto, DETECTOR_COUNT, insert_path, sorted_paths, detector_findings};
use crate::project::{line_of, line_ranges, break_ranges, last_line_start};
use crate::ast::{Expr, FnArg, Ident, Module, Statement, StorageField};
use crate::detectors::{FindingView, gather};
use crate::walk::Event;
use crate::detectors::arbitrary_asset_transfer::arbitrary_asset_transfer_at;
use crate::detectors::arbitrary_code_execution::arbitrary_code_execution_at;
use crate::detectors::boolean_comparison::boolean_comparison_at;
use crate::detectors::discarded_assignment::{discarded_assignment_at, unread_findings, Assign};
use crate::detectors::division_before_multiplication::division_before_multiplication_at;
use crate::detectors::explicit_return_statement::explicit_return_at;
use crate::detectors::external_call_in_loop::external_call_at;
use crate::detectors::inline_assembly_usage::inline_assembly_at;
use crate::detectors::large_literal::{large_literal_at, group_digits, literal_is_readable, large_literal_text};
use crate::detectors::locked_native_asset::{locked_native_asset_findings, locking_findings};
use crate::detectors::magic_number::{magic_number_at, magic_candidate, magic_mark};
use crate::detectors::manipulatable_balance_usage::{manipulatable_balance_at, manipulatable_findings};
use crate::detectors::missing_logs::{missing_logs_at, unlogged_findings};
use crate::detectors::msg_amount_in_loop::{msg_amount_at, msg_amount_findings};
use crate::detectors::non_zero_identity_validation::{non_zero_identity_at, unchecked_findings, CheckRec};
use crate::detectors::potential_infinite_loop::infinite_loop_at;
use crate::detectors::redundant_comparison::{redundant_comparison_at, comparison_findings};
use crate::detectors::redundant_storage_access::redundant_storage_access_at;
use crate::detectors::storage_field_mutability::{storage_field_mutability_findings, immutable_findings};
use crate::detectors::storage_not_updated::{storage_not_updated_at, block_findings, binding_finding, binding_state, binding_step,
    let_variable, reassigned_variable, shadow, var_hit, var_match, write_hit, fn_display_name, Binding};
use crate::detectors::{fn_key, open_blocks, is_innermost};
use crate::search::is_last;
use crate::utils::{name, storage_read_binding, storage_write_pair};
use crate::detectors::storage_read_in_loop_condition::{storage_read_in_loop_condition_at, storage_read_findings};
use crate::detectors::strict_equality::strict_equality_at;
use crate::detectors::unchecked_call_payload::unchecked_call_payload_at;
use crate::detectors::unprotected_initialization::{unprotected_initialization_findings, init_findings, InitRec};
use crate::detectors::unprotected_storage_variable::{unprotected_storage_findings, exposure_at, pass_state, guard_state};
use crate::detectors::unsafe_timestamp_usage::unsafe_timestamp_at;
use crate::detectors::unused_import::{unused_import_findings, unused_findings, ImportState};
use crate::detectors::weak_prng::weak_prng_at;
use crate::path::{path_lt, path_same, path_components, lemma_components_lt_trans, lemma_components_lt_irrefl,
    lemma_components_lt_total};
use crate::filter::{filtered, kept_entries, kept_files, option_items};
use crate::report::{Entry, EntryView, Severity, Sorting, view_le, files_view, file_view, report_with, report_with_all, same_file,
    may_precede, file_precedes};
use crate::search::{is_first, lead_count, lemma_lead_count, lemma_first_unique};
use crate::text::lower_seq;

verus! {

/// The number of entries over all files.
pub open spec fn entry_total(fs: Seq<(Seq<char>, Seq<EntryView>)>) -> int
    decreases fs.len(),
{
    if fs.len() == 0 {
        0
    } else {
        entry_total(fs.drop_last()) + fs.last().1.len()
    }
}

proof fn lemma_lead_count_bound<A>(s: Seq<A>, p: spec_fn(A) -> bool)
    ensures
        0 <= lead_count(s, p) <= s.len(),
    decreases s.len(),
{
    if s.len() > 0 {
        lemma_lead_count_bound(s.drop_first(), p);
    }
}

proof fn lemma_total_update(fs: Seq<(Seq<char>, Seq<EntryView>)>, k: int, x: (Seq<char>, Seq<EntryView>))
    requires
        0 <= k < fs.len(),
    ensures
        entry_total(fs.update(k, x)) == entry_total(fs) - fs[k].1.len() + x.1.len(),
    decreases fs.len(),
{
    if k < fs.len() - 1 {
        lemma_total_update(fs.drop_last(), k, x);
        assert(fs.update(k, x).drop_last() =~= fs.drop_last().update(k, x));
    } else {
        assert(fs.update(k, x).drop_last() =~= fs.drop_last());
    }
}

proof fn lemma_total_insert(fs: Seq<(Seq<char>, Seq<EntryView>)>, k: int, x: (Seq<char>, Seq<EntryView>))
    requires
        0 <= k <= fs.len(),
    ensures
        entry_total(fs.insert(k, x)) == entry_total(fs) + x.1.len(),
    decreases fs.len(),
{
    if k < fs.len() {
        lemma_total_insert(fs.drop_last(), k, x);
        assert(fs.insert(k, x).drop_last() =~= fs.drop_last().insert(k, x));
    } else {
        assert(fs.insert(k, x).drop_last() =~= fs);
    }
}

/// Adding an entry to a report adds exactly one entry to it.
pub proof fn law_add_entry_adds_one(fv: Seq<(Seq<char>, Seq<EntryView>)>, sorting: Sorting, file: Seq<char>, e: EntryView)
    ensures
        entry_total(report_with(fv, sorting, file, e)) == entry_total(fv) + 1,
{
    if exists|k: int| #[trigger] is_first(fv, same_file(file), k) {
        let k = choose|k: int| #[trigger] is_first(fv, same_file(file), k);
        let list = fv[k].1;
        let pos = lead_count(list, may_precede(sorting, e));
        lemma_lead_count_bound(list, may_precede(sorting, e));
        lemma_total_update(fv, k, (fv[k].0, list.insert(pos, e)));
    } else {
        lemma_lead_count_bound(fv, file_precedes(file));
        lemma_total_insert(fv, lead_count(fv, file_precedes(file)), (file, seq![e]));
    }
}

/// Adding a list of entries to a report adds as many entries as the list holds.
pub proof fn law_add_entries_adds_all(fv: Seq<(Seq<char>, Seq<EntryView>)>, sorting: Sorting, file: Seq<char>,
    es: Seq<EntryView>)
    ensures
        entry_total(report_with_all(fv, sorting, file, es)) == entry_total(fv) + es.len(),
    decreases es.len(),
{
    if es.len() > 0 {
        law_add_entries_adds_all(fv, sorting, file, es.drop_last());
        law_add_entry_adds_one(report_with_all(fv, sorting, file, es.drop_last()), sorting, file, es.last());
    }
}

/// Adding an entry to a report whose files all hold entries leaves every file holding entries.
pub proof fn law_add_entry_keeps_files_nonempty(fv: Seq<(Seq<char>, Seq<EntryView>)>, sorting: Sorting,
    file: Seq<char>, e: EntryView)
    requires
        forall|k: int| 0 <= k < fv.len() ==> (#[trigger] fv[k]).1.len() > 0,
    ensures
        forall|k: int| 0 <= k < report_with(fv, sorting, file, e).len()
            ==> (#[trigger] report_with(fv, sorting, file, e)[k]).1.len() > 0,
{
    let r = report_with(fv, sorting, file, e);
    if exists|k: int| #[trigger] is_first(fv, same_file(file), k) {
        let k = choose|k: int| #[trigger] is_first(fv, same_file(file), k);
        let list = fv[k].1;
        lemma_lead_count_bound(list, may_precede(sorting, e));
        assert forall|j: int| 0 <= j < r.len() implies (#[trigger] r[j]).1.len() > 0 by {
            if j != k {
                assert(r[j] == fv[j]);
            }
        }
    } else {
        let p = lead_count(fv, file_precedes(file));
        lemma_lead_count_bound(fv, file_precedes(file));
        assert forall|j: int| 0 <= j < r.len() implies (#[trigger] r[j]).1.len() > 0 by {
            if j < p {
                assert(r[j] == fv[j]);
            } else if j > p {
                assert(r[j] == fv[j - 1]);
            }
        }
    }
}

proof fn lemma_kept_entries_split(s: Seq<Entry>, items: Seq<Seq<char>>)
    ensures
        kept_entries(s, items, true).len() + kept_entries(s, items, false).len() == s.len(),
    decreases s.len(),
{
    if s.len() > 0 {
        lemma_kept_entries_split(s.drop_last(), items);
    }
}

proof fn lemma_kept_files_total(files: Seq<(String, Vec<Entry>)>, items: Seq<Seq<char>>)
    ensures
        entry_total(kept_files(files, items, true)) + entry_total(kept_files(files, items, false))
            == entry_total(files_view(files)),
    decreases files.len(),
{
    if files.len() > 0 {
        lemma_kept_files_total(files.drop_last(), items);
        lemma_kept_entries_split(files.last().1@, items);
        assert(files_view(files).drop_last() =~= files_view(files.drop_last()));
        let kt = kept_files(files, items, true);
        let kf = kept_files(files, items, false);
        let t = kept_entries(files.last().1@, items, true);
        let f = kept_entries(files.last().1@, items, false);
        if t.len() > 0 {
            assert(kt.drop_last() =~= kept_files(files.drop_last(), items, true));
        }
        if f.len() > 0 {
            assert(kf.drop_last() =~= kept_files(files.drop_last(), items, false));
        }
    }
}

/// The entries that selecting some severities keeps and those that rejecting the same severities
/// keeps together make up the whole report: each entry is kept by exactly one of the two filters.
pub proof fn law_select_and_reject_partition(files: Seq<(String, Vec<Entry>)>, values: Seq<Seq<char>>)
    requires
        values.len() > 0,
    ensures
        entry_total(filtered(files, values, Seq::empty())) + entry_total(filtered(files, Seq::empty(), values))
            == entry_total(files_view(files)),
{
    lemma_kept_files_total(files, option_items(values));
}

proof fn lemma_kept_entries_all(s: Seq<Entry>, items: Seq<Seq<char>>, keep_listed: bool)
    requires
        forall|k: int| 0 <= k < s.len()
            ==> #[trigger] items.contains(lower_seq(s[k].severity.name_view())) == keep_listed,
    ensures
        kept_entries(s, items, keep_listed) == s.map_values(|e: Entry| crate::report::entry_view(e)),
    decreases s.len(),
{
    if s.len() > 0 {
        lemma_kept_entries_all(s.drop_last(), items, keep_listed);
        assert(s.map_values(|e: Entry| crate::report::entry_view(e)).drop_last()
            =~= s.drop_last().map_values(|e: Entry| crate::report::entry_view(e)));
    } else {
        assert(s.map_values(|e: Entry| crate::report::entry_view(e)) =~= Seq::<EntryView>::empty());
    }
}

/// The lower-case names of all three severities are among `items`.
pub open spec fn lists_every_severity(items: Seq<Seq<char>>) -> bool {
    &&& items.contains(seq!['h', 'i', 'g', 'h'])
    &&& items.contains(seq!['m', 'e', 'd', 'i', 'u', 'm'])
    &&& items.contains(seq!['l', 'o', 'w'])
}

proof fn lemma_lower_names(sev: Severity)
    ensures
        lower_seq(sev.name_view()) == match sev {
            Severity::High => seq!['h', 'i', 'g', 'h'],
            Severity::Medium => seq!['m', 'e', 'd', 'i', 'u', 'm'],
            Severity::Low => seq!['l', 'o', 'w'],
        },
{
    match sev {
        Severity::High => {
            assert(lower_seq(sev.name_view()) =~= seq!['h', 'i', 'g', 'h']);
        },
        Severity::Medium => {
            assert(lower_seq(sev.name_view()) =~= seq!['m', 'e', 'd', 'i', 'u', 'm']);
        },
        Severity::Low => {
            assert(lower_seq(sev.name_view()) =~= seq!['l', 'o', 'w']);
        },
    }
}

proof fn lemma_kept_files_all(files: Seq<(String, Vec<Entry>)>, items: Seq<Seq<char>>, keep_listed: bool)
    requires
        lists_every_severity(items),
        keep_listed ==> forall|k: int| 0 <= k < files.len() ==> (#[trigger] files[k]).1@.len() > 0,
    ensures
        kept_files(files, items, keep_listed) == if keep_listed { files_view(files) } else { Seq::empty() },
    decreases files.len(),
{
    if files.len() > 0 {
        lemma_kept_files_all(files.drop_last(), items, keep_listed);
        let s = files.last().1@;
        assert forall|k: int| 0 <= k < s.len()
            implies #[trigger] items.contains(lower_seq(s[k].severity.name_view())) by {
            lemma_lower_names(s[k].severity);
        }
        if keep_listed {
            lemma_kept_entries_all(s, items, keep_listed);
        } else {
            lemma_kept_entries_none(s, items);
        }
        assert(files_view(files).drop_last() =~= files_view(files.drop_last()));
        if keep_listed {
            assert(files[files.len() - 1].1@.len() > 0);
            assert(files_view(files) =~= files_view(files.drop_last()).push(file_view(files.last())));
        }
    }
}

proof fn lemma_kept_entries_none(s: Seq<Entry>, items: Seq<Seq<char>>)
    requires
        forall|k: int| 0 <= k < s.len() ==> #[trigger] items.contains(lower_seq(s[k].severity.name_view())),
    ensures
        kept_entries(s, items, false).len() == 0,
    decreases s.len(),
{
    if s.len() > 0 {
        lemma_kept_entries_none(s.drop_last(), items);
        assert(items.contains(lower_seq(s[s.len() - 1].severity.name_view())));
    }
}

/// Selecting every severity keeps the whole report, when each of its files holds entries, as the
/// files of a report always do.
pub proof fn law_select_every_severity_keeps_all(files: Seq<(String, Vec<Entry>)>, values: Seq<Seq<char>>)
    requires
        values.len() > 0,
        lists_every_severity(option_items(values)),
        forall|k: int| 0 <= k < files.len() ==> (#[trigger] files[k]).1@.len() > 0,
    ensures
        filtered(files, values, Seq::empty()) == files_view(files),
{
    lemma_kept_files_all(files, option_items(values), true);
}

/// Rejecting every severity leaves nothing of the report.
pub proof fn law_reject_every_severity_drops_all(files: Seq<(String, Vec<Entry>)>, values: Seq<Seq<char>>)
    requires
        values.len() > 0,
        lists_every_severity(option_items(values)),
    ensures
        filtered(files, Seq::empty(), values) == Seq::<(Seq<char>, Seq<EntryView>)>::empty(),
{
    lemma_kept_files_all(files, option_items(values), false);
}

/// With no severity option given, the filter keeps every file and every entry of the report.
pub proof fn law_no_severity_option_keeps_all(files: Seq<(String, Vec<Entry>)>)
    ensures
        filtered(files, Seq::empty(), Seq::empty()) == files_view(files),
{
}

/// With no detector named, every detector runs, in the order of the detector list.
pub proof fn law_no_name_selects_every_detector()
    ensures
        chosen_upto(Seq::empty(), DETECTOR_COUNT as int) == Seq::new(DETECTOR_COUNT as nat, |d: int| d),
{
    lemma_chosen_upto_all(DETECTOR_COUNT as int);
}

proof fn lemma_chosen_upto_all(d: int)
    requires
        d >= 0,
    ensures
        chosen_upto(Seq::empty(), d) == Seq::new(d as nat, |i: int| i),
    decreases d,
{
    if d > 0 {
        lemma_chosen_upto_all(d - 1);
        assert(chosen_upto(Seq::empty(), d) =~= Seq::new(d as nat, |i: int| i));
    } else {
        assert(chosen_upto(Seq::<Seq<char>>::empty(), d) =~= Seq::new(d as nat, |i: int| i));
    }
}

/// The paths are in path order: no path sorts before one listed ahead of it.
pub open spec fn paths_in_order(s: Seq<Seq<char>>) -> bool {
    forall|i: int, j: int| 0 <= i < j < s.len() ==> !path_lt(#[trigger] s[j], #[trigger] s[i])
}

proof fn lemma_path_lt_asym(a: Seq<char>, b: Seq<char>)
    requires
        path_lt(a, b),
    ensures
        !path_lt(b, a),
{
    if path_lt(b, a) {
        lemma_components_lt_trans(path_components(a), path_components(b), path_components(a));
        lemma_components_lt_irrefl(path_components(a));
    }
}

proof fn lemma_path_not_lt(a: Seq<char>, b: Seq<char>, c: Seq<char>)
    requires
        !path_lt(b, a),
        !path_lt(c, b),
    ensures
        !path_lt(c, a),
{
    if path_lt(c, a) {
        lemma_components_lt_total(path_components(a), path_components(b));
        lemma_components_lt_total(path_components(b), path_components(c));
        if path_lt(a, b) {
            lemma_components_lt_trans(path_components(c), path_components(a), path_components(b));
            if path_lt(b, c) {
                lemma_components_lt_trans(path_components(c), path_components(b), path_components(c));
                lemma_components_lt_irrefl(path_components(c));
            }
        } else {
            if path_lt(b, c) {
                lemma_components_lt_trans(path_components(b), path_components(c), path_components(a));
            }
        }
    }
}

proof fn lemma_insert_path(t: Seq<Seq<char>>, x: Seq<char>)
    requires
        paths_in_order(t),
    ensures
        paths_in_order(insert_path(t, x)),
        insert_path(t, x).to_multiset() == t.to_multiset().insert(x),
    decreases t.len(),
{
    broadcast use vstd::seq_lib::group_to_multiset_ensures;
    let r = insert_path(t, x);
    if t.len() == 0 {
        assert(seq![x] =~= Seq::<Seq<char>>::empty().push(x));
        assert(t =~= Seq::<Seq<char>>::empty());
    } else if !path_lt(x, t.last()) {
        let n = t.len() - 1;
        assert forall|i: int, j: int| 0 <= i < j < r.len() implies !path_lt(#[trigger] r[j], #[trigger] r[i]) by {
            if j == t.len() {
                if i < n {
                    assert(!path_lt(t[n], t[i]));
                    lemma_path_not_lt(t[i], t[n], x);
                }
            } else {
                assert(r[i] == t[i] && r[j] == t[j]);
            }
        }
    } else {
        let t1 = t.drop_last();
        let r1 = insert_path(t1, x);
        assert(paths_in_order(t1)) by {
            assert forall|i: int, j: int| 0 <= i < j < t1.len() implies !path_lt(#[trigger] t1[j], #[trigger] t1[i]) by {
                assert(t1[i] == t[i] && t1[j] == t[j]);
            }
        }
        lemma_insert_path(t1, x);
        assert(t1.push(t.last()) =~= t);
        lemma_path_lt_asym(x, t.last());
        assert forall|i: int, j: int| 0 <= i < j < r.len() implies !path_lt(#[trigger] r[j], #[trigger] r[i]) by {
            if j == r1.len() {
                let y = r1[i];
                assert(r1.contains(y));
                assert(r1.to_multiset().count(y) > 0);
                if y != x {
                    assert(t1.to_multiset().count(y) > 0);
                    assert(t1.contains(y));
                    let k = choose|k: int| 0 <= k < t1.len() && t1[k] == y;
                    assert(t[k] == y);
                    assert(!path_lt(t[t.len() - 1], t[k]));
                }
            } else {
                assert(r[i] == r1[i] && r[j] == r1[j]);
            }
        }
    }
}

/// The modules are analyzed in path order, each path once for each time it is given: sorting
/// the paths orders them and keeps every path.
pub proof fn law_sorted_paths(s: Seq<Seq<char>>)
    ensures
        paths_in_order(sorted_paths(s)),
        sorted_paths(s).to_multiset() == s.to_multiset(),
    decreases s.len(),
{
    broadcast use vstd::seq_lib::group_to_multiset_ensures;
    if s.len() > 0 {
        law_sorted_paths(s.drop_last());
        lemma_insert_path(sorted_paths(s.drop_last()), s.last());
        assert(s.drop_last().push(s.last()) =~= s);
    } else {
        assert(s.to_multiset() =~= sorted_paths(s).to_multiset());
    }
}

/// Every finding of `fs` has severity `s`.
pub open spec fn all_of_severity(fs: Seq<FindingView>, s: Severity) -> bool {
    forall|j: int| 0 <= j < fs.len() ==> (#[trigger] fs[j]).2 == s
}

proof fn lemma_gather_severity<'a>(evs: Seq<Event<'a>>, f: spec_fn(int, Event<'a>) -> Seq<FindingView>, s: Severity)
    requires
        forall|i: int| 0 <= i < evs.len() ==> all_of_severity(#[trigger] f(i, evs[i]), s),
    ensures
        all_of_severity(gather(evs, f), s),
    decreases evs.len(),
{
    if evs.len() > 0 {
        let last = f(evs.len() - 1, evs.last());
        assert(all_of_severity(last, s));
        assert forall|i: int| 0 <= i < evs.drop_last().len()
            implies all_of_severity(#[trigger] f(i, evs.drop_last()[i]), s) by {
            assert(evs.drop_last()[i] == evs[i]);
        }
        lemma_gather_severity(evs.drop_last(), f, s);
        let g = gather(evs.drop_last(), f);
        assert forall|j: int| 0 <= j < (g + last).len() implies (#[trigger] (g + last)[j]).2 == s by {
            if j < g.len() {
                assert((g + last)[j] == g[j]);
            } else {
                assert((g + last)[j] == last[j - g.len()]);
            }
        }
    }
}

proof fn lemma_concat_severity(a: Seq<FindingView>, b: Seq<FindingView>, s: Severity)
    requires
        all_of_severity(a, s),
        all_of_severity(b, s),
    ensures
        all_of_severity(a + b, s),
{
    assert forall|j: int| 0 <= j < (a + b).len() implies (#[trigger] (a + b)[j]).2 == s by {
        if j < a.len() {
            assert((a + b)[j] == a[j]);
        } else {
            assert((a + b)[j] == b[j - a.len()]);
        }
    }
}


proof fn lemma_unread_severity(i: int, loc: Seq<char>, bs: Seq<Assign>, key: (int, int), blk: (int, int))
    ensures
        all_of_severity(unread_findings(i, loc, bs, key, blk), Severity::High),
    decreases bs.len(),
{
    if bs.len() > 0 {
        lemma_unread_severity(i, loc, bs.drop_last(), key, blk);
        let whole = unread_findings(i, loc, bs, key, blk);
        let head = unread_findings(i, loc, bs.drop_last(), key, blk);
        let tail = whole.subrange(head.len() as int, whole.len() as int);
        assert(whole =~= head + tail);
        lemma_concat_severity(head, tail, Severity::High);
    }
}


proof fn lemma_manipulatable_severity(i: int, loc: Seq<char>, st: Seq<Statement>, calls: Seq<Seq<char>>, used: Seq<Seq<char>>)
    ensures
        all_of_severity(manipulatable_findings(i, loc, st, calls, used), Severity::Medium),
    decreases st.len(),
{
    if st.len() > 0 {
        lemma_manipulatable_severity(i, loc, st.drop_last(), calls, used);
        let whole = manipulatable_findings(i, loc, st, calls, used);
        let head = manipulatable_findings(i, loc, st.drop_last(), calls, used);
        let tail = whole.subrange(head.len() as int, whole.len() as int);
        assert(whole =~= head + tail);
        lemma_concat_severity(head, tail, Severity::Medium);
    }
}


proof fn lemma_unlogged_severity(i: int, loc: Seq<char>, key: (int, int), b: (int, int), ws: Seq<((int, int), (int, int), Ident, Ident)>, lg: Seq<((int, int), (int, int), Seq<char>)>)
    ensures
        all_of_severity(unlogged_findings(i, loc, key, b, ws, lg), Severity::Medium),
    decreases ws.len(),
{
    if ws.len() > 0 {
        lemma_unlogged_severity(i, loc, key, b, ws.drop_last(), lg);
        let whole = unlogged_findings(i, loc, key, b, ws, lg);
        let head = unlogged_findings(i, loc, key, b, ws.drop_last(), lg);
        let tail = whole.subrange(head.len() as int, whole.len() as int);
        assert(whole =~= head + tail);
        lemma_concat_severity(head, tail, Severity::Medium);
    }
}


proof fn lemma_msg_amount_severity(i: int, loc: Seq<char>, key: (int, int), b: (int, int), calls: Seq<((int, int), (int, int), Expr)>)
    ensures
        all_of_severity(msg_amount_findings(i, loc, key, b, calls), Severity::Medium),
    decreases calls.len(),
{
    if calls.len() > 0 {
        lemma_msg_amount_severity(i, loc, key, b, calls.drop_last());
        let whole = msg_amount_findings(i, loc, key, b, calls);
        let head = msg_amount_findings(i, loc, key, b, calls.drop_last());
        let tail = whole.subrange(head.len() as int, whole.len() as int);
        assert(whole =~= head + tail);
        lemma_concat_severity(head, tail, Severity::Medium);
    }
}


proof fn lemma_unchecked_severity(i: int, loc: Seq<char>, key: (int, int), args: Seq<FnArg>, ty: Seq<char>, checks: Seq<CheckRec>)
    ensures
        all_of_severity(unchecked_findings(i, loc, key, args, ty, checks), Severity::Low),
    decreases args.len(),
{
    if args.len() > 0 {
        lemma_unchecked_severity(i, loc, key, args.drop_last(), ty, checks);
        let whole = unchecked_findings(i, loc, key, args, ty, checks);
        let head = unchecked_findings(i, loc, key, args.drop_last(), ty, checks);
        let tail = whole.subrange(head.len() as int, whole.len() as int);
        assert(whole =~= head + tail);
        lemma_concat_severity(head, tail, Severity::Low);
    }
}


proof fn lemma_comparison_severity(i: int, loc: Seq<char>, es: Seq<Expr>)
    ensures
        all_of_severity(comparison_findings(i, loc, es), Severity::Low),
    decreases es.len(),
{
    if es.len() > 0 {
        lemma_comparison_severity(i, loc, es.drop_last());
        let whole = comparison_findings(i, loc, es);
        let head = comparison_findings(i, loc, es.drop_last());
        let tail = whole.subrange(head.len() as int, whole.len() as int);
        assert(whole =~= head + tail);
        lemma_concat_severity(head, tail, Severity::Low);
    }
}


proof fn lemma_storage_read_severity(i: int, loc: Seq<char>, reads: Seq<Expr>)
    ensures
        all_of_severity(storage_read_findings(i, loc, reads), Severity::Low),
    decreases reads.len(),
{
    if reads.len() > 0 {
        lemma_storage_read_severity(i, loc, reads.drop_last());
        let whole = storage_read_findings(i, loc, reads);
        let head = storage_read_findings(i, loc, reads.drop_last());
        let tail = whole.subrange(head.len() as int, whole.len() as int);
        assert(whole =~= head + tail);
        lemma_concat_severity(head, tail, Severity::Low);
    }
}


proof fn lemma_block_severity(i: int, fname: Seq<char>, bs: Seq<Binding>, key: (int, int), blk: (int, int))
    ensures
        all_of_severity(block_findings(i, fname, bs, key, blk), Severity::High),
    decreases bs.len(),
{
    if bs.len() > 0 {
        lemma_block_severity(i, fname, bs.drop_last(), key, blk);
        let whole = block_findings(i, fname, bs, key, blk);
        let head = block_findings(i, fname, bs.drop_last(), key, blk);
        let tail = whole.subrange(head.len() as int, whole.len() as int);
        assert(whole =~= head + tail);
        lemma_concat_severity(head, tail, Severity::High);
    }
}


proof fn lemma_locking_severity(n: int, ls: Seq<(int, Seq<char>)>)
    ensures
        all_of_severity(locking_findings(n, ls), Severity::High),
    decreases ls.len(),
{
    if ls.len() > 0 {
        lemma_locking_severity(n, ls.drop_last());
        let whole = locking_findings(n, ls);
        let head = locking_findings(n, ls.drop_last());
        let tail = whole.subrange(head.len() as int, whole.len() as int);
        assert(whole =~= head + tail);
        lemma_concat_severity(head, tail, Severity::High);
    }
}


proof fn lemma_immutable_severity(n: int, fields: Seq<StorageField>, written: Seq<Seq<char>>)
    ensures
        all_of_severity(immutable_findings(n, fields, written), Severity::Low),
    decreases fields.len(),
{
    if fields.len() > 0 {
        lemma_immutable_severity(n, fields.drop_last(), written);
        let whole = immutable_findings(n, fields, written);
        let head = immutable_findings(n, fields.drop_last(), written);
        let tail = whole.subrange(head.len() as int, whole.len() as int);
        assert(whole =~= head + tail);
        lemma_concat_severity(head, tail, Severity::Low);
    }
}


proof fn lemma_init_severity<'a>(evs: Seq<Event<'a>>, all: Seq<InitRec>, recs: Seq<InitRec>)
    ensures
        all_of_severity(init_findings(evs, all, recs), Severity::High),
    decreases recs.len(),
{
    if recs.len() > 0 {
        lemma_init_severity(evs, all, recs.drop_last());
        let whole = init_findings(evs, all, recs);
        let head = init_findings(evs, all, recs.drop_last());
        let tail = whole.subrange(head.len() as int, whole.len() as int);
        assert(whole =~= head + tail);
        lemma_concat_severity(head, tail, Severity::High);
    }
}


proof fn lemma_unused_severity(n: int, st: ImportState)
    ensures
        all_of_severity(unused_findings(n, st), Severity::Low),
    decreases st.len(),
{
    if st.len() > 0 {
        lemma_unused_severity(n, st.drop_last());
        let whole = unused_findings(n, st);
        let head = unused_findings(n, st.drop_last());
        let tail = whole.subrange(head.len() as int, whole.len() as int);
        assert(whole =~= head + tail);
        lemma_concat_severity(head, tail, Severity::Low);
    }
}

proof fn lemma_unread_severity_all()
    ensures
        forall|i: int, loc: Seq<char>, bs: Seq<Assign>, key: (int, int), blk: (int, int)| all_of_severity(#[trigger] unread_findings(i, loc, bs, key, blk), Severity::High),
{
    assert forall|i: int, loc: Seq<char>, bs: Seq<Assign>, key: (int, int), blk: (int, int)| all_of_severity(#[trigger] unread_findings(i, loc, bs, key, blk), Severity::High) by {
        lemma_unread_severity(i, loc, bs, key, blk);
    }
}


proof fn lemma_manipulatable_severity_all()
    ensures
        forall|i: int, loc: Seq<char>, st: Seq<Statement>, calls: Seq<Seq<char>>, used: Seq<Seq<char>>| all_of_severity(#[trigger] manipulatable_findings(i, loc, st, calls, used), Severity::Medium),
{
    assert forall|i: int, loc: Seq<char>, st: Seq<Statement>, calls: Seq<Seq<char>>, used: Seq<Seq<char>>| all_of_severity(#[trigger] manipulatable_findings(i, loc, st, calls, used), Severity::Medium) by {
        lemma_manipulatable_severity(i, loc, st, calls, used);
    }
}


proof fn lemma_unlogged_severity_all()
    ensures
        forall|i: int, loc: Seq<char>, key: (int, int), b: (int, int), ws: Seq<((int, int), (int, int), Ident, Ident)>, lg: Seq<((int, int), (int, int), Seq<char>)>| all_of_severity(#[trigger] unlogged_findings(i, loc, key, b, ws, lg), Severity::Medium),
{
    assert forall|i: int, loc: Seq<char>, key: (int, int), b: (int, int), ws: Seq<((int, int), (int, int), Ident, Ident)>, lg: Seq<((int, int), (int, int), Seq<char>)>| all_of_severity(#[trigger] unlogged_findings(i, loc, key, b, ws, lg), Severity::Medium) by {
        lemma_unlogged_severity(i, loc, key, b, ws, lg);
    }
}


proof fn lemma_msg_amount_severity_all()
    ensures
        forall|i: int, loc: Seq<char>, key: (int, int), b: (int, int), calls: Seq<((int, int), (int, int), Expr)>| all_of_severity(#[trigger] msg_amount_findings(i, loc, key, b, calls), Severity::Medium),
{
    assert forall|i: int, loc: Seq<char>, key: (int, int), b: (int, int), calls: Seq<((int, int), (int, int), Expr)>| all_of_severity(#[trigger] msg_amount_findings(i, loc, key, b, calls), Severity::Medium) by {
        lemma_msg_amount_severity(i, loc, key, b, calls);
    }
}


proof fn lemma_unchecked_severity_all()
    ensures
        forall|i: int, loc: Seq<char>, key: (int, int), args: Seq<FnArg>, ty: Seq<char>, checks: Seq<CheckRec>| all_of_severity(#[trigger] unchecked_findings(i, loc, key, args, ty, checks), Severity::Low),
{
    assert forall|i: int, loc: Seq<char>, key: (int, int), args: Seq<FnArg>, ty: Seq<char>, checks: Seq<CheckRec>| all_of_severity(#[trigger] unchecked_findings(i, loc, key, args, ty, checks), Severity::Low) by {
        lemma_unchecked_severity(i, loc, key, args, ty, checks);
    }
}


proof fn lemma_comparison_severity_all()
    ensures
        forall|i: int, loc: Seq<char>, es: Seq<Expr>| all_of_severity(#[trigger] comparison_findings(i, loc, es), Severity::Low),
{
    assert forall|i: int, loc: Seq<char>, es: Seq<Expr>| all_of_severity(#[trigger] comparison_findings(i, loc, es), Severity::Low) by {
        lemma_comparison_severity(i, loc, es);
    }
}


proof fn lemma_storage_read_severity_all()
    ensures
        forall|i: int, loc: Seq<char>, reads: Seq<Expr>| all_of_severity(#[trigger] storage_read_findings(i, loc, reads), Severity::Low),
{
    assert forall|i: int, loc: Seq<char>, reads: Seq<Expr>| all_of_severity(#[trigger] storage_read_findings(i, loc, reads), Severity::Low) by {
        lemma_storage_read_severity(i, loc, reads);
    }
}


proof fn lemma_block_severity_all()
    ensures
        forall|i: int, fname: Seq<char>, bs: Seq<Binding>, key: (int, int), blk: (int, int)| all_of_severity(#[trigger] block_findings(i, fname, bs, key, blk), Severity::High),
{
    assert forall|i: int, fname: Seq<char>, bs: Seq<Binding>, key: (int, int), blk: (int, int)| all_of_severity(#[trigger] block_findings(i, fname, bs, key, blk), Severity::High) by {
        lemma_block_severity(i, fname, bs, key, blk);
    }
}


proof fn lemma_locking_severity_all()
    ensures
        forall|n: int, ls: Seq<(int, Seq<char>)>| all_of_severity(#[trigger] locking_findings(n, ls), Severity::High),
{
    assert forall|n: int, ls: Seq<(int, Seq<char>)>| all_of_severity(#[trigger] locking_findings(n, ls), Severity::High) by {
        lemma_locking_severity(n, ls);
    }
}


proof fn lemma_immutable_severity_all()
    ensures
        forall|n: int, fields: Seq<StorageField>, written: Seq<Seq<char>>| all_of_severity(#[trigger] immutable_findings(n, fields, written), Severity::Low),
{
    assert forall|n: int, fields: Seq<StorageField>, written: Seq<Seq<char>>| all_of_severity(#[trigger] immutable_findings(n, fields, written), Severity::Low) by {
        lemma_immutable_severity(n, fields, written);
    }
}


proof fn lemma_init_severity_all<'a>(evs: Seq<Event<'a>>)
    ensures
        forall|all: Seq<InitRec>, recs: Seq<InitRec>| all_of_severity(#[trigger] init_findings(evs, all, recs), Severity::High),
{
    assert forall|all: Seq<InitRec>, recs: Seq<InitRec>| all_of_severity(#[trigger] init_findings(evs, all, recs), Severity::High) by {
        lemma_init_severity(evs, all, recs);
    }
}


proof fn lemma_unused_severity_all()
    ensures
        forall|n: int, st: ImportState| all_of_severity(#[trigger] unused_findings(n, st), Severity::Low),
{
    assert forall|n: int, st: ImportState| all_of_severity(#[trigger] unused_findings(n, st), Severity::Low) by {
        lemma_unused_severity(n, st);
    }
}

/// The severity of each detector, as the table of detectors lists it, in the order of the detector list.
pub open spec fn documented_severity(d: int) -> Severity {
    if d == 0 {
        Severity::High
    } else 
    if d == 1 {
        Severity::High
    } else 
    if d == 2 {
        Severity::Low
    } else 
    if d == 3 {
        Severity::High
    } else 
    if d == 4 {
        Severity::Low
    } else 
    if d == 5 {
        Severity::Low
    } else 
    if d == 6 {
        Severity::Medium
    } else 
    if d == 7 {
        Severity::Medium
    } else 
    if d == 8 {
        Severity::Low
    } else 
    if d == 9 {
        Severity::High
    } else 
    if d == 10 {
        Severity::Low
    } else 
    if d == 11 {
        Severity::Medium
    } else 
    if d == 12 {
        Severity::Medium
    } else 
    if d == 13 {
        Severity::Medium
    } else 
    if d == 14 {
        Severity::Low
    } else 
    if d == 15 {
        Severity::High
    } else 
    if d == 16 {
        Severity::Low
    } else 
    if d == 17 {
        Severity::Medium
    } else 
    if d == 18 {
        Severity::Low
    } else 
    if d == 19 {
        Severity::High
    } else 
    if d == 20 {
        Severity::Low
    } else 
    if d == 21 {
        Severity::High
    } else 
    if d == 22 {
        Severity::Low
    } else 
    if d == 23 {
        Severity::High
    } else 
    if d == 24 {
        Severity::High
    } else 
    if d == 25 {
        Severity::Medium
    } else 
    if d == 26 {
        Severity::Low
    } else {
        Severity::Medium
    }
}

/// Each detector reports every finding with the severity that the table of detectors lists for it.
pub proof fn law_detector_severity<'a>(d: int, m: Module, evs: Seq<Event<'a>>)
    requires
        0 <= d < DETECTOR_COUNT,
    ensures
        all_of_severity(detector_findings(d, m, evs), documented_severity(d)),
{
    if d == 0 {
        assert forall|i: int| 0 <= i < evs.len()
            implies all_of_severity(#[trigger] arbitrary_asset_transfer_at(evs, i, evs[i]), Severity::High) by { }
        lemma_gather_severity(evs, |i: int, ev: Event<'a>| arbitrary_asset_transfer_at(evs, i, ev), Severity::High);
    } else 
    if d == 1 {
        assert forall|i: int| 0 <= i < evs.len()
            implies all_of_severity(#[trigger] arbitrary_code_execution_at(evs, i, evs[i]), Severity::High) by { }
        lemma_gather_severity(evs, |i: int, ev: Event<'a>| arbitrary_code_execution_at(evs, i, ev), Severity::High);
    } else 
    if d == 2 {
        assert forall|i: int| 0 <= i < evs.len()
            implies all_of_severity(#[trigger] boolean_comparison_at(i, evs[i]), Severity::Low) by { }
        lemma_gather_severity(evs, |i: int, ev: Event<'a>| boolean_comparison_at(i, ev), Severity::Low);
    } else 
    if d == 3 {
        lemma_unread_severity_all();
        assert forall|i: int| 0 <= i < evs.len()
            implies all_of_severity(#[trigger] discarded_assignment_at(evs, i, evs[i]), Severity::High) by { }
        lemma_gather_severity(evs, |i: int, ev: Event<'a>| discarded_assignment_at(evs, i, ev), Severity::High);
    } else 
    if d == 4 {
        assert forall|i: int| 0 <= i < evs.len()
            implies all_of_severity(#[trigger] division_before_multiplication_at(evs, i, evs[i]), Severity::Low) by { }
        lemma_gather_severity(evs, |i: int, ev: Event<'a>| division_before_multiplication_at(evs, i, ev), Severity::Low);
    } else 
    if d == 5 {
        assert forall|i: int| 0 <= i < evs.len()
            implies all_of_severity(#[trigger] explicit_return_at(i, evs[i]), Severity::Low) by { }
        lemma_gather_severity(evs, |i: int, ev: Event<'a>| explicit_return_at(i, ev), Severity::Low);
    } else 
    if d == 6 {
        assert forall|i: int| 0 <= i < evs.len()
            implies all_of_severity(#[trigger] external_call_at(evs, i, evs[i]), Severity::Medium) by { }
        lemma_gather_severity(evs, |i: int, ev: Event<'a>| external_call_at(evs, i, ev), Severity::Medium);
    } else 
    if d == 7 {
        assert forall|i: int| 0 <= i < evs.len()
            implies all_of_severity(#[trigger] inline_assembly_at(i, evs[i]), Severity::Medium) by { }
        lemma_gather_severity(evs, |i: int, ev: Event<'a>| inline_assembly_at(i, ev), Severity::Medium);
    } else 
    if d == 8 {
        assert forall|i: int| 0 <= i < evs.len()
            implies all_of_severity(#[trigger] large_literal_at(i, evs[i]), Severity::Low) by { }
        lemma_gather_severity(evs, |i: int, ev: Event<'a>| large_literal_at(i, ev), Severity::Low);
    } else 
    if d == 9 {
        lemma_locking_severity_all();
        assert(all_of_severity(locked_native_asset_findings(evs), Severity::High)) by { }
    } else 
    if d == 10 {
        assert forall|i: int| 0 <= i < evs.len()
            implies all_of_severity(#[trigger] magic_number_at(evs, i, evs[i]), Severity::Low) by { }
        lemma_gather_severity(evs, |i: int, ev: Event<'a>| magic_number_at(evs, i, ev), Severity::Low);
    } else 
    if d == 11 {
        lemma_manipulatable_severity_all();
        assert forall|i: int| 0 <= i < evs.len()
            implies all_of_severity(#[trigger] manipulatable_balance_at(evs, i, evs[i]), Severity::Medium) by { }
        lemma_gather_severity(evs, |i: int, ev: Event<'a>| manipulatable_balance_at(evs, i, ev), Severity::Medium);
    } else 
    if d == 12 {
        lemma_unlogged_severity_all();
        assert forall|i: int| 0 <= i < evs.len()
            implies all_of_severity(#[trigger] missing_logs_at(evs, i, evs[i]), Severity::Medium) by { }
        lemma_gather_severity(evs, |i: int, ev: Event<'a>| missing_logs_at(evs, i, ev), Severity::Medium);
    } else 
    if d == 13 {
        lemma_msg_amount_severity_all();
        assert forall|i: int| 0 <= i < evs.len()
            implies all_of_severity(#[trigger] msg_amount_at(evs, i, evs[i]), Severity::Medium) by { }
        lemma_gather_severity(evs, |i: int, ev: Event<'a>| msg_amount_at(evs, i, ev), Severity::Medium);
    } else 
    if d == 14 {
        lemma_unchecked_severity_all();
        assert forall|i: int| 0 <= i < evs.len()
            implies all_of_severity(#[trigger] non_zero_identity_at(evs, i, evs[i]), Severity::Low) by { }
        lemma_gather_severity(evs, |i: int, ev: Event<'a>| non_zero_identity_at(evs, i, ev), Severity::Low);
    } else 
    if d == 15 {
        assert forall|i: int| 0 <= i < evs.len()
            implies all_of_severity(#[trigger] infinite_loop_at(evs, i, evs[i]), Severity::High) by { }
        lemma_gather_severity(evs, |i: int, ev: Event<'a>| infinite_loop_at(evs, i, ev), Severity::High);
    } else 
    if d == 16 {
        lemma_comparison_severity_all();
        assert forall|i: int| 0 <= i < evs.len()
            implies all_of_severity(#[trigger] redundant_comparison_at(evs, i, evs[i]), Severity::Low) by { }
        lemma_gather_severity(evs, |i: int, ev: Event<'a>| redundant_comparison_at(evs, i, ev), Severity::Low);
    } else 
    if d == 17 {
        assert forall|i: int| 0 <= i < evs.len()
            implies all_of_severity(#[trigger] redundant_storage_access_at(evs, i, evs[i]), Severity::Medium) by { }
        lemma_gather_severity(evs, |i: int, ev: Event<'a>| redundant_storage_access_at(evs, i, ev), Severity::Medium);
    } else 
    if d == 18 {
        lemma_immutable_severity_all();
        assert(all_of_severity(storage_field_mutability_findings(evs), Severity::Low)) by { }
    } else 
    if d == 19 {
        lemma_block_severity_all();
        assert forall|i: int| 0 <= i < evs.len()
            implies all_of_severity(#[trigger] storage_not_updated_at(evs, i, evs[i]), Severity::High) by { }
        lemma_gather_severity(evs, |i: int, ev: Event<'a>| storage_not_updated_at(evs, i, ev), Severity::High);
    } else 
    if d == 20 {
        lemma_storage_read_severity_all();
        assert forall|i: int| 0 <= i < evs.len()
            implies all_of_severity(#[trigger] storage_read_in_loop_condition_at(i, evs[i]), Severity::Low) by { }
        lemma_gather_severity(evs, |i: int, ev: Event<'a>| storage_read_in_loop_condition_at(i, ev), Severity::Low);
    } else 
    if d == 21 {
        assert forall|i: int| 0 <= i < evs.len()
            implies all_of_severity(#[trigger] strict_equality_at(evs, i, evs[i]), Severity::High) by { }
        lemma_gather_severity(evs, |i: int, ev: Event<'a>| strict_equality_at(evs, i, ev), Severity::High);
    } else 
    if d == 22 {
        assert forall|i: int| 0 <= i < evs.len()
            implies all_of_severity(#[trigger] unchecked_call_payload_at(evs, i, evs[i]), Severity::Low) by { }
        lemma_gather_severity(evs, |i: int, ev: Event<'a>| unchecked_call_payload_at(evs, i, ev), Severity::Low);
    } else 
    if d == 23 {
        lemma_init_severity_all(evs);
        assert(all_of_severity(unprotected_initialization_findings(evs), Severity::High)) by { }
    } else 
    if d == 24 {
        let n = evs.len() as int;
        let f = |i: int, ev: Event<'a>| exposure_at(n, pass_state(m, guard_state(evs), evs.take(i)), ev);
        assert forall|i: int| 0 <= i < evs.len() implies all_of_severity(#[trigger] f(i, evs[i]), Severity::High) by { }
        lemma_gather_severity(evs, f, Severity::High);
        assert(unprotected_storage_findings(m, evs) == gather(evs, f));
    } else 
    if d == 25 {
        assert forall|i: int| 0 <= i < evs.len()
            implies all_of_severity(#[trigger] unsafe_timestamp_at(evs, i, evs[i]), Severity::Medium) by { }
        lemma_gather_severity(evs, |i: int, ev: Event<'a>| unsafe_timestamp_at(evs, i, ev), Severity::Medium);
    } else 
    if d == 26 {
        lemma_unused_severity_all();
        assert(all_of_severity(unused_import_findings(evs), Severity::Low)) by { }
    } else 
    {
        assert forall|i: int| 0 <= i < evs.len()
            implies all_of_severity(#[trigger] weak_prng_at(evs, i, evs[i]), Severity::Medium) by { }
        lemma_gather_severity(evs, |i: int, ev: Event<'a>| weak_prng_at(evs, i, ev), Severity::Medium);
    }
}

/// The number of line breaks in `s`.
pub open spec fn line_breaks(s: Seq<char>) -> int
    decreases s.len(),
{
    if s.len() == 0 {
        0
    } else {
        line_breaks(s.drop_last()) + if s.last() == '\n' { 1int } else { 0int }
    }
}

/// A line break follows position `o` in `s`.
pub open spec fn break_after(s: Seq<char>, o: int) -> bool {
    exists|j: int| o < j < s.len() && s[j] == '\n'
}

/// The line ended by a line break that holds position `o` of `s`: the character there is no line
/// break and a line break follows it, and its line is one more than the line breaks before it.
pub open spec fn break_line(s: Seq<char>, o: int) -> Option<int> {
    if 0 <= o < s.len() && s[o] != '\n' && break_after(s, o) {
        Some(line_breaks(s.take(o)) + 1)
    } else {
        None
    }
}

proof fn lemma_line_start_after_break(s: Seq<char>, o: int)
    requires
        0 <= o < s.len(),
        s[o] == '\n',
    ensures
        last_line_start(s) > o,
    decreases s.len(),
{
    if s.last() != '\n' {
        lemma_line_start_after_break(s.drop_last(), o);
    }
}

proof fn lemma_line_start_before(s: Seq<char>, o: int)
    requires
        0 <= o,
        !break_after(s, o - 1),
    ensures
        last_line_start(s) <= o,
    decreases s.len(),
{
    if s.len() > 0 {
        if s.last() == '\n' {
            assert(s[s.len() - 1] == '\n');
        } else {
            let t = s.drop_last();
            assert(!break_after(t, o - 1)) by {
                if break_after(t, o - 1) {
                    let j = choose|j: int| o - 1 < j < t.len() && t[j] == '\n';
                    assert(s[j] == '\n');
                }
            }
            lemma_line_start_before(t, o);
        }
    }
}

proof fn lemma_ranges_count(s: Seq<char>)
    ensures
        break_ranges(s).len() == line_breaks(s),
    decreases s.len(),
{
    if s.len() > 0 {
        lemma_ranges_count(s.drop_last());
    }
}

proof fn lemma_breaks_prefix(s: Seq<char>, o: int)
    requires
        0 <= o <= s.len(),
        !break_after(s, o - 1),
    ensures
        line_breaks(s) == line_breaks(s.take(o)),
    decreases s.len(),
{
    if s.len() > o {
        let t = s.drop_last();
        assert(s[s.len() - 1] != '\n');
        assert(!break_after(t, o - 1)) by {
            if break_after(t, o - 1) {
                let j = choose|j: int| o - 1 < j < t.len() && t[j] == '\n';
                assert(s[j] == '\n');
            }
        }
        lemma_breaks_prefix(t, o);
        assert(t.take(o) =~= s.take(o));
    } else {
        assert(s.take(o) =~= s);
    }
}

proof fn lemma_break_line_of_position(s: Seq<char>, o: int)
    requires
        0 <= o,
    ensures
        line_of(break_ranges(s), o) == break_line(s, o),
    decreases s.len(),
{
    if s.len() > 0 {
        let n = s.len() as int;
        let t = s.drop_last();
        lemma_break_line_of_position(t, o);
        if s.last() != '\n' {
            if o < n - 1 {
                assert(break_after(s, o) == break_after(t, o)) by {
                    if break_after(s, o) {
                        let j = choose|j: int| o < j < s.len() && s[j] == '\n';
                        assert(t[j] == '\n');
                    }
                    if break_after(t, o) {
                        let j = choose|j: int| o < j < t.len() && t[j] == '\n';
                        assert(s[j] == '\n');
                    }
                }
                assert(t.take(o) =~= s.take(o));
            } else if o == n - 1 {
                assert(!break_after(s, o));
            }
        } else {
            let r = (last_line_start(t), n - 1);
            assert(break_ranges(s) == break_ranges(t).push(r));
            let rs = break_ranges(t);
            assert(rs.push(r).drop_last() =~= rs);
            if o < n - 1 {
                assert(s[o] == t[o]);
                assert(break_after(s, o)) by {
                    assert(s[n - 1] == '\n');
                }
                if break_line(t, o) is Some {
                    assert(t.take(o) =~= s.take(o));
                    assert(break_after(t, o));
                } else if t[o] == '\n' {
                    lemma_line_start_after_break(t, o);
                } else {
                    assert(!break_after(t, o));
                    lemma_line_start_before(t, o);
                    lemma_ranges_count(t);
                    lemma_breaks_prefix(t, o);
                    assert(t.take(o) =~= s.take(o));
                }
            }
        }
    }
}

/// The line that a finding at position `o` gets: where the character there is no line break,
/// its line is one more than the line breaks before it, the last line included whether or not
/// a line break ends it; a line break itself, or a position past the end, lies on no line.
pub proof fn law_line_of_position(s: Seq<char>, o: int)
    requires
        0 <= o,
    ensures
        line_of(line_ranges(s), o) == if o < s.len() && s[o] != '\n' {
            Some(line_breaks(s.take(o)) + 1)
        } else {
            None::<int>
        },
{
    lemma_break_line_of_position(s, o);
    let br = break_ranges(s);
    let l = last_line_start(s);
    if l < s.len() {
        let r = (l, s.len() as int);
        assert(line_ranges(s) == br.push(r));
        assert(br.push(r).drop_last() =~= br);
        if break_line(s, o) is None {
            if o < s.len() && s[o] != '\n' {
                assert(!break_after(s, o));
                lemma_line_start_before(s, o);
                lemma_ranges_count(s);
                lemma_breaks_prefix(s, o);
            } else if o < s.len() {
                lemma_line_start_after_break(s, o);
            }
        }
    } else {
        if break_line(s, o) is None && o < s.len() && s[o] != '\n' {
            assert(!break_after(s, o));
            lemma_line_start_before(s, o);
        }
    }
}


/// Adding an entry changes only the file of its path: when a file of that path is listed, the
/// first such file gets the entry among its own (the same entries with the new one added) and
/// every other file stays; else a new file holding the entry alone is inserted among the files.
pub proof fn law_add_entry_places_entry(fv: Seq<(Seq<char>, Seq<EntryView>)>, sorting: Sorting, file: Seq<char>,
    e: EntryView)
    ensures
        ({
            let r = report_with(fv, sorting, file, e);
            if exists|k: int| #[trigger] is_first(fv, same_file(file), k) {
                exists|k: int| #[trigger] is_first(fv, same_file(file), k)
                    && r.len() == fv.len()
                    && (forall|j: int| 0 <= j < fv.len() && j != k ==> #[trigger] r[j] == fv[j])
                    && r[k].0 == fv[k].0
                    && r[k].1.to_multiset() == fv[k].1.to_multiset().insert(e)
            } else {
                exists|pos: int| 0 <= pos <= fv.len() && r == fv.insert(pos, (file, seq![e]))
            }
        }),
{
    broadcast use vstd::seq_lib::group_to_multiset_ensures;
    if exists|k: int| #[trigger] is_first(fv, same_file(file), k) {
        let k = choose|k: int| #[trigger] is_first(fv, same_file(file), k);
        let list = fv[k].1;
        let pos = lead_count(list, may_precede(sorting, e));
        lemma_lead_count_bound(list, may_precede(sorting, e));
        let r = report_with(fv, sorting, file, e);
        assert(r == fv.update(k, (fv[k].0, list.insert(pos, e))));
        assert(r[k].1 == list.insert(pos, e));
        assert(r[k].1.to_multiset() == list.to_multiset().insert(e));
        assert(forall|j: int| 0 <= j < fv.len() && j != k ==> #[trigger] r[j] == fv[j]);
        assert(is_first(fv, same_file(file), k));
    } else {
        lemma_lead_count_bound(fv, file_precedes(file));
        let p = lead_count(fv, file_precedes(file));
        assert(report_with(fv, sorting, file, e) == fv.insert(p, (file, seq![e])));
    }
}

/// For each file, the entries that selecting some severities keeps and those that rejecting
/// the same severities keeps together are the file's entries, each kept by exactly one filter:
/// by the selecting one exactly when its lower-cased severity is listed.
pub proof fn law_select_and_reject_partition_per_file(s: Seq<Entry>, items: Seq<Seq<char>>)
    ensures
        kept_entries(s, items, true).to_multiset().add(kept_entries(s, items, false).to_multiset())
            == s.map_values(|e: Entry| crate::report::entry_view(e)).to_multiset(),
        forall|j: int| 0 <= j < kept_entries(s, items, true).len()
            ==> items.contains(lower_seq((#[trigger] kept_entries(s, items, true)[j]).1.name_view())),
        forall|j: int| 0 <= j < kept_entries(s, items, false).len()
            ==> !items.contains(lower_seq((#[trigger] kept_entries(s, items, false)[j]).1.name_view())),
    decreases s.len(),
{
    broadcast use vstd::seq_lib::group_to_multiset_ensures;
    broadcast use vstd::multiset::group_multiset_axioms;
    let t = kept_entries(s, items, true);
    let f = kept_entries(s, items, false);
    let all = s.map_values(|e: Entry| crate::report::entry_view(e));
    if s.len() == 0 {
        assert(all =~= Seq::<EntryView>::empty());
        assert(t.to_multiset().add(f.to_multiset()) =~= all.to_multiset());
    } else {
        law_select_and_reject_partition_per_file(s.drop_last(), items);
        let t0 = kept_entries(s.drop_last(), items, true);
        let f0 = kept_entries(s.drop_last(), items, false);
        let a0 = s.drop_last().map_values(|e: Entry| crate::report::entry_view(e));
        let x = crate::report::entry_view(s.last());
        assert(all =~= a0.push(x));
        if items.contains(lower_seq(s.last().severity.name_view())) {
            assert(t == t0.push(x));
            assert(f == f0);
            assert(t.to_multiset().add(f.to_multiset()) =~= all.to_multiset());
            assert forall|j: int| 0 <= j < t.len() implies items.contains(lower_seq((#[trigger] t[j]).1.name_view())) by {
                if j < t0.len() {
                    assert(t[j] == t0[j]);
                }
            }
        } else {
            assert(t == t0);
            assert(f == f0.push(x));
            assert(t.to_multiset().add(f.to_multiset()) =~= all.to_multiset());
            assert forall|j: int| 0 <= j < f.len() implies !items.contains(lower_seq((#[trigger] f[j]).1.name_view())) by {
                if j < f0.len() {
                    assert(f[j] == f0[j]);
                }
            }
        }
    }
}

/// A file with entries kept of it is listed, with those entries, among the kept files.
proof fn lemma_kept_files_contains(files: Seq<(String, Vec<Entry>)>, items: Seq<Seq<char>>, keep_listed: bool, k: int)
    requires
        0 <= k < files.len(),
        kept_entries(files[k].1@, items, keep_listed).len() > 0,
    ensures
        kept_files(files, items, keep_listed).contains((files[k].0@, kept_entries(files[k].1@, items, keep_listed))),
    decreases files.len(),
{
    let x = (files[k].0@, kept_entries(files[k].1@, items, keep_listed));
    let rest = kept_files(files.drop_last(), items, keep_listed);
    let all = kept_files(files, items, keep_listed);
    if k < files.len() - 1 {
        assert(files.drop_last()[k] == files[k]);
        lemma_kept_files_contains(files.drop_last(), items, keep_listed, k);
        let j = choose|j: int| 0 <= j < rest.len() && rest[j] == x;
        assert(all[j] == x);
    } else {
        assert(all == rest.push(x));
        assert(all[rest.len() as int] == x);
    }
}

/// Every kept file keeps some entries.
proof fn lemma_kept_files_nonempty(files: Seq<(String, Vec<Entry>)>, items: Seq<Seq<char>>, keep_listed: bool)
    ensures
        forall|j: int| 0 <= j < kept_files(files, items, keep_listed).len()
            ==> (#[trigger] kept_files(files, items, keep_listed)[j]).1.len() > 0,
    decreases files.len(),
{
    if files.len() > 0 {
        lemma_kept_files_nonempty(files.drop_last(), items, keep_listed);
        let rest = kept_files(files.drop_last(), items, keep_listed);
        let all = kept_files(files, items, keep_listed);
        assert forall|j: int| 0 <= j < all.len() implies (#[trigger] all[j]).1.len() > 0 by {
            if j < rest.len() {
                assert(all[j] == rest[j]);
            }
        }
    }
}

/// For each file of a report, selecting some severities and rejecting the same severities split
/// its entries: each entry goes to exactly one of the two results, to the selecting one exactly
/// when its lower-cased severity is listed. A result lists the file, with the entries it keeps
/// of it, exactly when it keeps some; so the file is listed by at least one of the two exactly
/// when it has entries.
pub proof fn law_select_and_reject_partition_per_path(files: Seq<(String, Vec<Entry>)>, values: Seq<Seq<char>>, k: int)
    requires
        values.len() > 0,
        0 <= k < files.len(),
    ensures
        ({
            let items = option_items(values);
            let es = files[k].1@;
            let sel = kept_entries(es, items, true);
            let rej = kept_entries(es, items, false);
            &&& sel.to_multiset().add(rej.to_multiset()) == es.map_values(|e: Entry| crate::report::entry_view(e)).to_multiset()
            &&& forall|j: int| 0 <= j < sel.len() ==> items.contains(lower_seq((#[trigger] sel[j]).1.name_view()))
            &&& forall|j: int| 0 <= j < rej.len() ==> !items.contains(lower_seq((#[trigger] rej[j]).1.name_view()))
            &&& (sel.len() > 0 <==> filtered(files, values, Seq::empty()).contains((files[k].0@, sel)))
            &&& (rej.len() > 0 <==> filtered(files, Seq::empty(), values).contains((files[k].0@, rej)))
            &&& (sel.len() > 0 || rej.len() > 0 <==> es.len() > 0)
        }),
{
    broadcast use vstd::seq_lib::group_to_multiset_ensures;
    broadcast use vstd::multiset::group_multiset_axioms;
    let items = option_items(values);
    let es = files[k].1@;
    let sel = kept_entries(es, items, true);
    let rej = kept_entries(es, items, false);
    law_select_and_reject_partition_per_file(es, items);
    let all = es.map_values(|e: Entry| crate::report::entry_view(e));
    assert(sel.to_multiset().add(rej.to_multiset()).len() == all.to_multiset().len());
    assert(sel.len() + rej.len() == es.len());
    assert(filtered(files, values, Seq::empty()) == kept_files(files, items, true));
    assert(filtered(files, Seq::empty(), values) == kept_files(files, items, false));
    lemma_kept_files_nonempty(files, items, true);
    lemma_kept_files_nonempty(files, items, false);
    if sel.len() > 0 {
        lemma_kept_files_contains(files, items, true, k);
    } else {
        let t = kept_files(files, items, true);
        if t.contains((files[k].0@, sel)) {
            let j = choose|j: int| 0 <= j < t.len() && t[j] == (files[k].0@, sel);
            assert(t[j].1.len() > 0);
        }
    }
    if rej.len() > 0 {
        lemma_kept_files_contains(files, items, false, k);
    } else {
        let t = kept_files(files, items, false);
        if t.contains((files[k].0@, rej)) {
            let j = choose|j: int| 0 <= j < t.len() && t[j] == (files[k].0@, rej);
            assert(t[j].1.len() > 0);
        }
    }
}

/// Grouping a literal's digits inserts `_` before every third character counted from the
/// right, and nowhere else: read from the right, the grouped text is three characters of the
/// literal, `_`, three more, and so on, the literal's characters in their order.
pub proof fn law_group_digits(s: Seq<char>)
    ensures
        group_digits(s).len() == if s.len() == 0 { 0 } else { s.len() + (s.len() - 1) / 3 },
        forall|j: int| 0 <= j < group_digits(s).len() ==> {
            let r = group_digits(s).len() - 1 - j;
            if r % 4 == 3 {
                #[trigger] group_digits(s)[j] == '_'
            } else {
                group_digits(s)[j] == s[s.len() - 1 - (r - r / 4)]
            }
        },
    decreases s.len(),
{
    let g = group_digits(s);
    let n = s.len() as int;
    if n > 3 {
        let t = s.take(n - 3);
        law_group_digits(t);
        let gt = group_digits(t);
        assert(g == gt + seq!['_'] + s.skip(n - 3));
        assert forall|j: int| 0 <= j < g.len() implies {
            let r = g.len() - 1 - j;
            if r % 4 == 3 { #[trigger] g[j] == '_' } else { g[j] == s[n - 1 - (r - r / 4)] }
        } by {
            let r = g.len() - 1 - j;
            if j < gt.len() {
                let r2 = gt.len() - 1 - j;
                assert(r == r2 + 4);
                assert(g[j] == gt[j]);
                assert(r % 4 == r2 % 4);
                assert(r / 4 == r2 / 4 + 1);
                if r2 % 4 != 3 {
                    assert(t[t.len() - 1 - (r2 - r2 / 4)] == s[n - 1 - (r - r / 4)]);
                }
            } else if j == gt.len() {
                assert(r == 3);
            } else {
                assert(r < 3);
                assert(g[j] == s[n - 3 + (j - gt.len() - 1)]);
            }
        }
    } else {
        assert forall|j: int| 0 <= j < g.len() implies {
            let r = g.len() - 1 - j;
            if r % 4 == 3 { #[trigger] g[j] == '_' } else { g[j] == s[n - 1 - (r - r / 4)] }
        } by {
            let r = g.len() - 1 - j;
            assert(r < 3);
        }
    }
}

proof fn lemma_gather_contains<'a, T>(evs: Seq<Event<'a>>, f: spec_fn(int, Event<'a>) -> Seq<T>, i: int, x: T)
    requires
        0 <= i < evs.len(),
        f(i, evs[i]).contains(x),
    ensures
        gather(evs, f).contains(x),
    decreases evs.len(),
{
    let g0 = gather(evs.drop_last(), f);
    let last = f(evs.len() - 1, evs.last());
    if i < evs.len() - 1 {
        assert(evs.drop_last()[i] == evs[i]);
        lemma_gather_contains(evs.drop_last(), f, i, x);
        let k = choose|k: int| 0 <= k < g0.len() && g0[k] == x;
        assert((g0 + last)[k] == x);
    } else {
        let k = choose|k: int| 0 <= k < last.len() && last[k] == x;
        assert((g0 + last)[g0.len() + k] == x);
    }
}

/// The statement that holds a magic number candidate, if the event is one.
pub open spec fn candidate_statement<'a>(ev: Event<'a>) -> Option<(int, int)> {
    match ev {
        Event::Expr(c, _) => if magic_candidate(ev) {
            match c.statement {
                Some(st) => Some((st.span.start as int, st.span.end as int)),
                None => None,
            }
        } else {
            None
        },
        _ => None,
    }
}

/// What gathering gives holds what one of the gathered events gives.
proof fn lemma_gather_contains_rev<'a, T>(evs: Seq<Event<'a>>, f: spec_fn(int, Event<'a>) -> Seq<T>, x: T)
    requires
        gather(evs, f).contains(x),
    ensures
        exists|j: int| 0 <= j < evs.len() && #[trigger] f(j, evs[j]).contains(x),
    decreases evs.len(),
{
    let g0 = gather(evs.drop_last(), f);
    let last = f(evs.len() - 1, evs.last());
    let k = choose|k: int| 0 <= k < (g0 + last).len() && (g0 + last)[k] == x;
    if k < g0.len() {
        assert(g0[k] == x);
        lemma_gather_contains_rev(evs.drop_last(), f, x);
        let j = choose|j: int| 0 <= j < evs.drop_last().len() && #[trigger] f(j, evs.drop_last()[j]).contains(x);
        assert(evs.drop_last()[j] == evs[j]);
    } else {
        assert(last[k - g0.len()] == x);
        assert(f(evs.len() - 1, evs[evs.len() - 1]).contains(x));
    }
}

/// A magic number candidate (a binary expression outside constants with a literal operand,
/// neither operand `0` or `1`, in a statement) is reported exactly when no earlier candidate
/// stands in the same statement; it is reported once, as low.
pub proof fn law_magic_number_first_of_statement<'a>(evs: Seq<Event<'a>>, i: int)
    requires
        0 <= i < evs.len(),
        candidate_statement(evs[i]) is Some,
    ensures
        magic_number_at(evs, i, evs[i]).len() == if exists|j: int| 0 <= j < i
            && #[trigger] candidate_statement(evs[j]) == candidate_statement(evs[i]) { 0int } else { 1int },
        magic_number_at(evs, i, evs[i]).len() == 1 ==> magic_number_at(evs, i, evs[i])[0].2 == Severity::Low,
{
    let pre = evs.take(i);
    let k = candidate_statement(evs[i])->0;
    let f = |j: int, x: Event<'a>| magic_mark(j, x);
    if exists|j: int| 0 <= j < i && #[trigger] candidate_statement(evs[j]) == candidate_statement(evs[i]) {
        let j = choose|j: int| 0 <= j < i && #[trigger] candidate_statement(evs[j]) == candidate_statement(evs[i]);
        law_magic_number_once_per_statement(evs, j, i);
    } else {
        if gather(pre, f).contains(k) {
            lemma_gather_contains_rev(pre, f, k);
            let j = choose|j: int| 0 <= j < pre.len() && #[trigger] f(j, pre[j]).contains(k);
            assert(pre[j] == evs[j]);
            assert(magic_mark(j, evs[j]).contains(k));
            assert(candidate_statement(evs[j]) == Some(k));
        }
    }
}

/// An integer literal is reported, once and as low, exactly when its text is neither
/// hexadecimal, nor separated by `_`, nor at most six characters long; the finding shows the
/// text and the text grouped by threes.
pub proof fn law_large_literal_reported<'a>(i: int, c: crate::walk::Ctx<'a>, e: &'a Expr)
    requires
        e.kind matches crate::ast::ExprKind::Literal(l) && l.kind is Int,
    ensures
        ({
            let s = e.kind->Literal_0.span.text@;
            &&& large_literal_at(i, Event::Expr(c, e)).len() == if literal_is_readable(s) { 0int } else { 1int }
            &&& !literal_is_readable(s) ==> large_literal_at(i, Event::Expr(c, e))
                == seq![(i, e.span.start as int, Severity::Low, large_literal_text(crate::detectors::ctx_location(c), s),
                    None::<crate::detectors::ReferenceView>)]
        }),
{
}

/// At the end of its block, a storage value bound to a local variable is reported, once and as
/// high, exactly when it went wrong: never written back and shadowed, never written back and
/// modified, or written back and changed afterwards. A value that is never modified, never
/// shadowed and never changed after a write-back is not reported.
pub proof fn law_storage_binding_reported(i: int, fname: Seq<char>, x: Binding)
    ensures
        binding_finding(i, fname, x).len() == if (!x.6 && (x.5 is Some || x.7)) || (x.6 && x.4 is Some) { 1int } else { 0int },
        binding_finding(i, fname, x).len() == 1 ==> binding_finding(i, fname, x)[0].2 == Severity::High,
{
}

/// Where some item satisfies `p`, a last one does.
proof fn lemma_last_exists<A>(s: Seq<A>, p: spec_fn(A) -> bool, w: int)
    requires
        0 <= w < s.len(),
        p(s[w]),
    ensures
        exists|k: int| #[trigger] crate::search::is_last(s, p, k),
    decreases s.len() - w,
{
    if exists|l: int| w < l < s.len() && p(#[trigger] s[l]) {
        let l = choose|l: int| w < l < s.len() && p(#[trigger] s[l]);
        lemma_last_exists(s, p, l);
    } else {
        assert(crate::search::is_last(s, p, w));
    }
}

/// What a binding of the block gives is among what the block's bindings give.
proof fn lemma_block_findings_contain(i: int, fname: Seq<char>, bs: Seq<Binding>, key: (int, int), blk: (int, int), k: int,
    y: FindingView)
    requires
        0 <= k < bs.len(),
        bs[k].0 == key,
        bs[k].1 == blk,
        binding_finding(i, fname, bs[k]).contains(y),
    ensures
        block_findings(i, fname, bs, key, blk).contains(y),
    decreases bs.len(),
{
    let rest = block_findings(i, fname, bs.drop_last(), key, blk);
    let last = if bs.last().0 == key && bs.last().1 == blk { binding_finding(i, fname, bs.last()) } else { Seq::empty() };
    assert(block_findings(i, fname, bs, key, blk) == rest + last);
    if k < bs.len() - 1 {
        assert(bs.drop_last()[k] == bs[k]);
        lemma_block_findings_contain(i, fname, bs.drop_last(), key, blk, k, y);
        let t = choose|t: int| 0 <= t < rest.len() && rest[t] == y;
        assert((rest + last)[t] == y);
    } else {
        let t = choose|t: int| 0 <= t < last.len() && last[t] == y;
        assert((rest + last)[rest.len() + t] == y);
    }
}

/// At the end of a block of a function marked `#[storage(write)]`, each storage value bound in
/// that block that went wrong (see `law_storage_binding_reported`) is reported.
pub proof fn law_storage_binding_reported_at_block_end<'a>(evs: Seq<Event<'a>>, i: int, c: crate::walk::Ctx<'a>,
    b: &'a crate::ast::Block, k: int, y: FindingView)
    requires
        0 <= i < evs.len(),
        evs[i] == Event::LeaveBlock(c, b),
        c.item_fn is Some,
        c.fn_attributes matches Some(attrs) && crate::utils::has_attribute(attrs@, "storage"@, seq!["write"@]),
        0 <= k < binding_state(evs.take(i)).len(),
        binding_state(evs.take(i))[k].0 == fn_key(c.item_fn->0),
        binding_state(evs.take(i))[k].1 == crate::detectors::block_key(b),
        binding_finding(i, fn_display_name(c, c.item_fn->0), binding_state(evs.take(i))[k]).contains(y),
    ensures
        storage_not_updated_at(evs, i, evs[i]).contains(y),
{
    lemma_block_findings_contain(i, fn_display_name(c, c.item_fn->0), binding_state(evs.take(i)), fn_key(c.item_fn->0),
        crate::detectors::block_key(b), k, y);
}

/// Whether an event is a statement that reassigns a variable named `nm`.
pub open spec fn reassigns<'a>(ev: Event<'a>, nm: Seq<char>) -> bool {
    ev matches Event::Statement(_, s) && reassigned_variable(*s) matches Some(v) && crate::utils::name(v) == nm
}

/// A bound storage value counts as modified only after a statement reassigned a variable of its
/// name: an unmodified value stays unmodified until then.
pub proof fn law_modified_only_by_reassignment<'a>(evs: Seq<Event<'a>>)
    ensures
        forall|k: int| 0 <= k < binding_state(evs).len() && (#[trigger] binding_state(evs)[k]).7
            ==> exists|j: int| 0 <= j < evs.len() && reassigns(#[trigger] evs[j], crate::utils::name(binding_state(evs)[k].3)),
    decreases evs.len(),
{
    if evs.len() > 0 {
        let pre = evs.drop_last();
        law_modified_only_by_reassignment(pre);
        let bs = binding_state(pre);
        let now = binding_state(evs);
        assert(now == binding_step(open_blocks(pre), bs, evs.last()));
        assert forall|k: int| 0 <= k < now.len() && (#[trigger] now[k]).7
            implies exists|j: int| 0 <= j < evs.len() && reassigns(#[trigger] evs[j], crate::utils::name(now[k].3)) by {
            lemma_binding_step_modified(open_blocks(pre), bs, evs.last(), k);
            if k < bs.len() && bs[k].7 && bs[k].3 == now[k].3 {
                let j = choose|j: int| 0 <= j < pre.len() && reassigns(#[trigger] pre[j], crate::utils::name(bs[k].3));
                assert(pre[j] == evs[j]);
            } else {
                assert(evs[evs.len() - 1] == evs.last());
            }
        }
    }
}

/// One step keeps each binding's variable; a binding is modified after it only when it was
/// before, or the step's event reassigns a variable of its name.
proof fn lemma_binding_step_modified<'a>(open: Seq<(Option<(int, int)>, (int, int))>, bs: Seq<Binding>, ev: Event<'a>, k: int)
    requires
        0 <= k < binding_step(open, bs, ev).len(),
        binding_step(open, bs, ev)[k].7,
    ensures
        (k < bs.len() && bs[k].7 && bs[k].3 == binding_step(open, bs, ev)[k].3)
            || reassigns(ev, crate::utils::name(binding_step(open, bs, ev)[k].3)),
{
    match ev {
        Event::Statement(c, s) => match c.item_fn {
            Some(f) => if open.len() > 0 {
                let key = fn_key(f);
                let blk = open.last().1;
                let b1 = match let_variable(*s) {
                    Some(v) => shadow(bs, key, blk, v),
                    None => bs,
                };
                assert(b1.len() == bs.len());
                assert(forall|j: int| 0 <= j < bs.len() ==> (#[trigger] b1[j]).3 == bs[j].3 && b1[j].7 == bs[j].7);
                match storage_read_binding(*s) {
                    Some((st, v)) => {},
                    None => match reassigned_variable(*s) {
                        Some(v) => {
                            if exists|m: int| #[trigger] is_innermost(open, key, var_hit(b1, key, name(v)), m) {
                                let m = choose|m: int| #[trigger] is_innermost(open, key, var_hit(b1, key, name(v)), m);
                                let kk = choose|kk: int| #[trigger] is_last(b1, var_match(key, open[m].1, name(v)), kk);
                                assert(var_hit(b1, key, name(v))(open[m].1));
                                let w = choose|w: int| 0 <= w < b1.len() && var_match(key, open[m].1, name(v))(#[trigger] b1[w]);
                                lemma_last_exists(b1, var_match(key, open[m].1, name(v)), w);
                            }
                        },
                        None => match storage_write_pair(*s) {
                            Some((st, v)) => {
                                if exists|m: int| #[trigger] is_innermost(open, key, write_hit(b1, key, name(st), name(v)), m) {
                                    let m = choose|m: int| #[trigger] is_innermost(open, key, write_hit(b1, key, name(st), name(v)), m);
                                    assert(write_hit(b1, key, name(st), name(v))(open[m].1));
                                }
                            },
                            None => {},
                        },
                    },
                }
            } else {
            },
            None => {},
        },
        _ => {},
    }
}

/// A statement gives at most one magic number finding: once a candidate of a statement came, a
/// later candidate of the same statement gives none.
pub proof fn law_magic_number_once_per_statement<'a>(evs: Seq<Event<'a>>, i: int, j: int)
    requires
        0 <= i < j < evs.len(),
        candidate_statement(evs[i]) is Some,
        candidate_statement(evs[i]) == candidate_statement(evs[j]),
    ensures
        magic_number_at(evs, j, evs[j]) == Seq::<FindingView>::empty(),
{
    let pre = evs.take(j);
    let k = candidate_statement(evs[i])->0;
    assert(pre[i] == evs[i]);
    assert(magic_mark(i, pre[i]) == seq![k]);
    assert(magic_mark(i, pre[i]).contains(k)) by {
        assert(magic_mark(i, pre[i])[0] == k);
    }
    lemma_gather_contains(pre, |jj: int, x: Event<'a>| magic_mark(jj, x), i, k);
}

/// The entries are listed in the given order.
pub open spec fn views_sorted(sorting: Sorting, l: Seq<EntryView>) -> bool {
    forall|i: int, j: int| 0 <= i < j < l.len() ==> view_le(sorting, #[trigger] l[i], #[trigger] l[j])
}

proof fn lemma_lead_prefix<A>(s: Seq<A>, p: spec_fn(A) -> bool)
    ensures
        forall|j: int| 0 <= j < lead_count(s, p) ==> p(#[trigger] s[j]),
        lead_count(s, p) < s.len() ==> !p(s[lead_count(s, p)]),
    decreases s.len(),
{
    if s.len() > 0 && p(s[0]) {
        let d = s.drop_first();
        lemma_lead_prefix(d, p);
        lemma_lead_count_bound(d, p);
        assert(lead_count(s, p) == 1 + lead_count(d, p));
        assert forall|j: int| 0 <= j < lead_count(s, p) implies p(#[trigger] s[j]) by {
            if j > 0 {
                assert(s[j] == d[j - 1]);
            }
        }
        if lead_count(s, p) < s.len() {
            assert(s[lead_count(s, p)] == d[lead_count(d, p)]);
        }
    }
}

proof fn lemma_lead_sorted(sorting: Sorting, l: Seq<EntryView>, x: EntryView)
    requires
        views_sorted(sorting, l),
    ensures
        0 <= lead_count(l, may_precede(sorting, x)) <= l.len(),
        forall|j: int| 0 <= j < l.len()
            ==> (view_le(sorting, #[trigger] l[j], x) <==> j < lead_count(l, may_precede(sorting, x))),
{
    let p = may_precede(sorting, x);
    lemma_lead_count_bound(l, p);
    lemma_lead_prefix(l, p);
    let n = lead_count(l, p);
    assert forall|j: int| 0 <= j < l.len() implies (view_le(sorting, #[trigger] l[j], x) <==> j < n) by {
        if j < n {
            assert(p(l[j]));
        } else {
            assert(!p(l[n]));
            if j > n {
                assert(view_le(sorting, l[n], l[j]));
            }
        }
    }
}

/// `l` with `e` placed after the entries that may stand before it, as adding an entry places it.
pub open spec fn placed(sorting: Sorting, l: Seq<EntryView>, e: EntryView) -> Seq<EntryView> {
    l.insert(lead_count(l, may_precede(sorting, e)), e)
}

proof fn lemma_placed_sorted(sorting: Sorting, l: Seq<EntryView>, e: EntryView)
    requires
        views_sorted(sorting, l),
    ensures
        views_sorted(sorting, placed(sorting, l, e)),
{
    lemma_lead_sorted(sorting, l, e);
    let n = lead_count(l, may_precede(sorting, e));
    let r = placed(sorting, l, e);
    assert forall|i: int, j: int| 0 <= i < j < r.len() implies view_le(sorting, #[trigger] r[i], #[trigger] r[j]) by {
        if j < n {
            assert(r[i] == l[i] && r[j] == l[j]);
        } else if j == n {
            assert(r[i] == l[i]);
        } else if i < n {
            assert(r[i] == l[i] && r[j] == l[j - 1]);
            assert(view_le(sorting, l[i], e));
            assert(!view_le(sorting, l[j - 1], e));
        } else if i == n {
            assert(r[j] == l[j - 1]);
            assert(!view_le(sorting, l[j - 1], e));
        } else {
            assert(r[i] == l[i - 1] && r[j] == l[j - 1]);
        }
    }
}

proof fn lemma_placed_commute(sorting: Sorting, l: Seq<EntryView>, a: EntryView, b: EntryView)
    requires
        views_sorted(sorting, l),
        view_le(sorting, a, b),
        !view_le(sorting, b, a),
    ensures
        placed(sorting, placed(sorting, l, a), b) == placed(sorting, placed(sorting, l, b), a),
{
    lemma_lead_sorted(sorting, l, a);
    lemma_lead_sorted(sorting, l, b);
    let pa = lead_count(l, may_precede(sorting, a));
    let pb = lead_count(l, may_precede(sorting, b));
    if pb < pa {
        assert(view_le(sorting, l[pb], a));
    }
    assert(pa <= pb);
    let l1 = l.insert(pa, a);
    let l2 = l.insert(pb, b);
    lemma_placed_sorted(sorting, l, a);
    lemma_placed_sorted(sorting, l, b);
    assert forall|j: int| 0 <= j < pb + 1 implies may_precede(sorting, b)(#[trigger] l1[j]) by {
        if j < pa {
            assert(l1[j] == l[j]);
        } else if j > pa {
            assert(l1[j] == l[j - 1]);
        }
    }
    if pb + 1 < l1.len() {
        assert(l1[pb + 1] == l[pb]);
    }
    lemma_lead_count(l1, may_precede(sorting, b), pb + 1);
    assert forall|j: int| 0 <= j < pa implies may_precede(sorting, a)(#[trigger] l2[j]) by {
        assert(l2[j] == l[j]);
    }
    if pa < l2.len() {
        if pa < pb {
            assert(l2[pa] == l[pa]);
        } else {
            assert(l2[pa] == b);
        }
    }
    lemma_lead_count(l2, may_precede(sorting, a), pa);
    assert(l1.insert(pb + 1, b) =~= l2.insert(pa, a));
}

proof fn lemma_first_exists<A>(s: Seq<A>, p: spec_fn(A) -> bool, j: int)
    requires
        0 <= j < s.len(),
        p(s[j]),
    ensures
        exists|k: int| #[trigger] is_first(s, p, k),
    decreases j,
{
    if exists|l: int| 0 <= l < j && p(#[trigger] s[l]) {
        let l = choose|l: int| 0 <= l < j && p(#[trigger] s[l]);
        lemma_first_exists(s, p, l);
    } else {
        assert(is_first(s, p, j));
    }
}

proof fn lemma_report_with_existing(fv: Seq<(Seq<char>, Seq<EntryView>)>, sorting: Sorting, file: Seq<char>,
    e: EntryView, k: int)
    requires
        is_first(fv, same_file(file), k),
    ensures
        is_first(report_with(fv, sorting, file, e), same_file(file), k),
        report_with(fv, sorting, file, e) == fv.update(k, (fv[k].0, placed(sorting, fv[k].1, e))),
{
    let k0 = choose|m: int| #[trigger] is_first(fv, same_file(file), m);
    lemma_first_unique(fv, same_file(file), k, k0);
    let r = report_with(fv, sorting, file, e);
    lemma_lead_count_bound(fv[k].1, may_precede(sorting, e));
    assert forall|j: int| 0 <= j < k implies !same_file(file)(#[trigger] r[j]) by {
        assert(r[j] == fv[j]);
    }
}

/// Two entries for the same file whose keys differ can be added in either order: the report
/// comes out the same, when each file's entries are in the report's order.
pub proof fn law_add_entries_same_file_commute(fv: Seq<(Seq<char>, Seq<EntryView>)>, sorting: Sorting,
    file: Seq<char>, a: EntryView, b: EntryView)
    requires
        forall|k: int| 0 <= k < fv.len() ==> views_sorted(sorting, #[trigger] fv[k].1),
        view_le(sorting, a, b) != view_le(sorting, b, a),
    ensures
        report_with(report_with(fv, sorting, file, a), sorting, file, b)
            == report_with(report_with(fv, sorting, file, b), sorting, file, a),
{
    let (x, y) = if view_le(sorting, a, b) { (a, b) } else { (b, a) };
    if exists|k: int| #[trigger] is_first(fv, same_file(file), k) {
        let k = choose|k: int| #[trigger] is_first(fv, same_file(file), k);
        lemma_report_with_existing(fv, sorting, file, a, k);
        lemma_report_with_existing(fv, sorting, file, b, k);
        let ra = report_with(fv, sorting, file, a);
        let rb = report_with(fv, sorting, file, b);
        assert(is_first(ra, same_file(file), k));
        assert(is_first(rb, same_file(file), k));
        lemma_first_unique(ra, same_file(file), k, choose|m: int| #[trigger] is_first(ra, same_file(file), m));
        lemma_first_unique(rb, same_file(file), k, choose|m: int| #[trigger] is_first(rb, same_file(file), m));
        lemma_placed_commute(sorting, fv[k].1, x, y);
        assert(report_with(ra, sorting, file, b) =~= fv.update(k, (fv[k].0, placed(sorting, placed(sorting, fv[k].1, a), b))));
        assert(report_with(rb, sorting, file, a) =~= fv.update(k, (fv[k].0, placed(sorting, placed(sorting, fv[k].1, b), a))));
    } else {
        let q = lead_count(fv, file_precedes(file));
        lemma_lead_count_bound(fv, file_precedes(file));
        let ra = report_with(fv, sorting, file, a);
        let rb = report_with(fv, sorting, file, b);
        assert(ra == fv.insert(q, (file, seq![a])));
        assert(rb == fv.insert(q, (file, seq![b])));
        assert(forall|j: int| 0 <= j < fv.len() ==> !(#[trigger] same_file(file)(fv[j]))) by {
            assert forall|j: int| 0 <= j < fv.len() implies !(#[trigger] same_file(file)(fv[j])) by {
                if same_file(file)(fv[j]) {
                    lemma_first_exists(fv, same_file(file), j);
                }
            }
        }
        assert(is_first(ra, same_file(file), q)) by {
            assert forall|j: int| 0 <= j < q implies !same_file(file)(#[trigger] ra[j]) by {
                assert(ra[j] == fv[j]);
            }
        }
        assert(is_first(rb, same_file(file), q)) by {
            assert forall|j: int| 0 <= j < q implies !same_file(file)(#[trigger] rb[j]) by {
                assert(rb[j] == fv[j]);
            }
        }
        lemma_report_with_existing(ra, sorting, file, b, q);
        lemma_report_with_existing(rb, sorting, file, a, q);
        assert(ra[q].1 == seq![a]);
        assert(rb[q].1 == seq![b]);
        assert(seq![a].drop_first() =~= Seq::<EntryView>::empty());
        assert(seq![b].drop_first() =~= Seq::<EntryView>::empty());
        let e0 = Seq::<EntryView>::empty();
        assert(lead_count(e0, may_precede(sorting, b)) == 0);
        assert(lead_count(e0, may_precede(sorting, a)) == 0);
        assert(may_precede(sorting, b)(seq![a][0]) == view_le(sorting, a, b));
        assert(may_precede(sorting, a)(seq![b][0]) == view_le(sorting, b, a));
        if view_le(sorting, a, b) {
            assert(lead_count(seq![a], may_precede(sorting, b)) == 1);
            assert(lead_count(seq![b], may_precede(sorting, a)) == 0);
        } else {
            assert(lead_count(seq![a], may_precede(sorting, b)) == 0);
            assert(lead_count(seq![b], may_precede(sorting, a)) == 1);
        }
        assert(placed(sorting, seq![a], b) =~= placed(sorting, seq![b], a));
        assert(ra.update(q, (ra[q].0, placed(sorting, seq![a], b))) =~= rb.update(q, (rb[q].0, placed(sorting, seq![b], a))));
    }
}

/// The files are listed in strictly increasing path order.
pub open spec fn paths_sorted_strictly(fv: Seq<(Seq<char>, Seq<EntryView>)>) -> bool {
    forall|i: int, j: int| 0 <= i < j < fv.len() ==> path_lt(#[trigger] fv[i].0, #[trigger] fv[j].0)
}

proof fn lemma_lead_same<A>(s1: Seq<A>, s2: Seq<A>, p: spec_fn(A) -> bool)
    requires
        s1.len() == s2.len(),
        forall|i: int| 0 <= i < s1.len() ==> p(#[trigger] s1[i]) == p(s2[i]),
    ensures
        lead_count(s1, p) == lead_count(s2, p),
    decreases s1.len(),
{
    if s1.len() > 0 {
        let d1 = s1.drop_first();
        let d2 = s2.drop_first();
        assert forall|i: int| 0 <= i < d1.len() implies p(#[trigger] d1[i]) == p(d2[i]) by {
            assert(d1[i] == s1[i + 1] && d2[i] == s2[i + 1]);
        }
        assert(p(s1[0]) == p(s2[0]));
        lemma_lead_same(d1, d2, p);
    }
}

proof fn lemma_file_lead(fv: Seq<(Seq<char>, Seq<EntryView>)>, f: Seq<char>)
    requires
        paths_sorted_strictly(fv),
    ensures
        0 <= lead_count(fv, file_precedes(f)) <= fv.len(),
        forall|j: int| 0 <= j < fv.len()
            ==> (path_lt(#[trigger] fv[j].0, f) <==> j < lead_count(fv, file_precedes(f))),
{
    let p = file_precedes(f);
    lemma_lead_count_bound(fv, p);
    lemma_lead_prefix(fv, p);
    let n = lead_count(fv, p);
    assert forall|j: int| 0 <= j < fv.len() implies (path_lt(#[trigger] fv[j].0, f) <==> j < n) by {
        if j < n {
            assert(p(fv[j]));
        } else {
            assert(!p(fv[n]));
            if j > n && path_lt(fv[j].0, f) {
                assert(path_lt(fv[n].0, fv[j].0));
                lemma_components_lt_trans(path_components(fv[n].0), path_components(fv[j].0), path_components(f));
            }
        }
    }
}

proof fn lemma_no_file(fv: Seq<(Seq<char>, Seq<EntryView>)>, f: Seq<char>)
    requires
        !exists|k: int| #[trigger] is_first(fv, same_file(f), k),
    ensures
        forall|j: int| 0 <= j < fv.len() ==> !(#[trigger] same_file(f)(fv[j])),
{
    assert forall|j: int| 0 <= j < fv.len() implies !(#[trigger] same_file(f)(fv[j])) by {
        if same_file(f)(fv[j]) {
            lemma_first_exists(fv, same_file(f), j);
        }
    }
}

proof fn lemma_report_with_new(fv: Seq<(Seq<char>, Seq<EntryView>)>, sorting: Sorting, f: Seq<char>, e: EntryView)
    requires
        !exists|k: int| #[trigger] is_first(fv, same_file(f), k),
    ensures
        0 <= lead_count(fv, file_precedes(f)) <= fv.len(),
        report_with(fv, sorting, f, e) == fv.insert(lead_count(fv, file_precedes(f)), (f, seq![e])),
{
    lemma_lead_count_bound(fv, file_precedes(f));
}

/// Entries for two different files can be added in either order: the report comes out the same,
/// when its files are in strictly increasing path order.
pub proof fn law_add_entries_other_files_commute(fv: Seq<(Seq<char>, Seq<EntryView>)>, sorting: Sorting,
    f1: Seq<char>, a: EntryView, f2: Seq<char>, b: EntryView)
    requires
        paths_sorted_strictly(fv),
        !path_same(f1, f2),
    ensures
        report_with(report_with(fv, sorting, f1, a), sorting, f2, b)
            == report_with(report_with(fv, sorting, f2, b), sorting, f1, a),
{
    let ra = report_with(fv, sorting, f1, a);
    let rb = report_with(fv, sorting, f2, b);
    let e1 = exists|k: int| #[trigger] is_first(fv, same_file(f1), k);
    let e2 = exists|k: int| #[trigger] is_first(fv, same_file(f2), k);
    if e1 && e2 {
        lemma_commute_old_old(fv, sorting, f1, a, f2, b);
    } else if e1 && !e2 {
        lemma_commute_old_new(fv, sorting, f1, a, f2, b);
    } else if !e1 && e2 {
        lemma_commute_old_new(fv, sorting, f2, b, f1, a);
    } else {
        lemma_components_lt_total(path_components(f1), path_components(f2));
        if path_lt(f1, f2) {
            lemma_commute_new_new(fv, sorting, f1, a, f2, b);
        } else {
            lemma_commute_new_new(fv, sorting, f2, b, f1, a);
        }
    }
}

proof fn lemma_commute_old_old(fv: Seq<(Seq<char>, Seq<EntryView>)>, sorting: Sorting,
    f1: Seq<char>, a: EntryView, f2: Seq<char>, b: EntryView)
    requires
        !path_same(f1, f2),
        exists|k: int| #[trigger] is_first(fv, same_file(f1), k),
        exists|k: int| #[trigger] is_first(fv, same_file(f2), k),
    ensures
        report_with(report_with(fv, sorting, f1, a), sorting, f2, b)
            == report_with(report_with(fv, sorting, f2, b), sorting, f1, a),
{
    let ra = report_with(fv, sorting, f1, a);
    let rb = report_with(fv, sorting, f2, b);
        let k1 = choose|k: int| #[trigger] is_first(fv, same_file(f1), k);
        let k2 = choose|k: int| #[trigger] is_first(fv, same_file(f2), k);
        assert(k1 != k2);
        lemma_report_with_existing(fv, sorting, f1, a, k1);
        lemma_report_with_existing(fv, sorting, f2, b, k2);
        assert(is_first(ra, same_file(f2), k2)) by {
            assert forall|j: int| 0 <= j < k2 implies !same_file(f2)(#[trigger] ra[j]) by {
                assert(ra[j].0 == fv[j].0);
            }
        }
        assert(is_first(rb, same_file(f1), k1)) by {
            assert forall|j: int| 0 <= j < k1 implies !same_file(f1)(#[trigger] rb[j]) by {
                assert(rb[j].0 == fv[j].0);
            }
        }
        lemma_report_with_existing(ra, sorting, f2, b, k2);
        lemma_report_with_existing(rb, sorting, f1, a, k1);
        assert(ra[k2] == fv[k2] && rb[k1] == fv[k1]);
        assert(report_with(ra, sorting, f2, b) =~= report_with(rb, sorting, f1, a));
}

proof fn lemma_commute_new_new(fv: Seq<(Seq<char>, Seq<EntryView>)>, sorting: Sorting,
    f1: Seq<char>, a: EntryView, f2: Seq<char>, b: EntryView)
    requires
        paths_sorted_strictly(fv),
        path_lt(f1, f2),
        !exists|k: int| #[trigger] is_first(fv, same_file(f1), k),
        !exists|k: int| #[trigger] is_first(fv, same_file(f2), k),
    ensures
        report_with(report_with(fv, sorting, f1, a), sorting, f2, b)
            == report_with(report_with(fv, sorting, f2, b), sorting, f1, a),
{
    assert(!path_same(f1, f2)) by {
        if path_same(f1, f2) {
            lemma_components_lt_irrefl(path_components(f1));
        }
    }
    let ra = report_with(fv, sorting, f1, a);
    let rb = report_with(fv, sorting, f2, b);
        lemma_report_with_new(fv, sorting, f1, a);
        lemma_report_with_new(fv, sorting, f2, b);
        lemma_no_file(fv, f1);
        lemma_no_file(fv, f2);
        lemma_file_lead(fv, f1);
        lemma_file_lead(fv, f2);
        let q1 = lead_count(fv, file_precedes(f1));
        let q2 = lead_count(fv, file_precedes(f2));
        assert(!exists|k: int| #[trigger] is_first(ra, same_file(f2), k)) by {
            if exists|k: int| #[trigger] is_first(ra, same_file(f2), k) {
                let k = choose|k: int| #[trigger] is_first(ra, same_file(f2), k);
                if k < q1 {
                    assert(ra[k] == fv[k]);
                } else if k > q1 {
                    assert(ra[k] == fv[k - 1]);
                } else {
                    assert(ra[k].0 == f1);
                }
            }
        }
        assert(!exists|k: int| #[trigger] is_first(rb, same_file(f1), k)) by {
            if exists|k: int| #[trigger] is_first(rb, same_file(f1), k) {
                let k = choose|k: int| #[trigger] is_first(rb, same_file(f1), k);
                if k < q2 {
                    assert(rb[k] == fv[k]);
                } else if k > q2 {
                    assert(rb[k] == fv[k - 1]);
                } else {
                    assert(rb[k].0 == f2);
                }
            }
        }
        lemma_report_with_new(ra, sorting, f2, b);
        lemma_report_with_new(rb, sorting, f1, a);
            lemma_path_lt_asym(f1, f2);
        assert(q1 <= q2) by {
            if q2 < q1 {
                assert(path_lt(fv[q2].0, f1));
                lemma_components_lt_trans(path_components(fv[q2].0), path_components(f1), path_components(f2));
            }
        }
        assert forall|j: int| 0 <= j < q2 + 1 implies file_precedes(f2)(#[trigger] ra[j]) by {
            if j < q1 {
                assert(ra[j] == fv[j]);
            } else if j > q1 {
                assert(ra[j] == fv[j - 1]);
            }
        }
        if q2 + 1 < ra.len() {
            assert(ra[q2 + 1] == fv[q2]);
        }
        lemma_lead_count(ra, file_precedes(f2), q2 + 1);
        assert forall|j: int| 0 <= j < q1 implies file_precedes(f1)(#[trigger] rb[j]) by {
            assert(rb[j] == fv[j]);
        }
        if q1 < rb.len() {
            if q1 < q2 {
                assert(rb[q1] == fv[q1]);
            } else {
                assert(rb[q1].0 == f2);
            }
        }
        lemma_lead_count(rb, file_precedes(f1), q1);
        assert(ra.insert(q2 + 1, (f2, seq![b])) =~= rb.insert(q1, (f1, seq![a])));
}

proof fn lemma_commute_old_new(fv: Seq<(Seq<char>, Seq<EntryView>)>, sorting: Sorting,
    f1: Seq<char>, a: EntryView, f2: Seq<char>, b: EntryView)
    requires
        !path_same(f1, f2),
        exists|k: int| #[trigger] is_first(fv, same_file(f1), k),
        !exists|k: int| #[trigger] is_first(fv, same_file(f2), k),
    ensures
        report_with(report_with(fv, sorting, f1, a), sorting, f2, b)
            == report_with(report_with(fv, sorting, f2, b), sorting, f1, a),
{
    let ra = report_with(fv, sorting, f1, a);
    let rb = report_with(fv, sorting, f2, b);
    let k1 = choose|k: int| #[trigger] is_first(fv, same_file(f1), k);
    lemma_report_with_existing(fv, sorting, f1, a, k1);
    lemma_report_with_new(fv, sorting, f2, b);
    lemma_no_file(fv, f2);
    let q2 = lead_count(fv, file_precedes(f2));
    let x = (fv[k1].0, placed(sorting, fv[k1].1, a));
    assert(!exists|k: int| #[trigger] is_first(ra, same_file(f2), k)) by {
        if exists|k: int| #[trigger] is_first(ra, same_file(f2), k) {
            let k = choose|k: int| #[trigger] is_first(ra, same_file(f2), k);
            assert(ra[k].0 == fv[k].0);
        }
    }
    lemma_report_with_new(ra, sorting, f2, b);
    lemma_lead_same(ra, fv, file_precedes(f2));
    let k1b = if k1 < q2 { k1 } else { k1 + 1 };
    assert(is_first(rb, same_file(f1), k1b)) by {
        assert(rb[k1b] == fv[k1]);
        assert forall|j: int| 0 <= j < k1b implies !same_file(f1)(#[trigger] rb[j]) by {
            if j < q2 {
                assert(rb[j] == fv[j]);
            } else if j > q2 {
                assert(rb[j] == fv[j - 1]);
            } else {
                assert(rb[j].0 == f2);
            }
        }
    }
    lemma_report_with_existing(rb, sorting, f1, a, k1b);
    assert(rb[k1b] == fv[k1]);
    assert(ra.insert(q2, (f2, seq![b])) =~= rb.update(k1b, x));
}

} // verus!
