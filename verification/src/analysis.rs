//! Running the detectors over a module and turning what they report into report entries.
use vstd::prelude::*;
use crate::ast::{ExprKind, Module, StatementKind};
use crate::detectors::{finding_view, findings_view, FindingView, Finding, Reference, reference_view, gather, BlockStack,
    open_blocks, lemma_open_blocks_step};
use crate::detectors::arbitrary_asset_transfer::{arbitrary_asset_transfer_at, ArbitraryAssetTransferVisitor};
use crate::detectors::arbitrary_code_execution::{arbitrary_code_execution_at, ArbitraryCodeExecutionVisitor};
use crate::detectors::boolean_comparison::{boolean_comparison_at, BooleanComparisonVisitor};
use crate::detectors::discarded_assignment::{discarded_assignment_at, DiscardedAssignmentVisitor};
use crate::detectors::division_before_multiplication::{division_before_multiplication_at, DivisionBeforeMultiplicationVisitor};
use crate::detectors::explicit_return_statement::{explicit_return_at, ExplicitReturnStatementVisitor};
use crate::detectors::external_call_in_loop::{external_call_at, ExternalCallInLoopVisitor};
use crate::detectors::inline_assembly_usage::{inline_assembly_at, InlineAssemblyUsageVisitor};
use crate::detectors::large_literal::{large_literal_at, LargeLiteralsVisitor};
use crate::detectors::locked_native_asset::{locked_native_asset_findings, LockedNativeAssetVisitor};
use crate::detectors::magic_number::{magic_number_at, MagicNumberVisitor};
use crate::detectors::manipulatable_balance_usage::{manipulatable_balance_at, ManipulatableBalanceUsageVisitor};
use crate::detectors::missing_logs::{missing_logs_at, MissingLogsVisitor};
use crate::detectors::msg_amount_in_loop::{msg_amount_at, MsgAmountInLoopVisitor};
use crate::detectors::non_zero_identity_validation::{non_zero_identity_at, NonZeroIdentityValidationVisitor};
use crate::detectors::potential_infinite_loop::{infinite_loop_at, PotentialInfiniteLoopsVisitor};
use crate::detectors::redundant_comparison::{redundant_comparison_at, RedundantComparisonVisitor};
use crate::detectors::redundant_storage_access::{redundant_storage_access_at, RedundantStorageAccessVisitor};
use crate::detectors::storage_field_mutability::{storage_field_mutability_findings, StorageFieldMutabilityVisitor};
use crate::detectors::storage_not_updated::{storage_not_updated_at, StorageNotUpdatedVisitor, reassignments_named,
    unnamed_reassignment};
use crate::detectors::storage_read_in_loop_condition::{storage_read_in_loop_condition_at, StorageReadInLoopConditionVisitor};
use crate::detectors::strict_equality::{strict_equality_at, StrictEqualityVisitor};
use crate::detectors::unchecked_call_payload::{unchecked_call_payload_at, UncheckedCallPayloadVisitor};
use crate::detectors::unprotected_initialization::{unprotected_initialization_findings, UnprotectedInitializationVisitor};
use crate::detectors::unprotected_storage_variable::{unprotected_storage_findings, UnprotectedStorageVariablesVisitor};
use crate::detectors::unsafe_timestamp_usage::{unsafe_timestamp_at, UnsafeTimestampUsageVisitor};
use crate::detectors::unused_import::{unused_import_findings, UnusedImportVisitor};
use crate::detectors::weak_prng::{weak_prng_at, WeakPrngVisitor};
use crate::error::Error;
use crate::project::{SourceLines, first_file, ranges_view, line_of};
use crate::report::{Entry, EntryView, entry_view};
use crate::search::{is_first, lemma_first_unique};
use crate::text::{push_str, str_eq, copy_string, strings_view};
use crate::path::{path_lt, path_less};
use crate::utils::{assignable_idents, fold_assignable_idents};
use crate::walk::{Event, module_events, trace_module};

verus! {

/// How many detectors there are.
pub const DETECTOR_COUNT: usize = 28;

/// The name of each detector, in the order in which they run.
pub open spec fn detector_name_spec(d: int) -> Seq<char> {
    if d == 0 {
        "arbitrary_asset_transfer"@
    } else if d == 1 {
        "arbitrary_code_execution"@
    } else if d == 2 {
        "boolean_comparison"@
    } else if d == 3 {
        "discarded_assignment"@
    } else if d == 4 {
        "division_before_multiplication"@
    } else if d == 5 {
        "explicit_return_statement"@
    } else if d == 6 {
        "external_call_in_loop"@
    } else if d == 7 {
        "inline_assembly_usage"@
    } else if d == 8 {
        "large_literal"@
    } else if d == 9 {
        "locked_native_asset"@
    } else if d == 10 {
        "magic_number"@
    } else if d == 11 {
        "manipulatable_balance_usage"@
    } else if d == 12 {
        "missing_logs"@
    } else if d == 13 {
        "msg_amount_in_loop"@
    } else if d == 14 {
        "non_zero_identity_validation"@
    } else if d == 15 {
        "potential_infinite_loop"@
    } else if d == 16 {
        "redundant_comparison"@
    } else if d == 17 {
        "redundant_storage_access"@
    } else if d == 18 {
        "storage_field_mutability"@
    } else if d == 19 {
        "storage_not_updated"@
    } else if d == 20 {
        "storage_read_in_loop_condition"@
    } else if d == 21 {
        "strict_equality"@
    } else if d == 22 {
        "unchecked_call_payload"@
    } else if d == 23 {
        "unprotected_initialization"@
    } else if d == 24 {
        "unprotected_storage_variable"@
    } else if d == 25 {
        "unsafe_timestamp_usage"@
    } else if d == 26 {
        "unused_import"@
    } else {
        "weak_prng"@
    }
}

/// The other name under which the table of detectors lists a detector, if it has one.
pub open spec fn detector_alias(d: int) -> Option<Seq<char>> {
    if d == 2 {
        Some("boolean_comparisons"@)
    } else if d == 3 {
        Some("discarded_assignments"@)
    } else if d == 5 {
        Some("explicit_return_statements"@)
    } else if d == 6 {
        Some("external_calls_in_loop"@)
    } else if d == 8 {
        Some("large_literals"@)
    } else if d == 10 {
        Some("magic_numbers"@)
    } else if d == 15 {
        Some("potential_infinite_loops"@)
    } else if d == 24 {
        Some("unprotected_storage_variables"@)
    } else if d == 26 {
        Some("unused_imports"@)
    } else {
        None
    }
}

/// Whether the name `n` names the detector `d`, by its own name or by its other name.
pub open spec fn names_detector(n: Seq<char>, d: int) -> bool {
    detector_name_spec(d) == n || detector_alias(d) == Some(n)
}

/// Whether the name `n` names some detector.
pub open spec fn known_detector(n: Seq<char>) -> bool {
    exists|d: int| 0 <= d < DETECTOR_COUNT && #[trigger] names_detector(n, d)
}

/// The name of a detector.
pub fn detector_name(d: usize) -> (r: &'static str)
    requires
        d < DETECTOR_COUNT,
    ensures
        r@ == detector_name_spec(d as int),
{
    match d {
        0 => "arbitrary_asset_transfer",
        1 => "arbitrary_code_execution",
        2 => "boolean_comparison",
        3 => "discarded_assignment",
        4 => "division_before_multiplication",
        5 => "explicit_return_statement",
        6 => "external_call_in_loop",
        7 => "inline_assembly_usage",
        8 => "large_literal",
        9 => "locked_native_asset",
        10 => "magic_number",
        11 => "manipulatable_balance_usage",
        12 => "missing_logs",
        13 => "msg_amount_in_loop",
        14 => "non_zero_identity_validation",
        15 => "potential_infinite_loop",
        16 => "redundant_comparison",
        17 => "redundant_storage_access",
        18 => "storage_field_mutability",
        19 => "storage_not_updated",
        20 => "storage_read_in_loop_condition",
        21 => "strict_equality",
        22 => "unchecked_call_payload",
        23 => "unprotected_initialization",
        24 => "unprotected_storage_variable",
        25 => "unsafe_timestamp_usage",
        26 => "unused_import",
        _ => "weak_prng",
    }
}

fn detector_alias_exec(d: usize) -> (r: Option<&'static str>)
    ensures
        match detector_alias(d as int) {
            Some(a) => r matches Some(x) && x@ == a,
            None => r is None,
        },
{
    match d {
        2 => Some("boolean_comparisons"),
        3 => Some("discarded_assignments"),
        5 => Some("explicit_return_statements"),
        6 => Some("external_calls_in_loop"),
        8 => Some("large_literals"),
        10 => Some("magic_numbers"),
        15 => Some("potential_infinite_loops"),
        24 => Some("unprotected_storage_variables"),
        26 => Some("unused_imports"),
        _ => None,
    }
}

/// Whether `name` names the detector `d`.
pub fn names_detector_exec(name: &str, d: usize) -> (r: bool)
    requires
        d < DETECTOR_COUNT,
    ensures
        r == names_detector(name@, d as int),
{
    if str_eq(name, detector_name(d)) {
        return true;
    }
    match detector_alias_exec(d) {
        Some(a) => str_eq(name, a),
        None => false,
    }
}

/// Whether `name` names some detector.
pub fn is_known_detector(name: &str) -> (r: bool)
    ensures
        r == known_detector(name@),
{
    let mut d: usize = 0;
    while d < DETECTOR_COUNT
        invariant
            d <= DETECTOR_COUNT,
            forall|x: int| 0 <= x < d ==> !#[trigger] names_detector(name@, x),
        decreases DETECTOR_COUNT - d,
    {
        if names_detector_exec(name, d) {
            return true;
        }
        d = d + 1;
    }
    false
}

/// Whether the detector `d` runs when the names `requested` are asked for: all run when none is.
pub open spec fn chosen(requested: Seq<Seq<char>>, d: int) -> bool {
    requested.len() == 0 || exists|k: int| 0 <= k < requested.len() && #[trigger] names_detector(requested[k], d)
}

/// The detectors below `d` that run, in order.
pub open spec fn chosen_upto(requested: Seq<Seq<char>>, d: int) -> Seq<int>
    decreases d,
{
    if d <= 0 {
        Seq::empty()
    } else {
        chosen_upto(requested, d - 1) + if chosen(requested, d - 1) { seq![d - 1] } else { Seq::empty() }
    }
}

/// A name that names no detector.
pub open spec fn unknown_name() -> spec_fn(Seq<char>) -> bool {
    |n: Seq<char>| !known_detector(n)
}

/// The values of a list of names.
pub open spec fn names_of(v: Seq<String>) -> Seq<Seq<char>> {
    v.map_values(|s: String| s@)
}

/// The detectors to run for the requested names, in their own order: all of them when no name is
/// given. A name that names no detector is refused, the first such name being reported.
pub fn select_detectors(requested: &Vec<String>) -> (r: Result<Vec<usize>, Error>)
    ensures
        match r {
            Ok(v) => (forall|k: int| 0 <= k < requested@.len() ==> #[trigger] known_detector(requested@[k]@))
                && v@.map_values(|d: usize| d as int) == chosen_upto(names_of(requested@), DETECTOR_COUNT as int)
                && (forall|k: int| 0 <= k < v@.len() ==> #[trigger] v@[k] < DETECTOR_COUNT),
            Err(e) => exists|k: int| #[trigger] is_first(names_of(requested@), unknown_name(), k)
                && (e matches Error::Wrapped(m) && m@ == "Detector not found in detectors collection : "@ + requested@[k]@),
        },
{
    let ghost names = names_of(requested@);
    let mut k: usize = 0;
    while k < requested.len()
        invariant
            k <= requested@.len(),
            names == names_of(requested@),
            forall|j: int| 0 <= j < k ==> #[trigger] known_detector(requested@[j]@),
        decreases requested@.len() - k,
    {
        if !is_known_detector(requested[k].as_str()) {
            let mut m = copy_string("Detector not found in detectors collection : ");
            push_str(&mut m, requested[k].as_str());
            proof {
                assert forall|j: int| 0 <= j < k implies !#[trigger] unknown_name()(names[j]) by {
                    assert(names[j] == requested@[j]@);
                }
                assert(names[k as int] == requested@[k as int]@);
                assert(is_first(names, unknown_name(), k as int));
            }
            return Err(Error::Wrapped(m));
        }
        k = k + 1;
    }
    let mut out: Vec<usize> = Vec::new();
    let mut d: usize = 0;
    while d < DETECTOR_COUNT
        invariant
            d <= DETECTOR_COUNT,
            names == names_of(requested@),
            out@.map_values(|x: usize| x as int) == chosen_upto(names, d as int),
            forall|k: int| 0 <= k < out@.len() ==> #[trigger] out@[k] < d,
        decreases DETECTOR_COUNT - d,
    {
        let mut pick = requested.len() == 0;
        let mut j: usize = 0;
        while j < requested.len() && !pick
            invariant
                j <= requested@.len(),
                d < DETECTOR_COUNT,
                names == names_of(requested@),
                pick == (requested@.len() == 0 || exists|x: int| 0 <= x < j && #[trigger] names_detector(names[x], d as int)),
            decreases requested@.len() - j,
        {
            if names_detector_exec(requested[j].as_str(), d) {
                pick = true;
                proof {
                    assert(names[j as int] == requested@[j as int]@);
                    assert(names_detector(names[j as int], d as int));
                }
            }
            j = j + 1;
        }
        proof {
            if !pick {
                assert(j == requested@.len());
            }
            assert(pick == chosen(names, d as int));
        }
        let ghost before = out@.map_values(|x: usize| x as int);
        if pick {
            out.push(d);
        }
        proof {
            assert(out@.map_values(|x: usize| x as int) =~= before + if chosen(names, d as int) { seq![d as int] } else { Seq::empty() });
        }
        d = d + 1;
    }
    Ok(out)
}

/// What the detector `d` reports for a module, given the events of its walk.
pub open spec fn detector_findings<'a>(d: int, m: Module, evs: Seq<Event<'a>>) -> Seq<FindingView> {
    if d == 0 {
        gather(evs, |i: int, ev: Event<'a>| arbitrary_asset_transfer_at(evs, i, ev))
    } else if d == 1 {
        gather(evs, |i: int, ev: Event<'a>| arbitrary_code_execution_at(evs, i, ev))
    } else if d == 2 {
        gather(evs, |i: int, ev: Event<'a>| boolean_comparison_at(i, ev))
    } else if d == 3 {
        gather(evs, |i: int, ev: Event<'a>| discarded_assignment_at(evs, i, ev))
    } else if d == 4 {
        gather(evs, |i: int, ev: Event<'a>| division_before_multiplication_at(evs, i, ev))
    } else if d == 5 {
        gather(evs, |i: int, ev: Event<'a>| explicit_return_at(i, ev))
    } else if d == 6 {
        gather(evs, |i: int, ev: Event<'a>| external_call_at(evs, i, ev))
    } else if d == 7 {
        gather(evs, |i: int, ev: Event<'a>| inline_assembly_at(i, ev))
    } else if d == 8 {
        gather(evs, |i: int, ev: Event<'a>| large_literal_at(i, ev))
    } else if d == 9 {
        locked_native_asset_findings(evs)
    } else if d == 10 {
        gather(evs, |i: int, ev: Event<'a>| magic_number_at(evs, i, ev))
    } else if d == 11 {
        gather(evs, |i: int, ev: Event<'a>| manipulatable_balance_at(evs, i, ev))
    } else if d == 12 {
        gather(evs, |i: int, ev: Event<'a>| missing_logs_at(evs, i, ev))
    } else if d == 13 {
        gather(evs, |i: int, ev: Event<'a>| msg_amount_at(evs, i, ev))
    } else if d == 14 {
        gather(evs, |i: int, ev: Event<'a>| non_zero_identity_at(evs, i, ev))
    } else if d == 15 {
        gather(evs, |i: int, ev: Event<'a>| infinite_loop_at(evs, i, ev))
    } else if d == 16 {
        gather(evs, |i: int, ev: Event<'a>| redundant_comparison_at(evs, i, ev))
    } else if d == 17 {
        gather(evs, |i: int, ev: Event<'a>| redundant_storage_access_at(evs, i, ev))
    } else if d == 18 {
        storage_field_mutability_findings(evs)
    } else if d == 19 {
        gather(evs, |i: int, ev: Event<'a>| storage_not_updated_at(evs, i, ev))
    } else if d == 20 {
        gather(evs, |i: int, ev: Event<'a>| storage_read_in_loop_condition_at(i, ev))
    } else if d == 21 {
        gather(evs, |i: int, ev: Event<'a>| strict_equality_at(evs, i, ev))
    } else if d == 22 {
        gather(evs, |i: int, ev: Event<'a>| unchecked_call_payload_at(evs, i, ev))
    } else if d == 23 {
        unprotected_initialization_findings(evs)
    } else if d == 24 {
        unprotected_storage_findings(m, evs)
    } else if d == 25 {
        gather(evs, |i: int, ev: Event<'a>| unsafe_timestamp_at(evs, i, ev))
    } else if d == 26 {
        unused_import_findings(evs)
    } else {
        gather(evs, |i: int, ev: Event<'a>| weak_prng_at(evs, i, ev))
    }
}

/// Runs the detector `d` on a module and the events of its walk.
pub fn run_detector<'a>(d: usize, module: &Module, events: &Vec<Event<'a>>) -> (r: Vec<Finding>)
    requires
        d < DETECTOR_COUNT,
        d == 19 ==> reassignments_named(events@),
    ensures
        findings_view(r@) == detector_findings(d as int, *module, events@),
{
    match d {
        0 => ArbitraryAssetTransferVisitor.detect(events),
        1 => ArbitraryCodeExecutionVisitor.detect(events),
        2 => BooleanComparisonVisitor.detect(events),
        3 => DiscardedAssignmentVisitor.detect(events),
        4 => DivisionBeforeMultiplicationVisitor.detect(events),
        5 => ExplicitReturnStatementVisitor.detect(events),
        6 => ExternalCallInLoopVisitor.detect(events),
        7 => InlineAssemblyUsageVisitor.detect(events),
        8 => LargeLiteralsVisitor.detect(events),
        9 => LockedNativeAssetVisitor.detect(events),
        10 => MagicNumberVisitor.detect(events),
        11 => ManipulatableBalanceUsageVisitor.detect(events),
        12 => MissingLogsVisitor.detect(events),
        13 => MsgAmountInLoopVisitor.detect(events),
        14 => NonZeroIdentityValidationVisitor.detect(events),
        15 => PotentialInfiniteLoopsVisitor.detect(events),
        16 => RedundantComparisonVisitor.detect(events),
        17 => RedundantStorageAccessVisitor.detect(events),
        18 => StorageFieldMutabilityVisitor.detect(events),
        19 => StorageNotUpdatedVisitor.detect(events),
        20 => StorageReadInLoopConditionVisitor.detect(events),
        21 => StrictEqualityVisitor.detect(events),
        22 => UncheckedCallPayloadVisitor.detect(events),
        23 => UnprotectedInitializationVisitor.detect(events),
        24 => UnprotectedStorageVariablesVisitor.detect(module, events),
        25 => UnsafeTimestampUsageVisitor.detect(events),
        26 => UnusedImportVisitor.detect(events),
        _ => WeakPrngVisitor.detect(events),
    }
}

/// The findings of `s` reported at walk position `e`, in order.
pub open spec fn with_event(s: Seq<FindingView>, e: int) -> Seq<FindingView>
    decreases s.len(),
{
    if s.len() == 0 {
        Seq::empty()
    } else {
        with_event(s.drop_last(), e) + if s.last().0 == e { seq![s.last()] } else { Seq::empty() }
    }
}

/// What the detectors report at walk position `e`: the findings of each detector there, the
/// detectors taken in order.
pub open spec fn at_position(per: Seq<Seq<FindingView>>, e: int) -> Seq<FindingView>
    decreases per.len(),
{
    if per.len() == 0 {
        Seq::empty()
    } else {
        at_position(per.drop_last(), e) + with_event(per.last(), e)
    }
}

/// What the detectors report at the walk positions below `e`, position by position.
pub open spec fn merged_upto(per: Seq<Seq<FindingView>>, e: int) -> Seq<FindingView>
    decreases e,
{
    if e <= 0 {
        Seq::empty()
    } else {
        merged_upto(per, e - 1) + at_position(per, e - 1)
    }
}

/// What the detectors report over a walk of `n` events: position by position, the end of the
/// module (position `n`) last.
pub open spec fn merged(per: Seq<Seq<FindingView>>, n: int) -> Seq<FindingView> {
    merged_upto(per, n + 1)
}

/// The values of the findings of each detector.
pub open spec fn per_view(per: Seq<Vec<Finding>>) -> Seq<Seq<FindingView>> {
    per.map_values(|v: Vec<Finding>| findings_view(v@))
}

fn copy_finding(f: &Finding) -> (r: Finding)
    ensures
        finding_view(r) == finding_view(*f),
{
    let reference = match &f.reference {
        Some(x) => Some(Reference { offset: x.offset, lead: copy_string(x.lead.as_str()), required: x.required,
            tail: copy_string(x.tail.as_str()) }),
        None => None,
    };
    Finding { event: f.event, start: f.start, severity: f.severity, text: copy_string(f.text.as_str()), reference }
}

fn collect_at(per: &Vec<Vec<Finding>>, e: usize, out: &mut Vec<Finding>)
    ensures
        findings_view(final(out)@) == findings_view(old(out)@) + at_position(per_view(per@), e as int),
{
    let ghost pv = per_view(per@);
    let ghost start = findings_view(out@);
    let mut d: usize = 0;
    while d < per.len()
        invariant
            d <= per@.len(),
            pv == per_view(per@),
            findings_view(out@) == start + at_position(pv.take(d as int), e as int),
        decreases per@.len() - d,
    {
        proof {
            assert(pv.take(d as int + 1).drop_last() =~= pv.take(d as int));
            assert(pv.take(d as int + 1).last() == findings_view(per@[d as int]@));
        }
        let v = &per[d];
        let ghost vv = findings_view(v@);
        let ghost mid = findings_view(out@);
        let mut j: usize = 0;
        while j < v.len()
            invariant
                j <= v@.len(),
                vv == findings_view(v@),
                findings_view(out@) == mid + with_event(vv.take(j as int), e as int),
            decreases v@.len() - j,
        {
            proof {
                assert(vv.take(j as int + 1).drop_last() =~= vv.take(j as int));
                assert(vv.take(j as int + 1).last() == finding_view(v@[j as int]));
            }
            let ghost b = findings_view(out@);
            if v[j].event == e {
                out.push(copy_finding(&v[j]));
            }
            proof {
                assert(findings_view(out@) =~= b + if vv[j as int].0 == e as int { seq![vv[j as int]] } else { Seq::empty() });
            }
            j = j + 1;
        }
        proof {
            assert(vv.take(j as int) =~= vv);
        }
        d = d + 1;
    }
    proof {
        assert(pv.take(d as int) =~= pv);
    }
}

/// The findings of all detectors over a walk of `n` events, ordered by walk position and, at
/// one position, by detector.
pub fn merge_findings(per: &Vec<Vec<Finding>>, n: usize) -> (r: Vec<Finding>)
    ensures
        findings_view(r@) == merged(per_view(per@), n as int),
{
    let ghost pv = per_view(per@);
    let mut out: Vec<Finding> = Vec::new();
    let mut e: usize = 0;
    while e < n
        invariant
            e <= n,
            pv == per_view(per@),
            findings_view(out@) == merged_upto(pv, e as int),
        decreases n - e,
    {
        collect_at(per, e, &mut out);
        e = e + 1;
    }
    collect_at(per, n, &mut out);
    out
}

/// The character of a decimal digit.
pub open spec fn digit_char(d: int) -> char {
    if d == 0 {
        '0'
    } else if d == 1 {
        '1'
    } else if d == 2 {
        '2'
    } else if d == 3 {
        '3'
    } else if d == 4 {
        '4'
    } else if d == 5 {
        '5'
    } else if d == 6 {
        '6'
    } else if d == 7 {
        '7'
    } else if d == 8 {
        '8'
    } else {
        '9'
    }
}

/// The decimal digits of a number.
pub open spec fn decimal(n: nat) -> Seq<char>
    decreases n,
{
    if n < 10 {
        seq![digit_char(n as int)]
    } else {
        decimal(n / 10).push(digit_char((n % 10) as int))
    }
}

fn digit(d: usize) -> (r: char)
    requires
        d < 10,
    ensures
        r == digit_char(d as int),
{
    if d == 0 {
        '0'
    } else if d == 1 {
        '1'
    } else if d == 2 {
        '2'
    } else if d == 3 {
        '3'
    } else if d == 4 {
        '4'
    } else if d == 5 {
        '5'
    } else if d == 6 {
        '6'
    } else if d == 7 {
        '7'
    } else if d == 8 {
        '8'
    } else {
        '9'
    }
}

/// Appends the decimal digits of `n`.
pub fn push_decimal(out: &mut String, n: usize)
    ensures
        final(out)@ == old(out)@ + decimal(n as nat),
    decreases n,
{
    if n >= 10 {
        push_decimal(out, n / 10);
    }
    let ghost before = out@;
    out.push(digit(n % 10));
    proof {
        if n < 10 {
            assert(out@ =~= old(out)@ + decimal(n as nat));
        } else {
            assert(out@ =~= old(out)@ + decimal(n as nat));
        }
    }
}

/// Whether the line of `offset` can be looked up in the file `path`: the file was loaded, and it
/// has no lines or one of them holds the offset.
pub open spec fn line_found(files: Seq<(String, Vec<(usize, usize)>)>, path: Seq<char>, offset: int) -> bool {
    match first_file(files, path) {
        Some(k) => ranges_view(files[k].1@).len() == 0 || line_of(ranges_view(files[k].1@), offset) is Some,
        None => false,
    }
}

/// The line of `offset` in the file `path`, when it has one.
pub open spec fn line_at(files: Seq<(String, Vec<(usize, usize)>)>, path: Seq<char>, offset: int) -> Option<int> {
    match first_file(files, path) {
        Some(k) => if ranges_view(files[k].1@).len() == 0 { None } else { line_of(ranges_view(files[k].1@), offset) },
        None => None,
    }
}

/// Whether `e` is the error of a failed lookup of `offset` in `path`: the file was never
/// loaded, or no line holds the offset.
pub open spec fn lookup_error(files: Seq<(String, Vec<(usize, usize)>)>, path: Seq<char>, offset: int, e: Error) -> bool {
    match first_file(files, path) {
        None => e matches Error::FileNotFound(p) && p@ == path,
        Some(_) => e matches Error::LineNotFound(p, o) && p@ == path && o as int == offset,
    }
}

/// Whether the lines a finding needs can be looked up: the line it points to, and the line its
/// message names.
pub open spec fn resolves(files: Seq<(String, Vec<(usize, usize)>)>, path: Seq<char>, f: FindingView) -> bool {
    line_found(files, path, f.1) && match f.4 {
        Some(r) => line_found(files, path, r.0),
        None => true,
    }
}

/// A finding whose lines cannot all be looked up.
pub open spec fn unresolved(files: Seq<(String, Vec<(usize, usize)>)>, path: Seq<char>) -> spec_fn(FindingView) -> bool {
    |f: FindingView| !resolves(files, path, f)
}

/// Whether `e` is the error a finding gives: that of the line it points to, else that of the
/// line its message names.
pub open spec fn resolution_error(files: Seq<(String, Vec<(usize, usize)>)>, path: Seq<char>, f: FindingView, e: Error) -> bool {
    if !line_found(files, path, f.1) {
        lookup_error(files, path, f.1, e)
    } else {
        match f.4 {
            Some(r) => lookup_error(files, path, r.0, e),
            None => false,
        }
    }
}

/// Whether a finding names a line that it must have while the file was loaded without lines.
pub open spec fn lacks_required_line(files: Seq<(String, Vec<(usize, usize)>)>, path: Seq<char>, f: FindingView) -> bool {
    match f.4 {
        Some(r) => r.2 && match first_file(files, path) {
            Some(k) => ranges_view(files[k].1@).len() == 0,
            None => false,
        },
        None => false,
    }
}

/// The message of a finding in the report: its text, then, when it refers to a line, the lead
/// and `L` with the line number when there is one, and the rest of the message.
pub open spec fn finding_text(files: Seq<(String, Vec<(usize, usize)>)>, path: Seq<char>, f: FindingView) -> Seq<char> {
    f.3 + match f.4 {
        Some(r) => (match line_at(files, path, r.0) {
            Some(n) => r.1 + "L"@ + decimal(n as nat),
            None => Seq::empty(),
        }) + r.3,
        None => Seq::empty(),
    }
}

/// A line number as an entry holds it.
pub open spec fn entry_line(o: Option<int>) -> Option<usize> {
    match o {
        Some(n) => Some(n as usize),
        None => None,
    }
}

/// The entry a finding gives: the line it points to, its severity and its message.
pub open spec fn entry_value(files: Seq<(String, Vec<(usize, usize)>)>, path: Seq<char>, f: FindingView) -> EntryView {
    (entry_line(line_at(files, path, f.1)), f.2, finding_text(files, path, f))
}

/// The entries of the findings of `path`, in order: an error when the lines of a finding cannot
/// be looked up, the first such finding giving it.
pub fn findings_to_entries(lines: &SourceLines, path: &str, findings: &Vec<Finding>) -> (r: Result<Vec<Entry>, Error>)
    requires
        forall|k: int| 0 <= k < findings@.len() ==> !lacks_required_line(lines.files@, path@, #[trigger] findings_view(findings@)[k]),
    ensures
        match r {
            Ok(es) => (forall|k: int| 0 <= k < findings@.len() ==> resolves(lines.files@, path@, #[trigger] findings_view(findings@)[k]))
                && es@.map_values(|x: Entry| entry_view(x))
                    == findings_view(findings@).map_values(|f: FindingView| entry_value(lines.files@, path@, f)),
            Err(e) => exists|k: int| #[trigger] is_first(findings_view(findings@), unresolved(lines.files@, path@), k)
                && resolution_error(lines.files@, path@, findings_view(findings@)[k], e),
        },
{
    let ghost files = lines.files@;
    let ghost fv = findings_view(findings@);
    let ghost want = fv.map_values(|f: FindingView| entry_value(files, path@, f));
    let mut out: Vec<Entry> = Vec::new();
    let mut i: usize = 0;
    while i < findings.len()
        invariant
            i <= findings@.len(),
            files == lines.files@,
            fv == findings_view(findings@),
            want == fv.map_values(|f: FindingView| entry_value(files, path@, f)),
            forall|k: int| 0 <= k < i ==> resolves(files, path@, #[trigger] fv[k]),
            out@.map_values(|x: Entry| entry_view(x)) == want.take(i as int),
        decreases findings@.len() - i,
    {
        let f = &findings[i];
        proof {
            assert(fv[i as int] == finding_view(*f));
        }
        let line = match lines.span_to_line(path, f.start) {
            Ok(l) => l,
            Err(e) => {
                proof {
                    assert forall|k: int| 0 <= k < i implies !#[trigger] unresolved(files, path@)(fv[k]) by {}
                    assert(is_first(fv, unresolved(files, path@), i as int));
                }
                return Err(e);
            },
        };
        let mut text = copy_string(f.text.as_str());
        match &f.reference {
            Some(x) => {
                match lines.span_to_line(path, x.offset) {
                    Ok(Some(n)) => {
                        push_str(&mut text, x.lead.as_str());
                        push_str(&mut text, "L");
                        push_decimal(&mut text, n);
                    },
                    Ok(None) => {},
                    Err(e) => {
                        proof {
                            assert forall|k: int| 0 <= k < i implies !#[trigger] unresolved(files, path@)(fv[k]) by {}
                            assert(is_first(fv, unresolved(files, path@), i as int));
                        }
                        return Err(e);
                    },
                }
                push_str(&mut text, x.tail.as_str());
            },
            None => {},
        }
        let ghost before = out@.map_values(|x: Entry| entry_view(x));
        let entry = Entry { line, severity: f.severity, text };
        proof {
            assert(entry_view(entry) == entry_value(files, path@, fv[i as int]));
        }
        out.push(entry);
        proof {
            assert(before.len() == i);
            assert(out@.len() == i + 1);
            assert(out@.map_values(|x: Entry| entry_view(x)).len() == i + 1);
            assert(out@.map_values(|x: Entry| entry_view(x)) =~= want.take(i as int + 1));
        }
        i = i + 1;
    }
    proof {
        assert(want.take(i as int) =~= want);
    }
    Ok(out)
}

/// The findings of the detectors `ds` on a module: over the walk of the module, position by
/// position, and at one position in the order of `ds`.
pub open spec fn module_findings(m: &Module, ds: Seq<usize>) -> Seq<FindingView> {
    merged(ds.map_values(|d: usize| detector_findings(d as int, *m, trace_module(m))), trace_module(m).len() as int)
}

/// Whether the detector that follows storage values runs.
pub open spec fn uses_storage_tracking(ds: Seq<usize>) -> bool {
    ds.contains(19)
}

/// Whether every reassignment statement of a function, among the events, names the variable it
/// assigns to.
pub fn reassignments_are_named<'a>(events: &Vec<Event<'a>>) -> (r: bool)
    ensures
        r == reassignments_named(events@),
{
    let mut stack = BlockStack::new();
    let mut i: usize = 0;
    while i < events.len()
        invariant
            i <= events@.len(),
            stack.view() == open_blocks(events@.take(i as int)),
            forall|j: int| 0 <= j < i ==> !#[trigger] unnamed_reassignment(events@, j),
        decreases events@.len() - i,
    {
        proof {
            lemma_open_blocks_step(events@, i as int);
        }
        let ev = &events[i];
        match ev {
            Event::Statement(c, s) => {
                if c.item_fn.is_some() && stack.entries.len() > 0 {
                    match &s.kind {
                        StatementKind::Expr { expr, .. } => match &expr.kind {
                            ExprKind::Reassignment { assignable, .. } => {
                                let ids = fold_assignable_idents(assignable);
                                if ids.len() == 0 {
                                    proof {
                                        assert(unnamed_reassignment(events@, i as int));
                                    }
                                    return false;
                                }
                            },
                            _ => {},
                        },
                        _ => {},
                    }
                }
            },
            _ => {},
        }
        stack.step(ev);
        i = i + 1;
    }
    true
}

/// Runs the detectors `ds` over a module and gathers their findings in order.
pub fn module_findings_exec(module: &Module, detectors: &Vec<usize>) -> (r: Vec<Finding>)
    requires
        forall|k: int| 0 <= k < detectors@.len() ==> #[trigger] detectors@[k] < DETECTOR_COUNT,
        uses_storage_tracking(detectors@) ==> reassignments_named(trace_module(module)),
    ensures
        findings_view(r@) == module_findings(module, detectors@),
{
    let events = module_events(module);
    let ghost want = detectors@.map_values(|d: usize| detector_findings(d as int, *module, trace_module(module)));
    let mut per: Vec<Vec<Finding>> = Vec::new();
    let mut k: usize = 0;
    while k < detectors.len()
        invariant
            k <= detectors@.len(),
            events@ == trace_module(module),
            forall|j: int| 0 <= j < detectors@.len() ==> #[trigger] detectors@[j] < DETECTOR_COUNT,
            uses_storage_tracking(detectors@) ==> reassignments_named(trace_module(module)),
            want == detectors@.map_values(|d: usize| detector_findings(d as int, *module, trace_module(module))),
            per_view(per@) == want.take(k as int),
        decreases detectors@.len() - k,
    {
        let d = detectors[k];
        proof {
            if d == 19 {
                assert(detectors@[k as int] == 19);
                assert(detectors@.contains(19));
            }
        }
        let ghost before = per_view(per@);
        let found = run_detector(d, module, &events);
        per.push(found);
        proof {
            assert(before.len() == k);
            assert(per_view(per@) =~= want.take(k as int + 1));
        }
        k = k + 1;
    }
    proof {
        assert(want.take(k as int) =~= want);
    }
    merge_findings(&per, events.len())
}

/// Whether some finding names a line that it must have while the file `path` was loaded without
/// lines.
pub fn lacks_any_required_line(lines: &SourceLines, path: &str, findings: &Vec<Finding>) -> (r: bool)
    ensures
        r == exists|k: int| 0 <= k < findings@.len() && #[trigger] lacks_required_line(lines.files@, path@, findings_view(findings@)[k]),
{
    let ghost fv = findings_view(findings@);
    let empty = match lines.find(path) {
        Some(i) => lines.files[i].1.len() == 0,
        None => false,
    };
    let mut k: usize = 0;
    while k < findings.len()
        invariant
            k <= findings@.len(),
            fv == findings_view(findings@),
            empty == match first_file(lines.files@, path@) {
                Some(i) => ranges_view(lines.files@[i].1@).len() == 0,
                None => false,
            },
            forall|j: int| 0 <= j < k ==> !#[trigger] lacks_required_line(lines.files@, path@, fv[j]),
        decreases findings@.len() - k,
    {
        let required = match &findings[k].reference {
            Some(x) => x.required,
            None => false,
        };
        proof {
            assert(fv[k as int] == finding_view(findings@[k as int]));
        }
        if required && empty {
            proof {
                assert(lacks_required_line(lines.files@, path@, fv[k as int]));
            }
            return true;
        }
        k = k + 1;
    }
    false
}

/// The entries that the detectors `ds` give for the module of `path`, in the order in which the
/// findings come: an error when the lines of a finding cannot be looked up, the first such
/// finding giving it.
pub fn analyze_module(lines: &SourceLines, path: &str, module: &Module, detectors: &Vec<usize>) -> (r: Result<Vec<Entry>, Error>)
    requires
        forall|k: int| 0 <= k < detectors@.len() ==> #[trigger] detectors@[k] < DETECTOR_COUNT,
        uses_storage_tracking(detectors@) ==> reassignments_named(trace_module(module)),
        forall|j: int| 0 <= j < module_findings(module, detectors@).len()
            ==> !#[trigger] lacks_required_line(lines.files@, path@, module_findings(module, detectors@)[j]),
    ensures
        match r {
            Ok(es) => (forall|j: int| 0 <= j < module_findings(module, detectors@).len()
                    ==> #[trigger] resolves(lines.files@, path@, module_findings(module, detectors@)[j]))
                && es@.map_values(|x: Entry| entry_view(x))
                    == module_findings(module, detectors@).map_values(|f: FindingView| entry_value(lines.files@, path@, f)),
            Err(e) => exists|j: int| #[trigger] is_first(module_findings(module, detectors@), unresolved(lines.files@, path@), j)
                && resolution_error(lines.files@, path@, module_findings(module, detectors@)[j], e),
        },
{
    let findings = module_findings_exec(module, detectors);
    proof {
        assert forall|k: int| 0 <= k < findings@.len() implies !lacks_required_line(lines.files@, path@, #[trigger] findings_view(findings@)[k]) by {
            assert(findings_view(findings@)[k] == module_findings(module, detectors@)[k]);
        }
    }
    findings_to_entries(lines, path, &findings)
}

/// As `analyze_module`, for any module: `None` where the analysis cannot be carried through, that
/// is where the detector that follows storage values meets a reassignment that names no
/// variable, or where a finding names a line that it must have while the file has no lines.
pub fn analyze_module_checked(lines: &SourceLines, path: &str, module: &Module, detectors: &Vec<usize>)
    -> (r: Option<Result<Vec<Entry>, Error>>)
    requires
        forall|k: int| 0 <= k < detectors@.len() ==> #[trigger] detectors@[k] < DETECTOR_COUNT,
    ensures
        r is None <==> ((uses_storage_tracking(detectors@) && !reassignments_named(trace_module(module)))
            || exists|j: int| 0 <= j < module_findings(module, detectors@).len()
                && #[trigger] lacks_required_line(lines.files@, path@, module_findings(module, detectors@)[j])),
        match r {
            Some(Ok(es)) => (forall|j: int| 0 <= j < module_findings(module, detectors@).len()
                    ==> #[trigger] resolves(lines.files@, path@, module_findings(module, detectors@)[j]))
                && es@.map_values(|x: Entry| entry_view(x))
                    == module_findings(module, detectors@).map_values(|f: FindingView| entry_value(lines.files@, path@, f)),
            Some(Err(e)) => exists|j: int| #[trigger] is_first(module_findings(module, detectors@), unresolved(lines.files@, path@), j)
                && resolution_error(lines.files@, path@, module_findings(module, detectors@)[j], e),
            None => true,
        },
{
    let mut tracking = false;
    let mut k: usize = 0;
    while k < detectors.len()
        invariant
            k <= detectors@.len(),
            tracking == exists|j: int| 0 <= j < k && detectors@[j] == 19,
        decreases detectors@.len() - k,
    {
        if detectors[k] == 19 {
            tracking = true;
        }
        k = k + 1;
    }
    proof {
        if tracking {
            let j = choose|j: int| 0 <= j < k && detectors@[j] == 19;
            assert(detectors@.contains(19));
        } else {
            assert(!detectors@.contains(19)) by {
                if detectors@.contains(19) {
                    let j = choose|j: int| 0 <= j < detectors@.len() && detectors@[j] == 19;
                    assert(detectors@[j] == 19);
                }
            }
        }
    }
    if tracking {
        let events = module_events(module);
        if !reassignments_are_named(&events) {
            return None;
        }
    }
    let findings = module_findings_exec(module, detectors);
    if lacks_any_required_line(lines, path, &findings) {
        return None;
    }
    proof {
        assert forall|k: int| 0 <= k < findings@.len() implies !lacks_required_line(lines.files@, path@, #[trigger] findings_view(findings@)[k]) by {}
    }
    Some(findings_to_entries(lines, path, &findings))
}

/// `t` with the path `x` put after the last path that does not sort after it.
pub open spec fn insert_path(t: Seq<Seq<char>>, x: Seq<char>) -> Seq<Seq<char>>
    decreases t.len(),
{
    if t.len() == 0 {
        seq![x]
    } else if !path_lt(x, t.last()) {
        t.push(x)
    } else {
        insert_path(t.drop_last(), x).push(t.last())
    }
}

/// The paths in path order.
pub open spec fn sorted_paths(s: Seq<Seq<char>>) -> Seq<Seq<char>>
    decreases s.len(),
{
    if s.len() == 0 {
        Seq::empty()
    } else {
        insert_path(sorted_paths(s.drop_last()), s.last())
    }
}

fn insert_path_exec(t: Vec<String>, x: String) -> (r: Vec<String>)
    ensures
        strings_view(r@) == insert_path(strings_view(t@), x@),
    decreases t@.len(),
{
    let ghost tv = strings_view(t@);
    let mut t = t;
    if t.len() == 0 {
        let mut r: Vec<String> = Vec::new();
        r.push(x);
        proof {
            assert(strings_view(r@) =~= seq![x@]);
        }
        return r;
    }
    let last = t.pop().unwrap();
    proof {
        assert(strings_view(t@) =~= tv.drop_last());
        assert(last@ == tv.last());
    }
    if !path_less(x.as_str(), last.as_str()) {
        t.push(last);
        t.push(x);
        proof {
            assert(strings_view(t@) =~= tv.push(x@));
        }
        t
    } else {
        let mut r = insert_path_exec(t, x);
        let ghost rb = strings_view(r@);
        r.push(last);
        proof {
            assert(strings_view(r@) =~= rb.push(tv.last()));
        }
        r
    }
}

/// The paths in the order in which the modules are analyzed: path order.
pub fn sort_paths(paths: &Vec<String>) -> (r: Vec<String>)
    ensures
        strings_view(r@) == sorted_paths(strings_view(paths@)),
{
    let ghost sv = strings_view(paths@);
    let mut r: Vec<String> = Vec::new();
    let mut i: usize = 0;
    while i < paths.len()
        invariant
            i <= paths@.len(),
            sv == strings_view(paths@),
            strings_view(r@) == sorted_paths(sv.take(i as int)),
        decreases paths@.len() - i,
    {
        proof {
            assert(sv.take(i as int + 1).drop_last() =~= sv.take(i as int));
            assert(sv.take(i as int + 1).last() == paths@[i as int]@);
        }
        r = insert_path_exec(r, copy_string(paths[i].as_str()));
        i = i + 1;
    }
    proof {
        assert(sv.take(i as int) =~= sv);
    }
    r
}

} // verus!
