//! The detectors run on Sway sources, as the command line runs them: each source is parsed
//! into the analyzer's syntax tree, analyzed and its entries added to a report.

use sway_analyzer::ast;
use sway_analyzer::parse::parse_module;
use sway_analyzer::analysis::{analyze_module_checked, select_detectors};
use sway_analyzer::project::SourceLines;
use sway_analyzer::report::{Report, Severity, Sorting};
use sway_analyzer::walk::Event;

const PATH: &str = "src/main.sw";

/// The report of the named detectors (all of them when no name is given) on one source file.
fn analyze(source: &str, detectors: &[&str]) -> Report {
    let module = parse_module(source).expect("the source parses");
    let mut lines = SourceLines::new();
    lines.load_line_ranges(PATH, source);
    let names: Vec<String> = detectors.iter().map(|d| d.to_string()).collect();
    let chosen = select_detectors(&names).expect("the detectors are known");
    let entries = analyze_module_checked(&lines, PATH, &module, &chosen)
        .expect("the analysis can be carried through")
        .expect("every finding has a line");
    let mut report = Report::new(Sorting::Line);
    report.add_entries(PATH, &entries);
    report
}

fn entry_count(report: &Report) -> usize {
    report.entries.iter().map(|(_, entries)| entries.len()).sum()
}

/// The severity that the documentation gives the detector of that name.
fn documented_severity(name: &str) -> Severity {
    match name {
        "arbitrary_asset_transfer" | "arbitrary_code_execution" | "discarded_assignment" | "locked_native_asset"
        | "potential_infinite_loops" | "storage_not_updated" | "strict_equality" | "unprotected_initialization"
        | "unprotected_storage_variables" => Severity::High,
        "external_call_in_loop" | "inline_assembly_usage" | "manipulatable_balance_usage" | "missing_logs"
        | "msg_amount_in_loop" | "redundant_storage_access" | "unsafe_timestamp_usage" | "weak_prng" => Severity::Medium,
        _ => Severity::Low,
    }
}

fn test_detector(name: &str, source: &str, entry_count_expected: usize) {
    let report = analyze(source, &[name]);
    for (_, entries) in report.entries.iter() {
        for e in entries {
            assert_eq!(e.severity, documented_severity(name), "{}", e.text);
        }
    }
    let actual = entry_count(&report);
    if actual != entry_count_expected {
        for (_, entries) in report.entries.iter() {
            for e in entries {
                println!("{:?} {:?} {}", e.line, e.severity, e.text);
            }
        }
        panic!("Expected {entry_count_expected} entries, found {actual} entries");
    }
}

#[test]
fn test_arbitrary_asset_transfer() {
    let source = r#"contract;
use std::asset::transfer;

abi Vault {
    fn send(to: Identity, asset: AssetId, amount: u64);
}

impl Vault for Contract {
    fn send(to: Identity, asset: AssetId, amount: u64) {
        transfer(to, asset, amount);
        transfer(to, asset, amount);
        std::asset::transfer(to, asset, amount);
        std::asset::transfer(to, asset, amount);
    }
}

fn pay(to: Identity, asset: AssetId, amount: u64) {
    transfer(to, asset, amount);
    transfer(to, asset, amount);
    transfer(to, asset, amount);
    transfer(to, asset, amount);
}

fn fixed_amount(to: Identity, asset: AssetId) {
    transfer(to, asset, 5);
}
"#;
    test_detector("arbitrary_asset_transfer", source, 8);
}

#[test]
fn test_arbitrary_code_execution() {
    let source = r#"contract;

fn unchecked() {
    asm(r1: 0, r2: 0, r3: 0) {
        ldc r1 r2 r3 i0;
    }
}

fn checked() {
    require(msg_sender().unwrap() == Identity::Address(Address::from(ZERO_B256)), "not allowed");
    asm(r1: 0, r2: 0, r3: 0) {
        ldc r1 r2 r3 i0;
    }
}
"#;
    test_detector("arbitrary_code_execution", source, 1);
}

#[test]
fn test_boolean_comparison() {
    let source = r#"contract;

fn compare(flag: bool) {
    let a = flag == true;
    let b = flag != false;
    let c = true == flag;
    let d = false == flag;
    let e = flag == false;
    let f = flag != true;
    if true {
    }
    if false {
    }
    if !true {
    }
    if flag == true {
    }
}
"#;
    test_detector("boolean_comparison", source, 10);
}

#[test]
fn test_boolean_comparisons() {
    let source = r#"contract;

fn flags(a: bool, b: bool) -> bool {
    let x = a == true;
    let y = b != false;
    x && y
}
"#;
    test_detector("boolean_comparisons", source, 2);
}

#[test]
fn test_discarded_assignment() {
    let source = r#"contract;

fn assign() -> u64 {
    let mut a = 1;
    a = 2;
    let b = 3;
    let _c = 4;
    let d = 5;
    let e = d;
    let g = 6;
    0
}
"#;
    test_detector("discarded_assignment", source, 5);
}

#[test]
fn test_division_before_multiplication() {
    let source = r#"contract;

fn ratio(x: u64) -> u64 {
    let a = (x / 2) * 3;
    let q = x / 4;
    let r = q * 5;
    let s = x * 2 / 3;
    a + r + s
}
"#;
    test_detector("division_before_multiplication", source, 2);
}

#[test]
fn test_explicit_return_statement() {
    let source = r#"contract;

fn one() -> u64 {
    return 1
}

fn two() -> u64 {
    return 2;
}

fn three() -> u64 {
    3
}

fn four() {
    return;
}
"#;
    test_detector("explicit_return_statement", source, 3);
}

#[test]
fn test_external_call_in_loop() {
    let source = r#"contract;

abi Other {
    fn ping();
}

fn poll(id: b256) {
    let other = abi(Other, id);
    let mut i = 0;
    while i < 10 {
        other.ping();
        abi(Other, id).ping();
        i += 1;
    }
    other.ping();
}
"#;
    test_detector("external_call_in_loop", source, 2);
}

#[test]
fn test_inline_assembly_usage() {
    let source = r#"contract;

fn first() -> u64 {
    asm(r1: 1) {
        r1: u64
    }
}

fn second() -> u64 {
    asm(r1: 2, r2: 3, r3) {
        add r3 r1 r2;
        r3: u64
    }
}

fn third() -> u64 {
    4
}
"#;
    test_detector("inline_assembly_usage", source, 2);
}

#[test]
fn test_locked_native_asset() {
    let source = r#"contract;

abi Deposit {
    #[payable]
    fn deposit();
    #[payable]
    fn top_up();
}

impl Deposit for Contract {
    #[payable]
    fn deposit() {
    }

    #[payable]
    fn top_up() {
    }
}
"#;
    test_detector("locked_native_asset", source, 2);
}

#[test]
fn test_magic_number() {
    let source = r#"contract;

fn fees(amount: u64) -> u64 {
    let a = amount * 3;
    let b = amount / 7 + 2;
    let c = amount - 1;
    let d = 42 + amount;
    let e = amount % 10;
    let f = amount * 9;
    a + b + c + d + e + f
}
"#;
    test_detector("magic_number", source, 5);
}

#[test]
fn test_manipulatable_balance_usage() {
    let source = r#"contract;

storage {
    balances: StorageMap<Identity, u64> = StorageMap {},
}

fn payout(to: Identity, asset: AssetId) {
    let amount = storage.balances.get(to).read();
    transfer(to, asset, amount);
    transfer(to, asset, amount);
    transfer(to, asset, amount);
    transfer(to, asset, amount);
    transfer(to, asset, amount);
}
"#;
    test_detector("manipulatable_balance_usage", source, 5);
}

#[test]
fn test_missing_logs() {
    let source = r#"contract;

storage {
    value: u64 = 0,
    other: u64 = 0,
}

fn set_value(v: u64) {
    storage.value.write(v);
}

fn set_other(v: u64) {
    storage.other.write(v);
}

fn set_logged(v: u64) {
    storage.value.write(v);
    log(v);
}
"#;
    test_detector("missing_logs", source, 2);
}

#[test]
fn test_msg_amount_in_loop() {
    let source = r#"contract;

fn collect() {
    let mut i = 0;
    while i < 4 {
        let a = std::context::msg_amount();
        let b = std::context::msg_amount();
        let c = std::registers::balance();
        let d = std::context::msg_amount();
        i += 1;
    }
    let e = std::context::msg_amount();
}
"#;
    test_detector("msg_amount_in_loop", source, 4);
}

#[test]
fn test_input_identity_validation() {
    let source = r#"contract;

fn set_address(addr: Address) {
}

fn set_checked(addr: Address) {
    require(addr != Address::from(ZERO_B256), "zero address");
}

fn set_contract(id: ContractId) {
}

fn set_identity(who: Identity) {
}
"#;
    test_detector("non_zero_identity_validation", source, 3);
}

#[test]
fn test_potential_infinite_loops() {
    let source = r#"contract;

fn loops(x: u64) {
    let mut i = 0;
    while true {
    }
    while i < 10 {
        i += 1;
    }
    while true {
        break;
    }
    let mut j = 0;
    while i < x {
        j += 1;
    }
}
"#;
    test_detector("potential_infinite_loops", source, 2);
}

#[test]
fn test_redundant_comparison() {
    let source = r#"contract;

fn compare() {
    if 1 < 2 && 3 > 4 || 5 == 6 {
    }
    if 1 < 2 && 3 > 4 || 5 == 6 {
    }
    if 1 < 2 && 3 > 4 || 5 == 6 {
    }
    if 1 < 2 && 3 > 4 || 5 == 6 {
    }
    if 1 < 2 && 3 > 4 || 5 == 6 {
    }
    if 1 < 2 && 3 > 4 || 5 == 6 {
    }
    if 1 < 2 && 3 > 4 || 5 == 6 {
    }
    if 1 < 2 && 3 > 4 || 5 == 6 {
    }
    if 1 < 2 && 3 > 4 || 5 == 6 {
    }
    if 1 < 2 && 3 > 4 || 5 == 6 {
    }
}
"#;
    test_detector("redundant_comparison", source, 30);
}

#[test]
fn test_redundant_storage_access() {
    let source = r#"contract;

storage {
    x: u64 = 0,
}

fn twice() {
    let a = storage.x.read();
    let b = storage.x.read();
    storage.x.write(a);
    storage.x.write(b);
}
"#;
    test_detector("redundant_storage_access", source, 2);
}

#[test]
fn test_storage_read_in_loop_condition() {
    let source = r#"contract;

storage {
    list: StorageVec<u64> = StorageVec {},
}

fn walk() {
    let mut i = 0;
    while i < storage.list.len() {
        i += 1;
    }
    let n = storage.list.len();
    while i < n {
        i += 1;
    }
}
"#;
    test_detector("storage_read_in_loop_condition", source, 1);
}

#[test]
fn test_strict_equality() {
    let source = r#"contract;

fn check(asset: AssetId) {
    if this_balance(asset) == 0 {
    }
    let bal = this_balance(asset);
    if bal == 100 {
    }
    if bal > 100 {
    }
}
"#;
    test_detector("strict_equality", source, 2);
}

#[test]
fn test_unchecked_call_payload() {
    let source = r#"contract;

fn forward(payload: raw_ptr, coins: u64, asset: b256, gas: u64) {
    asm(p: payload, c: coins, a: asset, g: gas) {
        call p c a g;
    }
}

fn forward_again(payload: raw_ptr, coins: u64, asset: b256, gas: u64) {
    asm(p: payload, c: coins, a: asset, g: gas) {
        call p c a g;
    }
}

fn shadowed(payload: raw_ptr, coins: u64, asset: b256, gas: u64) {
    let payload = 0;
    asm(p: payload, c: coins, a: asset, g: gas) {
        call p c a g;
    }
}
"#;
    test_detector("unchecked_call_payload", source, 2);
}

#[test]
fn test_unprotected_initialization() {
    let source = r#"contract;

storage {
    owner: Identity = Identity::Address(Address::from(ZERO_B256)),
    ready: bool = false,
}

fn initialize(owner: Identity) {
    storage.owner.write(owner);
}

fn init_checked(owner: Identity) {
    require(!storage.ready.read(), "already initialized");
    storage.owner.write(owner);
}

fn change_owner(owner: Identity) {
    storage.owner.write(owner);
}
"#;
    test_detector("unprotected_initialization", source, 1);
}

#[test]
fn test_unprotected_storage_variables() {
    let source = r#"contract;

storage {
    owner: Identity = Identity::Address(Address::from(ZERO_B256)),
    value: u64 = 0,
}

#[storage(write)]
fn set_value(v: u64) {
    storage.value.write(v);
}

#[storage(read, write)]
fn set_value_guarded(v: u64) {
    require(msg_sender().unwrap() == storage.owner.read(), "not owner");
    storage.value.write(v);
}
"#;
    test_detector("unprotected_storage_variables", source, 1);
}

#[test]
fn test_unsafe_timestamp_usage() {
    let source = r#"contract;
use std::block::timestamp;

fn times() {
    let a = std::block::timestamp();
    let b = timestamp();
    let c = std::block::timestamp_of_block(1);
    let d = timestamp() + 5;
    if timestamp() > 10 {
    }
    let e = std::block::timestamp();
}
"#;
    test_detector("unsafe_timestamp_usage", source, 6);
}

#[test]
fn test_unused_import() {
    let source = r#"contract;
use std::hash::sha256;
use std::bytes::Bytes;
use std::constants::ZERO_B256;

fn zero() -> b256 {
    ZERO_B256
}
"#;
    test_detector("unused_import", source, 2);
}

#[test]
fn test_redundant_import() {
    let source = r#"contract;
use std::hash::{sha256, keccak256};

fn digest(b: b256) -> b256 {
    sha256(b)
}
"#;
    test_detector("unused_import", source, 1);
}

#[test]
fn test_weak_prng() {
    let source = r#"contract;
use std::block::timestamp;

fn rolls() {
    let r1 = timestamp() % 6;
    let r2 = timestamp() % 6;
    let r3 = timestamp() % 6;
    let r4 = std::block::timestamp() % 6;
    let r5 = std::block::timestamp() % 6;
    let r6 = std::block::timestamp() % 6;
    let r7 = std::block::timestamp_of_block(1) % 6;
    let r8 = std::block::timestamp_of_block(2) % 6;
    let r9 = std::block::timestamp_of_block(3) % 6;
    let t = timestamp();
    let s1 = t % 2;
    let s2 = t % 3;
    let s3 = t % 4;
    let s4 = t % 5;
    let s5 = t % 6;
    let s6 = t % 7;
    let s7 = t % 8;
    let s8 = t % 9;
    let s9 = t % 10;
}
"#;
    test_detector("weak_prng", source, 18);
}

#[test]
fn test_large_literals() {
    let source = r#"contract;

const LIMIT: u64 = 50000000;

fn limits() -> u64 {
    let big = 1000000;
    let readable = 1_000_000;
    let hex = 0xFFFFFFFF;
    let small = 123456;
    big + readable + hex + small
}
"#;
    test_detector("large_literals", source, 2);
}

#[test]
fn test_storage_field_mutability() {
    let source = r#"contract;

storage {
    a: u64 = 0,
    b: u64 = 0,
}

fn touch() {
    storage.a.write(1);
}
"#;
    test_detector("storage_field_mutability", source, 1);
}

#[test]
fn test_detectors() {
    let source = r#"contract;
use std::block::timestamp;

storage {
    value: u64 = 0,
}

fn mix(flag: bool, x: u64) -> u64 {
    let r = timestamp() % 7;
    if flag == true {
        storage.value.write(x / 2 * 3);
    }
    return r;
}
"#;
    let report = analyze(source, &[]);
    assert!(entry_count(&report) > 0);
}

#[test]
fn unknown_detector_is_refused() {
    let names = vec!["weak_prng".to_string(), "no_such_detector".to_string()];
    match select_detectors(&names) {
        Err(sway_analyzer::error::Error::Wrapped(m)) => {
            assert_eq!(m, "Detector not found in detectors collection : no_such_detector")
        }
        other => panic!("unexpected {:?}", other.map(|v| v.len())),
    }
}

#[test]
fn no_detector_name_selects_all_in_order() {
    let all = select_detectors(&Vec::new()).unwrap();
    assert_eq!(all, (0..28).collect::<Vec<usize>>());
}

#[test]
fn severities_of_one_detector() {
    let source = r#"contract;

fn compare(flag: bool) {
    let a = flag == true;
}
"#;
    let report = analyze(source, &["boolean_comparison"]);
    assert_eq!(report.entries.len(), 1);
    assert_eq!(report.entries[0].0, PATH);
    let e = &report.entries[0].1[0];
    assert_eq!(e.severity, Severity::Low);
    assert_eq!(e.line, Some(4));
}

/// A source on which the detectors report 15 low severity entries and 16 high severity entries,
/// and nothing of medium severity.
const MIXED_SEVERITIES: &str = r#"contract;
use std::asset::transfer;

fn pay(to: Identity, asset: AssetId, amount: u64) {
    transfer(to, asset, amount);
    transfer(to, asset, amount);
    transfer(to, asset, amount);
    transfer(to, asset, amount);
    transfer(to, asset, amount);
    transfer(to, asset, amount);
    transfer(to, asset, amount);
    transfer(to, asset, amount);
    transfer(to, asset, amount);
    transfer(to, asset, amount);
    transfer(to, asset, amount);
    transfer(to, asset, amount);
    transfer(to, asset, amount);
    transfer(to, asset, amount);
    transfer(to, asset, amount);
    transfer(to, asset, amount);
}

fn flags(flag: bool) {
    let _a = flag == true;
    let _a = flag == true;
    let _a = flag == true;
    let _a = flag == true;
    let _a = flag == true;
    let _a = flag == true;
    let _a = flag == true;
}
"#;

fn filtered(selected: &[&str], rejected: &[&str]) -> Report {
    let mut report = analyze(MIXED_SEVERITIES, &[]);
    let selected: Vec<String> = selected.iter().map(|s| s.to_string()).collect();
    let rejected: Vec<String> = rejected.iter().map(|s| s.to_string()).collect();
    report.entries = sway_analyzer::filter::filter_entries(&report, &selected, &rejected);
    report
}

#[test]
fn test_include_detectors() {
    let report = filtered(&["low", "high"], &[]);
    assert_eq!(report.entries[0].1.len(), 31);
}

#[test]
fn test_include_single_detectors() {
    let report = filtered(&["low"], &[]);
    assert_eq!(report.entries[0].1.len(), 15);
}

#[test]
fn test_exclude_detectors() {
    let report = filtered(&[], &["low", "high"]);
    assert_eq!(report.entries.len(), 0);
}

#[test]
fn test_exclude_single_detectors() {
    let report = filtered(&[], &["low"]);
    assert_eq!(report.entries[0].1.len(), 16);
}

#[test]
fn storage_not_updated_reports_modified_or_shadowed_values() {
    let source = r#"contract;

storage {
    x: u64 = 0,
    y: u64 = 0,
    z: u64 = 0,
}

#[storage(read, write)]
fn untouched() {
    let mut v = storage.x.read();
}

#[storage(read, write)]
fn modified() {
    let mut v = storage.y.read();
    v += 1;
}

#[storage(read, write)]
fn shadowed() {
    let mut v = storage.z.read();
    let mut v = 5;
}

#[storage(read, write)]
fn written_back() {
    let mut v = storage.x.read();
    v += 1;
    storage.x.write(v);
}
"#;
    let report = analyze(source, &["storage_not_updated"]);
    let texts: Vec<&str> = report.entries[0].1.iter().map(|e| e.text.as_str()).collect();
    assert_eq!(texts.len(), 2, "{:?}", texts);
    assert!(texts[0].contains("`modified` function") && texts[0].contains("not written back to `storage.y`"));
    assert!(texts[1].contains("`shadowed` function") && texts[1].contains("which is shadowed at L"));
}

/// The value of the first `let` of the first function of a source file.
fn first_let_value(module: &ast::Module) -> &ast::Expr {
    for item in module.items.iter() {
        if let ast::ItemKind::Fn(f) = &item.kind {
            if let ast::StatementKind::Let(l) = &f.body.statements[0].kind {
                return &l.expr;
            }
        }
    }
    panic!("no function with a let statement");
}

#[test]
fn storage_access_found_first_in_read_order() {
    let source = r#"contract;

fn f(a: u64) {
    let x = a + storage.total.read();
    let y = storage.map.insert(1, storage.other.read());
    let z = (a, a + 1);
}
"#;
    let module = parse_module(source).expect("the source parses");
    let x = first_let_value(&module);
    let found = sway_analyzer::storage_access::find_storage_access_in_expr(x).expect("a storage access");
    assert_eq!(found.span.text, "storage.total.read()");
    let ast::ItemKind::Fn(f) = &module.items.iter().find(|i| matches!(i.kind, ast::ItemKind::Fn(_))).unwrap().kind else {
        unreachable!()
    };
    let ast::StatementKind::Let(y) = &f.body.statements[1].kind else { unreachable!() };
    let found = sway_analyzer::storage_access::find_storage_access_in_expr(&y.expr).expect("a storage access");
    assert_eq!(found.span.text, "storage.map.insert(1, storage.other.read())");
    let ast::StatementKind::Let(z) = &f.body.statements[2].kind else { unreachable!() };
    assert!(sway_analyzer::storage_access::find_storage_access_in_expr(&z.expr).is_none());
}

fn event_name(ev: &Event) -> &'static str {
    match ev {
        Event::Module(_) => "Module",
        Event::LeaveModule(_) => "LeaveModule",
        Event::Item(..) => "Item",
        Event::LeaveItem(..) => "LeaveItem",
        Event::Fn(..) => "Fn",
        Event::LeaveFn(..) => "LeaveFn",
        Event::Block(..) => "Block",
        Event::LeaveBlock(..) => "LeaveBlock",
        Event::Statement(..) => "Statement",
        Event::LeaveStatement(..) => "LeaveStatement",
        Event::StatementLet(..) => "StatementLet",
        Event::Expr(..) => "Expr",
        Event::LeaveExpr(..) => "LeaveExpr",
        Event::If(..) => "If",
        Event::LeaveIf(..) => "LeaveIf",
        _ => "Other",
    }
}

#[test]
fn walk_visits_before_and_leaves_after_children() {
    let source = r#"contract;

fn f(a: u64) {
    let y = a + 1;
    let z = if a == 1 { 2 } else { 3 };
}
"#;
    let module = parse_module(source).expect("the source parses");
    let events = sway_analyzer::walk::module_events(&module);
    let names: Vec<&str> = events.iter().map(event_name).collect();
    assert_eq!(
        names,
        vec![
            "Module", "Item", "Fn", "Block",
            "Statement", "StatementLet", "Expr", "Expr", "LeaveExpr", "Expr", "LeaveExpr", "LeaveExpr", "LeaveStatement",
            "Statement", "StatementLet", "Expr", "If", "Expr", "Expr", "LeaveExpr", "Expr", "LeaveExpr", "LeaveExpr",
            "Block", "Expr", "LeaveExpr", "LeaveBlock", "Block", "Expr", "LeaveExpr", "LeaveBlock",
            "LeaveIf", "LeaveExpr", "LeaveStatement",
            "LeaveBlock", "LeaveFn", "LeaveItem", "LeaveModule",
        ]
    );
}
