//! The report, the severity filter, line lookup and option parsing, on concrete values.

use sway_analyzer::ast::Module;
use sway_analyzer::render::paint;
use sway_analyzer::analysis::{push_decimal, select_detectors, sort_paths};
use sway_analyzer::error::Error;
use sway_analyzer::filter::filter_entries;
use sway_analyzer::detectors::large_literal::group_literal_digits;
use sway_analyzer::path::path_less;
use sway_analyzer::project::{load_parsed, load_source, normalize_path, prepare_target, DisplayFormat, SourceLines};
use sway_analyzer::report::{entry_before, Entry, Report, Severity, Sorting};
use sway_analyzer::text::{ascii_lowercase, replace_str, split_char};

fn entry(line: Option<usize>, severity: Severity, text: &str) -> Entry {
    Entry { line, severity, text: text.to_string() }
}

fn lines_of(report: &Report, file: usize) -> Vec<(Option<usize>, Severity)> {
    report.entries[file].1.iter().map(|e| (e.line, e.severity)).collect()
}

fn strings(v: &[&str]) -> Vec<String> {
    v.iter().map(|s| s.to_string()).collect()
}

#[test]
fn entries_sorted_by_line_then_severity() {
    let mut report = Report::new(Sorting::Line);
    report.add_entry("a.sw", Some(5), Severity::Low, "x".to_string());
    report.add_entry("a.sw", Some(2), Severity::Low, "y".to_string());
    report.add_entry("a.sw", Some(5), Severity::High, "z".to_string());
    report.add_entry("a.sw", None, Severity::Medium, "w".to_string());
    assert_eq!(
        lines_of(&report, 0),
        vec![(None, Severity::Medium), (Some(2), Severity::Low), (Some(5), Severity::High), (Some(5), Severity::Low)]
    );
}

#[test]
fn entries_sorted_by_severity_then_line() {
    let mut report = Report::new(Sorting::Severity);
    report.add_entry("a.sw", Some(5), Severity::Low, "x".to_string());
    report.add_entry("a.sw", Some(9), Severity::High, "y".to_string());
    report.add_entry("a.sw", Some(1), Severity::Low, "z".to_string());
    report.add_entry("a.sw", Some(3), Severity::Medium, "w".to_string());
    assert_eq!(
        lines_of(&report, 0),
        vec![(Some(9), Severity::High), (Some(3), Severity::Medium), (Some(1), Severity::Low), (Some(5), Severity::Low)]
    );
}

#[test]
fn equal_entries_keep_the_order_they_came_in() {
    let mut report = Report::new(Sorting::Line);
    report.add_entry("a.sw", Some(1), Severity::Low, "first".to_string());
    report.add_entry("a.sw", Some(1), Severity::Low, "second".to_string());
    let texts: Vec<&str> = report.entries[0].1.iter().map(|e| e.text.as_str()).collect();
    assert_eq!(texts, vec!["first", "second"]);
}

#[test]
fn files_in_path_order_each_once() {
    let mut report = Report::new(Sorting::Line);
    report.add_entry("src/main.sw", Some(1), Severity::Low, "a".to_string());
    report.add_entry("src/lib.sw", Some(1), Severity::Low, "b".to_string());
    report.add_entry("src/main.sw", Some(2), Severity::Low, "c".to_string());
    report.add_entry("lib/a.sw", Some(1), Severity::Low, "d".to_string());
    let files: Vec<&str> = report.entries.iter().map(|(p, _)| p.as_str()).collect();
    assert_eq!(files, vec!["lib/a.sw", "src/lib.sw", "src/main.sw"]);
    assert_eq!(report.entries[2].1.len(), 2);
}

#[test]
fn add_entries_adds_each_entry() {
    let mut report = Report::new(Sorting::Line);
    report.add_entry("a.sw", Some(3), Severity::Low, "old".to_string());
    let more = vec![entry(Some(1), Severity::High, "x"), entry(Some(7), Severity::Low, "y")];
    report.add_entries("a.sw", &more);
    assert_eq!(report.entries[0].1.len(), 3);
    assert_eq!(lines_of(&report, 0), vec![(Some(1), Severity::High), (Some(3), Severity::Low), (Some(7), Severity::Low)]);
}

#[test]
fn find_file_by_path() {
    let mut report = Report::new(Sorting::Line);
    report.add_entry("b.sw", Some(1), Severity::Low, "x".to_string());
    report.add_entry("a.sw", Some(1), Severity::Low, "y".to_string());
    assert_eq!(report.find_file("b.sw"), Some(1));
    assert_eq!(report.find_file("c.sw"), None);
}

#[test]
fn entry_order_relation() {
    let a = entry(Some(1), Severity::Low, "");
    let b = entry(Some(2), Severity::High, "");
    assert!(entry_before(Sorting::Line, &a, &b));
    assert!(!entry_before(Sorting::Line, &b, &a));
    assert!(entry_before(Sorting::Severity, &b, &a));
    assert!(!entry_before(Sorting::Severity, &a, &b));
}

#[test]
fn line_text_with_and_without_line() {
    assert_eq!(entry(Some(12), Severity::High, "msg").line_text(), "L12; High: msg");
    assert_eq!(entry(None, Severity::Low, "msg").line_text(), "Low: msg");
    assert_eq!(entry(Some(0), Severity::Medium, "").line_text(), "L0; Medium: ");
}

#[test]
fn decimal_digits() {
    let mut s = "n=".to_string();
    push_decimal(&mut s, 1234567890);
    assert_eq!(s, "n=1234567890");
    let mut z = String::new();
    push_decimal(&mut z, 0);
    assert_eq!(z, "0");
}

#[test]
fn severity_names() {
    assert_eq!(Severity::High.name(), "High");
    assert_eq!(Severity::Medium.name(), "Medium");
    assert_eq!(Severity::Low.name(), "Low");
}

fn sample_report() -> Report {
    let mut report = Report::new(Sorting::Line);
    report.add_entry("a.sw", Some(1), Severity::High, "h".to_string());
    report.add_entry("a.sw", Some(2), Severity::Medium, "m".to_string());
    report.add_entry("a.sw", Some(3), Severity::Low, "l".to_string());
    report.add_entry("b.sw", Some(1), Severity::Low, "l2".to_string());
    report
}

fn count(files: &[(String, Vec<Entry>)]) -> usize {
    files.iter().map(|(_, e)| e.len()).sum()
}

#[test]
fn select_and_reject_partition_the_entries() {
    let report = sample_report();
    for values in [vec!["low"], vec!["high"], vec!["medium", "low"], vec!["HIGH,low"]] {
        let kept = filter_entries(&report, &strings(&values), &Vec::new());
        let dropped = filter_entries(&report, &Vec::new(), &strings(&values));
        assert_eq!(count(&kept) + count(&dropped), 4);
    }
}

#[test]
fn select_every_severity_keeps_the_report() {
    let report = sample_report();
    let kept = filter_entries(&report, &strings(&["Low", "medium", "HIGH"]), &Vec::new());
    assert_eq!(kept.len(), 2);
    assert_eq!(count(&kept), 4);
    let dropped = filter_entries(&report, &Vec::new(), &strings(&["low,medium,high"]));
    assert!(dropped.is_empty());
}

#[test]
fn filter_drops_files_left_empty() {
    let report = sample_report();
    let kept = filter_entries(&report, &strings(&["high"]), &Vec::new());
    assert_eq!(kept.len(), 1);
    assert_eq!(kept[0].0, "a.sw");
    assert_eq!(kept[0].1[0].text, "h");
}

#[test]
fn filter_values_select_first_when_both_given() {
    let report = sample_report();
    let kept = filter_entries(&report, &strings(&["medium"]), &strings(&["medium"]));
    assert_eq!(count(&kept), 1);
}

#[test]
fn filter_without_values_keeps_everything() {
    let report = sample_report();
    let kept = filter_entries(&report, &Vec::new(), &Vec::new());
    assert_eq!(kept.len(), 2);
    assert_eq!(count(&kept), 4);
    assert_eq!(kept[0].1[1].text, "m");
}

#[test]
fn line_lookup() {
    let mut lines = SourceLines::new();
    lines.load_line_ranges("m.sw", "ab\ncd\n\nef\n");
    assert!(matches!(lines.span_to_line("m.sw", 0), Ok(Some(1))));
    assert!(matches!(lines.span_to_line("m.sw", 1), Ok(Some(1))));
    assert!(matches!(lines.span_to_line("m.sw", 3), Ok(Some(2))));
    assert!(matches!(lines.span_to_line("m.sw", 7), Ok(Some(4))));
    match lines.span_to_line("m.sw", 2) {
        Err(Error::LineNotFound(p, o)) => {
            assert_eq!(p, "m.sw");
            assert_eq!(o, 2);
        }
        _ => panic!("the line break is on no line"),
    }
    match lines.span_to_line("other.sw", 0) {
        Err(Error::FileNotFound(p)) => assert_eq!(p, "other.sw"),
        _ => panic!("the file was never loaded"),
    }
}

#[test]
fn line_lookup_without_line_break() {
    let mut lines = SourceLines::new();
    lines.load_line_ranges("one.sw", "no newline");
    assert!(matches!(lines.span_to_line("one.sw", 0), Ok(Some(1))));
    assert!(matches!(lines.span_to_line("one.sw", 9), Ok(Some(1))));
    lines.load_line_ranges("last.sw", "ab\ncd");
    assert!(matches!(lines.span_to_line("last.sw", 3), Ok(Some(2))));
    assert!(matches!(lines.span_to_line("last.sw", 4), Ok(Some(2))));
    assert!(matches!(lines.span_to_line("last.sw", 5), Err(Error::LineNotFound(_, 5))));
    lines.load_line_ranges("empty.sw", "");
    assert!(matches!(lines.span_to_line("empty.sw", 0), Err(Error::FileNotFound(_))));
    lines.load_line_ranges("two.sw", "x\n");
    lines.load_line_ranges("two.sw", "y\n");
    assert!(matches!(lines.span_to_line("two.sw", 0), Ok(Some(1))));
    assert!(matches!(lines.span_to_line("two.sw", 1), Err(Error::LineNotFound(_, 1))));
}

#[test]
fn display_format_names() {
    assert!(matches!(DisplayFormat::from_str("Text"), Ok(DisplayFormat::Text)));
    assert!(matches!(DisplayFormat::from_str("JSON"), Ok(DisplayFormat::Json)));
    match DisplayFormat::from_str("yaml") {
        Err(Error::InvalidDisplayFormat(s)) => assert_eq!(s, "yaml"),
        _ => panic!("yaml is no display format"),
    }
}

#[test]
fn sorting_names() {
    assert!(matches!(Sorting::from_str("Line"), Ok(Sorting::Line)));
    assert!(matches!(Sorting::from_str("SEVERITY"), Ok(Sorting::Severity)));
    match Sorting::from_str("name") {
        Err(Error::InvalidSorting(s)) => assert_eq!(s, "name"),
        _ => panic!("name is no sorting"),
    }
    assert_eq!(Sorting::default(), Sorting::Line);
}

#[test]
fn documented_detector_names() {
    let named = select_detectors(&strings(&["weak_prng", "boolean_comparisons", "unused_imports"])).unwrap();
    assert_eq!(named, vec![2, 26, 27]);
    let twice = select_detectors(&strings(&["magic_number", "magic_numbers"])).unwrap();
    assert_eq!(twice, vec![10]);
    match select_detectors(&strings(&["Weak_Prng"])) {
        Err(Error::Wrapped(m)) => assert_eq!(m, "Detector not found in detectors collection : Weak_Prng"),
        _ => panic!("names are matched exactly"),
    }
}

#[test]
fn paths_sorted_by_components() {
    let paths = strings(&["src/main.sw", "src/a/b.sw", "lib.sw", "src/lib.sw", "lib.sw"]);
    let sorted = sort_paths(&paths);
    assert_eq!(sorted, strings(&["lib.sw", "lib.sw", "src/a/b.sw", "src/lib.sw", "src/main.sw"]));
    assert!(path_less("a/b", "a/c"));
    assert!(path_less("a", "a/b"));
    assert!(!path_less("a/b", "a/b"));
}

#[test]
fn text_helpers() {
    assert_eq!(ascii_lowercase("HeLLo_1"), "hello_1");
    assert_eq!(replace_str("aaaa", "aa", "b"), "bb");
    assert_eq!(replace_str("abcabc", "bc", ""), "aa");
    assert_eq!(split_char("low,high,", ','), strings(&["low", "high", ""]));
}

#[test]
fn target_options() {
    match prepare_target(Some("proj".to_string()), true, &strings(&["low"]), &strings(&["high"])) {
        Err(Error::Wrapped(m)) => assert_eq!(m, "Cannot use both include and exclude options."),
        _ => panic!("both kinds of severity options are refused"),
    }
    match prepare_target(None, false, &strings(&["low"]), &Vec::new()) {
        Err(Error::Wrapped(m)) => assert_eq!(m, "No directory or files provided as a target to analyze."),
        _ => panic!("a target is needed"),
    }
    assert_eq!(prepare_target(Some("proj".to_string()), false, &Vec::new(), &Vec::new()).unwrap(), Some("proj/".to_string()));
    assert_eq!(prepare_target(Some("proj/".to_string()), false, &Vec::new(), &Vec::new()).unwrap(), Some("proj//".to_string()));
    assert_eq!(prepare_target(None, true, &Vec::new(), &strings(&["low"])).unwrap(), None);
}

#[test]
fn source_paths_normalized() {
    assert_eq!(normalize_path("proj//src//main.sw"), "proj/src/main.sw");
    assert_eq!(normalize_path("a\\\\b"), "a\\b");
    assert_eq!(normalize_path("a///b"), "a//b");
    assert_eq!(normalize_path("plain/path.sw"), "plain/path.sw");
}

#[test]
fn report_as_text() {
    let report = sample_report();
    assert_eq!(report.text(), "a.sw:\n\tL1; High: h\n\tL2; Medium: m\n\tL3; Low: l\n\nb.sw:\n\tL1; Low: l2\n");
    assert_eq!(Report::new(Sorting::Line).text(), "");
    let colored = report.colored_text();
    for line in ["L1; High: h", "L2; Medium: m", "L3; Low: l", "L1; Low: l2", "a.sw:\n", "\nb.sw:\n"] {
        assert!(colored.contains(line));
    }
}

#[test]
fn painted_line_in_severity_color() {
    colored::control::set_override(true);
    assert_eq!(paint("L1; High: x", Severity::High), "\x1B[31mL1; High: x\x1B[0m");
    assert_eq!(paint("L2; Medium: y", Severity::Medium), "\x1B[33mL2; Medium: y\x1B[0m");
    assert_eq!(paint("Low: z", Severity::Low), "\x1B[32mLow: z\x1B[0m");
    let report = sample_report();
    assert_eq!(
        report.colored_text(),
        "a.sw:\n\t\x1B[31mL1; High: h\x1B[0m\n\t\x1B[33mL2; Medium: m\x1B[0m\n\t\x1B[32mL3; Low: l\x1B[0m\n\nb.sw:\n\t\x1B[32mL1; Low: l2\x1B[0m\n"
    );
    colored::control::set_override(false);
    assert_eq!(paint("L1; High: x", Severity::High), "L1; High: x");
    colored::control::unset_override();
}

#[test]
fn loading_a_source() {
    let mut lines = SourceLines::new();
    let (p, m) = load_parsed(&mut lines, "dir//a.sw", "x\ny\n", Some(Module { items: Vec::new() })).unwrap();
    assert_eq!(p, "dir/a.sw");
    assert!(m.items.is_empty());
    assert!(matches!(lines.span_to_line("dir/a.sw", 2), Ok(Some(2))));
    match load_parsed(&mut lines, "b//c.sw", "z\n", None) {
        Err(Error::ParseFailed(p)) => assert_eq!(p, "b/c.sw"),
        _ => panic!("an unparsed source is refused"),
    }
    assert!(matches!(lines.span_to_line("b/c.sw", 0), Ok(Some(1))));
}

#[test]
fn loading_and_parsing_a_source() {
    let mut lines = SourceLines::new();
    let source = "contract;\n\nfn f() {}\n\nfn g() {}\n";
    let (p, m) = load_source(&mut lines, "src//main.sw", source).unwrap();
    assert_eq!(p, "src/main.sw");
    assert_eq!(m.items.len(), 2);
    assert!(matches!(lines.span_to_line("src/main.sw", 12), Ok(Some(3))));
    match load_source(&mut lines, "src//bad.sw", "fn f() {}\n") {
        Err(Error::ParseFailed(p)) => assert_eq!(p, "src/bad.sw"),
        _ => panic!("a source that is not Sway is refused"),
    }
    assert!(matches!(lines.span_to_line("src/bad.sw", 0), Ok(Some(1))));
}

#[test]
fn adding_entries_in_either_order() {
    let add = |order: &[(&str, usize, Severity)]| {
        let mut report = sample_report();
        for (file, line, sev) in order {
            report.add_entry(file, Some(*line), *sev, format!("{file}:{line}"));
        }
        report.text()
    };
    let a = ("a.sw", 2, Severity::Low);
    let b = ("a.sw", 9, Severity::High);
    let c = ("c.sw", 1, Severity::Low);
    let d = ("0.sw", 4, Severity::Medium);
    assert_eq!(add(&[a, b]), add(&[b, a]));
    assert_eq!(add(&[a, c]), add(&[c, a]));
    assert_eq!(add(&[c, d]), add(&[d, c]));
}

#[test]
fn select_and_reject_split_each_file() {
    let report = sample_report();
    for values in [vec!["low"], vec!["high"], vec!["medium", "low"], vec!["HIGH,low"]] {
        let kept = filter_entries(&report, &strings(&values), &Vec::new());
        let dropped = filter_entries(&report, &Vec::new(), &strings(&values));
        for (path, entries) in report.entries.iter() {
            let in_kept = kept.iter().find(|(p, _)| p == path).map(|(_, e)| e.len()).unwrap_or(0);
            let in_dropped = dropped.iter().find(|(p, _)| p == path).map(|(_, e)| e.len()).unwrap_or(0);
            assert_eq!(in_kept + in_dropped, entries.len());
            assert!(in_kept > 0 || in_dropped > 0);
        }
    }
    let kept = filter_entries(&report, &strings(&["low"]), &Vec::new());
    assert_eq!(kept.iter().map(|(p, e)| (p.as_str(), e.len())).collect::<Vec<_>>(), vec![("a.sw", 1), ("b.sw", 1)]);
    let dropped = filter_entries(&report, &Vec::new(), &strings(&["low"]));
    assert_eq!(dropped.iter().map(|(p, e)| (p.as_str(), e.len())).collect::<Vec<_>>(), vec![("a.sw", 2)]);
}

#[test]
fn literal_digits_grouped_by_threes() {
    assert_eq!(group_literal_digits("1000000"), "1_000_000");
    assert_eq!(group_literal_digits("12345678"), "12_345_678");
    assert_eq!(group_literal_digits("123456789"), "123_456_789");
    assert_eq!(group_literal_digits("100"), "100");
    assert_eq!(group_literal_digits(""), "");
}

#[test]
fn error_messages() {
    assert_eq!(Error::Wrapped("Cannot use both include and exclude options.".to_string()).message(),
        "Cannot use both include and exclude options.");
    assert_eq!(Error::InvalidDisplayFormat("xml".to_string()).message(), "Invalid display format: xml");
    assert_eq!(Error::InvalidSorting("size".to_string()).message(), "Invalid sorting: size");
    assert_eq!(Error::ParseFailed("src/main.sw".to_string()).message(), "Failed to parse file: \"src/main.sw\"");
    assert_eq!(Error::FileNotFound("a.sw".to_string()).message(), "File not found: \"a.sw\"");
    assert_eq!(Error::LineNotFound("a.sw".to_string(), 120).message(), "Offset 120 not found in file: \"a.sw\"");
    assert_eq!(Error::LineNotFound("a.sw".to_string(), 0).message(), "Offset 0 not found in file: \"a.sw\"");
}

#[test]
fn adding_to_a_report_out_of_order() {
    let unsorted = || Report {
        sorting: Sorting::Line,
        entries: vec![
            ("b.sw".to_string(), vec![entry(Some(9), Severity::Low, "b9"), entry(Some(1), Severity::Low, "b1")]),
            ("a.sw".to_string(), vec![entry(Some(5), Severity::High, "a5"), entry(Some(2), Severity::High, "a2")]),
        ],
    };
    assert!(!unsorted().is_valid());
    assert!(sample_report().is_valid());

    // The first file of the path gets the entry and has its entries sorted; the others stay.
    let mut report = unsorted();
    report.add_entry("b.sw", Some(4), Severity::Medium, "b4".to_string());
    assert_eq!(report.entries[0].0, "b.sw");
    assert_eq!(lines_of(&report, 0), vec![(Some(1), Severity::Low), (Some(4), Severity::Medium), (Some(9), Severity::Low)]);
    assert_eq!(lines_of(&report, 1), vec![(Some(5), Severity::High), (Some(2), Severity::High)]);

    // A new file is added and the files are sorted by path.
    let mut report = unsorted();
    report.add_entry("c.sw", Some(3), Severity::Low, "c3".to_string());
    let paths: Vec<&str> = report.entries.iter().map(|(p, _)| p.as_str()).collect();
    assert_eq!(paths, vec!["a.sw", "b.sw", "c.sw"]);
    assert_eq!(lines_of(&report, 0), vec![(Some(5), Severity::High), (Some(2), Severity::High)]);
    assert_eq!(lines_of(&report, 2), vec![(Some(3), Severity::Low)]);
}
