//! Keeping or dropping report entries by severity, as the severity options of the command line ask.
use vstd::prelude::*;
use crate::report::{Entry, Report, Severity, entry_view, file_view, files_view};
use crate::text::{ascii_lowercase, copy_string, lower_seq, split_char, split_on, strings_view, str_has_char, str_eq};

verus! {

/// The lower-case names of the severities that an option lists: the comma-separated parts of
/// its first value when that value holds a comma, else all of its values.
pub open spec fn option_items(values: Seq<Seq<char>>) -> Seq<Seq<char>> {
    if values[0].contains(',') {
        split_on(values[0], ',').map_values(|p: Seq<char>| lower_seq(p))
    } else {
        values.map_values(|p: Seq<char>| lower_seq(p))
    }
}


/// The entries of `s` whose severity is (when `keep_listed`) or is not (otherwise) in `items`.
pub open spec fn kept_entries(s: Seq<Entry>, items: Seq<Seq<char>>, keep_listed: bool)
    -> Seq<(Option<usize>, Severity, Seq<char>)>
    decreases s.len(),
{
    if s.len() == 0 {
        Seq::empty()
    } else {
        let rest = kept_entries(s.drop_last(), items, keep_listed);
        let e = s.last();
        if items.contains(lower_seq(e.severity.name_view())) == keep_listed { rest.push(entry_view(e)) } else { rest }
    }
}

/// The files of `files` with their kept entries, dropping files left without any.
pub open spec fn kept_files(files: Seq<(String, Vec<Entry>)>, items: Seq<Seq<char>>, keep_listed: bool)
    -> Seq<(Seq<char>, Seq<(Option<usize>, Severity, Seq<char>)>)>
    decreases files.len(),
{
    if files.len() == 0 {
        Seq::empty()
    } else {
        let rest = kept_files(files.drop_last(), items, keep_listed);
        let f = files.last();
        let kept = kept_entries(f.1@, items, keep_listed);
        if kept.len() > 0 { rest.push((f.0@, kept)) } else { rest }
    }
}

/// What the filter keeps of a report's files: with values that select severities, the entries whose
/// severity is listed; else with values that reject severities, the entries whose severity is not
/// listed; else, with no severity option at all, every file and entry.
pub open spec fn filtered(files: Seq<(String, Vec<Entry>)>, selected: Seq<Seq<char>>, rejected: Seq<Seq<char>>)
    -> Seq<(Seq<char>, Seq<(Option<usize>, Severity, Seq<char>)>)>
{
    if selected.len() > 0 {
        kept_files(files, option_items(selected), true)
    } else if rejected.len() > 0 {
        kept_files(files, option_items(rejected), false)
    } else {
        files_view(files)
    }
}

fn option_values(values: &Vec<String>) -> (r: Vec<String>)
    requires
        values@.len() > 0,
    ensures
        strings_view(r@) == option_items(strings_view(values@)),
{
    let ghost vs = strings_view(values@);
    let raw: Vec<String> = if str_has_char(values[0].as_str(), ',') {
        split_char(values[0].as_str(), ',')
    } else {
        let mut copy: Vec<String> = Vec::new();
        let mut i: usize = 0;
        while i < values.len()
            invariant
                i <= values@.len(),
                strings_view(copy@) == vs.subrange(0, i as int),
                vs == strings_view(values@),
            decreases values@.len() - i,
        {
            let ghost before = strings_view(copy@);
            let c = copy_string(values[i].as_str());
            copy.push(c);
            proof {
                assert(strings_view(copy@) =~= before.push(c@));
                assert(vs[i as int] == values@[i as int]@);
                assert(strings_view(copy@) =~= vs.subrange(0, i as int + 1));
            }
            i = i + 1;
        }
        proof {
            assert(vs.subrange(0, vs.len() as int) =~= vs);
        }
        copy
    };
    let ghost raw_view = strings_view(raw@);
    proof {
        assert(raw_view == (if vs[0].contains(',') { split_on(vs[0], ',') } else { vs }));
    }
    let mut out: Vec<String> = Vec::new();
    let mut j: usize = 0;
    while j < raw.len()
        invariant
            j <= raw@.len(),
            raw_view == strings_view(raw@),
            strings_view(out@) == raw_view.subrange(0, j as int).map_values(|p: Seq<char>| lower_seq(p)),
        decreases raw@.len() - j,
    {
        let ghost before = strings_view(out@);
        let l = ascii_lowercase(raw[j].as_str());
        out.push(l);
        proof {
            assert(strings_view(out@) =~= before.push(l@));
            assert(raw_view[j as int] == raw@[j as int]@);
            assert(strings_view(out@) =~= raw_view.subrange(0, j as int + 1).map_values(|p: Seq<char>| lower_seq(p)));
        }
        j = j + 1;
    }
    proof {
        assert(raw_view.subrange(0, raw_view.len() as int) =~= raw_view);
    }
    out
}

fn list_contains(items: &Vec<String>, s: &str) -> (r: bool)
    ensures
        r == strings_view(items@).contains(s@),
{
    let mut i: usize = 0;
    while i < items.len()
        invariant
            i <= items@.len(),
            forall|j: int| 0 <= j < i ==> items@[j]@ != s@,
        decreases items@.len() - i,
    {
        if str_eq(items[i].as_str(), s) {
            proof {
                assert(strings_view(items@)[i as int] == s@);
            }
            return true;
        }
        i = i + 1;
    }
    proof {
        if strings_view(items@).contains(s@) {
            let k = choose|k: int| 0 <= k < strings_view(items@).len() && strings_view(items@)[k] == s@;
            assert(items@[k]@ == s@);
        }
    }
    false
}

fn copy_entry(e: &Entry) -> (r: Entry)
    ensures
        entry_view(r) == entry_view(*e),
{
    Entry { line: e.line, severity: e.severity, text: copy_string(e.text.as_str()) }
}


fn keep_files(files: &Vec<(String, Vec<Entry>)>, items: &Vec<String>, keep_listed: bool) -> (r: Vec<(String, Vec<Entry>)>)
    ensures
        files_view(r@) == kept_files(files@, strings_view(items@), keep_listed),
{
    let ghost it = strings_view(items@);
    let mut out: Vec<(String, Vec<Entry>)> = Vec::new();
    let mut i: usize = 0;
    while i < files.len()
        invariant
            i <= files@.len(),
            it == strings_view(items@),
            files_view(out@) == kept_files(files@.subrange(0, i as int), it, keep_listed),
        decreases files@.len() - i,
    {
        let entries = &files[i].1;
        let mut kept: Vec<Entry> = Vec::new();
        let mut j: usize = 0;
        while j < entries.len()
            invariant
                j <= entries@.len(),
                it == strings_view(items@),
                kept@.map_values(|e: Entry| entry_view(e)) == kept_entries(entries@.subrange(0, j as int), it, keep_listed),
            decreases entries@.len() - j,
        {
            proof {
                assert(entries@.subrange(0, j as int + 1).drop_last() =~= entries@.subrange(0, j as int));
            }
            let name = entries[j].severity.name();
            let lname = ascii_lowercase(name.as_str());
            let listed = list_contains(items, lname.as_str());
            if listed == keep_listed {
                let ghost before = kept@.map_values(|e: Entry| entry_view(e));
                kept.push(copy_entry(&entries[j]));
                proof {
                    assert(kept@.map_values(|e: Entry| entry_view(e)) =~= before.push(entry_view(entries@[j as int])));
                }
            }
            j = j + 1;
        }
        proof {
            assert(entries@.subrange(0, entries@.len() as int) =~= entries@);
            assert(files@.subrange(0, i as int + 1).drop_last() =~= files@.subrange(0, i as int));
        }
        if kept.len() > 0 {
            let ghost before = files_view(out@);
            out.push((copy_string(files[i].0.as_str()), kept));
            proof {
                assert(files_view(out@) =~= before.push((files@[i as int].0@, kept_entries(entries@, it, keep_listed))));
            }
        }
        i = i + 1;
    }
    proof {
        assert(files@.subrange(0, files@.len() as int) =~= files@);
    }
    out
}

/// The report's files and entries that the severity options keep. Only the selecting values
/// count when both kinds are given; with neither, everything is kept.
pub fn filter_entries(report: &Report, selected: &Vec<String>, rejected: &Vec<String>) -> (r: Vec<(String, Vec<Entry>)>)
    ensures
        files_view(r@) == filtered(report.entries@, strings_view(selected@), strings_view(rejected@)),
{
    if selected.len() > 0 {
        let items = option_values(selected);
        keep_files(&report.entries, &items, true)
    } else if rejected.len() > 0 {
        let items = option_values(rejected);
        keep_files(&report.entries, &items, false)
    } else {
        copy_files(&report.entries)
    }
}

/// A copy of a list of entries.
fn copy_entries(v: &Vec<Entry>) -> (r: Vec<Entry>)
    ensures
        r@.map_values(|e: Entry| entry_view(e)) == v@.map_values(|e: Entry| entry_view(e)),
{
    let mut r: Vec<Entry> = Vec::new();
    let mut i: usize = 0;
    while i < v.len()
        invariant
            i <= v@.len(),
            r@.map_values(|e: Entry| entry_view(e)) == v@.subrange(0, i as int).map_values(|e: Entry| entry_view(e)),
        decreases v@.len() - i,
    {
        let e = &v[i];
        r.push(Entry { line: e.line, severity: e.severity, text: copy_string(e.text.as_str()) });
        proof {
            assert(v@.subrange(0, i as int + 1).map_values(|e: Entry| entry_view(e))
                =~= v@.subrange(0, i as int).map_values(|e: Entry| entry_view(e)).push(entry_view(v@[i as int])));
            assert(r@.map_values(|e: Entry| entry_view(e))
                =~= v@.subrange(0, i as int + 1).map_values(|e: Entry| entry_view(e)));
        }
        i = i + 1;
    }
    proof {
        assert(v@.subrange(0, i as int) =~= v@);
    }
    r
}

/// A copy of a report's files.
fn copy_files(files: &Vec<(String, Vec<Entry>)>) -> (r: Vec<(String, Vec<Entry>)>)
    ensures
        files_view(r@) == files_view(files@),
{
    let mut r: Vec<(String, Vec<Entry>)> = Vec::new();
    let mut i: usize = 0;
    while i < files.len()
        invariant
            i <= files@.len(),
            files_view(r@) == files_view(files@.subrange(0, i as int)),
        decreases files@.len() - i,
    {
        let entries = copy_entries(&files[i].1);
        r.push((copy_string(files[i].0.as_str()), entries));
        proof {
            assert(files_view(files@.subrange(0, i as int + 1))
                =~= files_view(files@.subrange(0, i as int)).push(file_view(files@[i as int])));
            assert(files_view(r@) =~= files_view(files@.subrange(0, i as int + 1)));
        }
        i = i + 1;
    }
    proof {
        assert(files@.subrange(0, i as int) =~= files@);
    }
    r
}

} // verus!
