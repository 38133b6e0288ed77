//! The report: entries grouped by file, files in path order, entries in the report's order.
use vstd::prelude::*;
use crate::error::Error;
use crate::path::{path_lt, path_same, path_less, path_eq, lemma_components_lt_irrefl, lemma_components_lt_trans, lemma_components_lt_total};
use crate::text::{copy_string, ascii_lowercase, lower_seq, string_from_chars, push_str};
use crate::analysis::{decimal, push_decimal};
use crate::search::{is_first, lemma_first_unique, lead_count, lemma_lead_count};

verus! {

/// The order in which the entries of one file are listed.
#[derive(Clone, Copy, Debug, PartialEq, Eq, Structural)]
pub enum Sorting {
    Line,
    Severity,
}

impl Default for Sorting {
    fn default() -> (r: Self)
        ensures
            r == Sorting::Line,
    {
        Sorting::Line
    }
}

/// How serious a finding is. `High` sorts first, `Low` last.
#[derive(Clone, Copy, Debug, PartialEq, Eq, PartialOrd, Ord, Hash, Structural)]
pub enum Severity {
    High,
    Medium,
    Low,
}

impl Severity {
    /// Position of the severity in the order `High`, `Medium`, `Low`.
    pub open spec fn rank(self) -> int {
        match self {
            Severity::High => 0,
            Severity::Medium => 1,
            Severity::Low => 2,
        }
    }

    /// The characters of the severity's name.
    pub open spec fn name_view(self) -> Seq<char> {
        match self {
            Severity::High => seq!['H', 'i', 'g', 'h'],
            Severity::Medium => seq!['M', 'e', 'd', 'i', 'u', 'm'],
            Severity::Low => seq!['L', 'o', 'w'],
        }
    }

    /// The name of the severity, as the report prints it.
    pub fn name(&self) -> (r: String)
        ensures
            r@ == self.name_view(),
    {
        let v: Vec<char> = match self {
            Severity::High => vec!['H', 'i', 'g', 'h'],
            Severity::Medium => vec!['M', 'e', 'd', 'i', 'u', 'm'],
            Severity::Low => vec!['L', 'o', 'w'],
        };
        proof {
            assert(v@ =~= self.name_view());
        }
        string_from_chars(v.as_slice())
    }
}

/// The characters of the lower-case name of a sorting order.
pub open spec fn sorting_named(s: Seq<char>) -> Option<Sorting> {
    if lower_seq(s) == seq!['l', 'i', 'n', 'e'] {
        Some(Sorting::Line)
    } else if lower_seq(s) == seq!['s', 'e', 'v', 'e', 'r', 'i', 't', 'y'] {
        Some(Sorting::Severity)
    } else {
        None
    }
}

impl Sorting {
    /// Parses a sorting order by name, ignoring ASCII case: `line` or `severity`.
    pub fn from_str(s: &str) -> (r: Result<Sorting, Error>)
        ensures
            match sorting_named(s@) {
                Some(v) => r == Ok::<Sorting, Error>(v),
                None => r matches Err(Error::InvalidSorting(t)) && t@ == s@,
            },
    {
        let lower = ascii_lowercase(s);
        let line: Vec<char> = vec!['l', 'i', 'n', 'e'];
        let severity: Vec<char> = vec!['s', 'e', 'v', 'e', 'r', 'i', 't', 'y'];
        let lv = crate::text::to_chars(lower.as_str());
        proof {
            assert(line@ =~= seq!['l', 'i', 'n', 'e']);
            assert(severity@ =~= seq!['s', 'e', 'v', 'e', 'r', 'i', 't', 'y']);
        }
        if crate::text::chars_eq(lv.as_slice(), line.as_slice()) {
            Ok(Sorting::Line)
        } else if crate::text::chars_eq(lv.as_slice(), severity.as_slice()) {
            Ok(Sorting::Severity)
        } else {
            Err(Error::InvalidSorting(copy_string(s)))
        }
    }
}

/// One finding in a file.
#[derive(Clone, Debug)]
pub struct Entry {
    pub line: Option<usize>,
    pub severity: Severity,
    pub text: String,
}

/// The text of an entry's line in the printed report: `L<line>; <severity>: <text>`, or
/// `<severity>: <text>` for an entry without a line.
pub open spec fn entry_line_text(e: EntryView) -> Seq<char> {
    let head = match e.0 {
        Some(n) => seq!['L'] + decimal(n as nat) + seq![';', ' '],
        None => Seq::<char>::empty(),
    };
    head + e.1.name_view() + seq![':', ' '] + e.2
}

impl Entry {
    /// The entry as one line of the printed report.
    pub fn line_text(&self) -> (r: String)
        ensures
            r@ == entry_line_text(entry_view(*self)),
    {
        let mut out = String::new();
        match self.line {
            Some(n) => {
                out.push('L');
                push_decimal(&mut out, n);
                push_str(&mut out, "; ");
                proof {
                    reveal_strlit("; ");
                }
            },
            None => {},
        }
        let name = self.severity.name();
        push_str(&mut out, name.as_str());
        push_str(&mut out, ": ");
        proof {
            reveal_strlit(": ");
        }
        push_str(&mut out, self.text.as_str());
        proof {
            let head = match self.line {
                Some(n) => seq!['L'] + decimal(n as nat) + seq![';', ' '],
                None => Seq::<char>::empty(),
            };
            assert(out@ =~= head + self.severity.name_view() + seq![':', ' '] + self.text@);
        }
        out
    }
}

/// A missing line sorts before every line.
pub open spec fn line_rank(l: Option<usize>) -> int {
    match l {
        None => -1,
        Some(n) => n as int,
    }
}

/// Entry `a` may stand before entry `b` under the given sorting.
pub open spec fn entry_le(sorting: Sorting, a: Entry, b: Entry) -> bool {
    match sorting {
        Sorting::Line => line_rank(a.line) < line_rank(b.line) || (line_rank(a.line) == line_rank(b.line)
            && a.severity.rank() <= b.severity.rank()),
        Sorting::Severity => a.severity.rank() < b.severity.rank() || (a.severity.rank() == b.severity.rank()
            && line_rank(a.line) <= line_rank(b.line)),
    }
}

/// The entries are listed in the given order.
pub open spec fn entries_sorted(sorting: Sorting, s: Seq<Entry>) -> bool {
    forall|i: int, j: int| 0 <= i < j < s.len() ==> entry_le(sorting, #[trigger] s[i], #[trigger] s[j])
}

/// `r` is `s` with `e` inserted after every entry that may stand before it, and before the rest.
pub open spec fn inserted_in_order(sorting: Sorting, s: Seq<Entry>, e: Entry, r: Seq<Entry>) -> bool {
    exists|pos: int| 0 <= pos <= s.len() && r == s.insert(pos, e)
        && (forall|k: int| 0 <= k < pos ==> entry_le(sorting, #[trigger] s[k], e))
        && (forall|k: int| pos <= k < s.len() ==> !entry_le(sorting, #[trigger] s[k], e))
}

/// The files are listed in path order, each file once.
pub open spec fn files_sorted(files: Seq<(String, Vec<Entry>)>) -> bool {
    forall|i: int, j: int| 0 <= i < j < files.len() ==> path_lt(#[trigger] files[i].0@, #[trigger] files[j].0@)
}

/// The entries of every file are listed in the given order.
pub open spec fn all_entries_sorted(sorting: Sorting, files: Seq<(String, Vec<Entry>)>) -> bool {
    forall|i: int| 0 <= i < files.len() ==> entries_sorted(sorting, #[trigger] files[i].1@)
}

/// The value of an entry: its line, severity and message.
pub type EntryView = (Option<usize>, Severity, Seq<char>);

/// The value an entry stands for.
pub open spec fn entry_view(e: Entry) -> EntryView {
    (e.line, e.severity, e.text@)
}

/// The value a file of a report stands for: its path and the values of its entries.
pub open spec fn file_view(f: (String, Vec<Entry>)) -> (Seq<char>, Seq<EntryView>) {
    (f.0@, f.1@.map_values(|e: Entry| entry_view(e)))
}

/// The values of a list of files.
pub open spec fn files_view(v: Seq<(String, Vec<Entry>)>) -> Seq<(Seq<char>, Seq<EntryView>)> {
    v.map_values(|f: (String, Vec<Entry>)| file_view(f))
}

/// Entry value `a` may stand before entry value `b` under the given sorting.
pub open spec fn view_le(sorting: Sorting, a: EntryView, b: EntryView) -> bool {
    match sorting {
        Sorting::Line => line_rank(a.0) < line_rank(b.0) || (line_rank(a.0) == line_rank(b.0) && a.1.rank() <= b.1.rank()),
        Sorting::Severity => a.1.rank() < b.1.rank() || (a.1.rank() == b.1.rank() && line_rank(a.0) <= line_rank(b.0)),
    }
}

/// A file of the given path.
pub open spec fn same_file(file: Seq<char>) -> spec_fn((Seq<char>, Seq<EntryView>)) -> bool {
    |f: (Seq<char>, Seq<EntryView>)| path_same(f.0, file)
}

/// A file whose path sorts before `file`.
pub open spec fn file_precedes(file: Seq<char>) -> spec_fn((Seq<char>, Seq<EntryView>)) -> bool {
    |f: (Seq<char>, Seq<EntryView>)| path_lt(f.0, file)
}

/// An entry that may stand before `e`.
pub open spec fn may_precede(sorting: Sorting, e: EntryView) -> spec_fn(EntryView) -> bool {
    |x: EntryView| view_le(sorting, x, e)
}

/// The files of a report after adding the entry `e` for `file`. When a file of that path is
/// listed, the entry goes into the first such file, after its leading entries that may stand
/// before `e`; else a new file holding `e` alone goes after the leading files whose paths sort
/// before `file`.
pub open spec fn report_with(fv: Seq<(Seq<char>, Seq<EntryView>)>, sorting: Sorting, file: Seq<char>, e: EntryView)
    -> Seq<(Seq<char>, Seq<EntryView>)>
{
    if exists|k: int| #[trigger] is_first(fv, same_file(file), k) {
        let k = choose|k: int| #[trigger] is_first(fv, same_file(file), k);
        let list = fv[k].1;
        fv.update(k, (fv[k].0, list.insert(lead_count(list, may_precede(sorting, e)), e)))
    } else {
        fv.insert(lead_count(fv, file_precedes(file)), (file, seq![e]))
    }
}

/// The files of a report after adding the entries `es` for `file`, in order.
pub open spec fn report_with_all(fv: Seq<(Seq<char>, Seq<EntryView>)>, sorting: Sorting, file: Seq<char>, es: Seq<EntryView>)
    -> Seq<(Seq<char>, Seq<EntryView>)>
    decreases es.len(),
{
    if es.len() == 0 {
        fv
    } else {
        report_with(report_with_all(fv, sorting, file, es.drop_last()), sorting, file, es.last())
    }
}

/// The report groups the findings of the analyzed files.
#[derive(Debug)]
pub struct Report {
    pub sorting: Sorting,
    pub entries: Vec<(String, Vec<Entry>)>,
}

impl Report {
    /// The files are in path order, each once, and every file's entries are in the report's order.
    pub open spec fn wf(&self) -> bool {
        files_sorted(self.entries@) && all_entries_sorted(self.sorting, self.entries@)
    }

    /// An empty report with the given sorting.
    pub fn new(sorting: Sorting) -> (r: Report)
        ensures
            r.sorting == sorting,
            r.entries@.len() == 0,
            r.wf(),
    {
        Report { sorting, entries: Vec::new() }
    }

    /// The position of the file in the report that has the same path as `file`, if any.
    pub fn find_file(&self, file: &str) -> (r: Option<usize>)
        ensures
            match r {
                Some(k) => k < self.entries@.len() && path_same(self.entries@[k as int].0@, file@)
                    && is_first(files_view(self.entries@), same_file(file@), k as int),
                None => forall|k: int| 0 <= k < self.entries@.len() ==> !path_same(#[trigger] self.entries@[k].0@, file@),
            },
    {
        let mut i: usize = 0;
        while i < self.entries.len()
            invariant
                i <= self.entries@.len(),
                forall|k: int| 0 <= k < i ==> !path_same(#[trigger] self.entries@[k].0@, file@),
            decreases self.entries@.len() - i,
        {
            if path_eq(self.entries[i].0.as_str(), file) {
                proof {
                    let fv = files_view(self.entries@);
                    assert forall|l: int| 0 <= l < i implies !same_file(file@)(#[trigger] fv[l]) by {
                        assert(fv[l].0 == self.entries@[l].0@);
                    }
                    assert(fv[i as int].0 == self.entries@[i as int].0@);
                }
                return Some(i);
            }
            i = i + 1;
        }
        None
    }

    /// Adds a finding for `file` to a report in order. A file not yet in the report is added at
    /// its place in path order; the entry is placed after every entry of the file that may stand
    /// before it.
    fn add_to_valid(&mut self, file: &str, line: Option<usize>, severity: Severity, text: String)
        requires
            old(self).wf(),
        ensures
            final(self).wf(),
            final(self).sorting == old(self).sorting,
            files_view(final(self).entries@) == report_with(files_view(old(self).entries@), old(self).sorting, file@,
                (line, severity, text@)),
            ({
                let e = Entry { line, severity, text };
                let old_files = old(self).entries@;
                let new_files = final(self).entries@;
                if exists|k: int| 0 <= k < old_files.len() && path_same(#[trigger] old_files[k].0@, file@) {
                    exists|k: int| 0 <= k < old_files.len() && path_same(#[trigger] old_files[k].0@, file@)
                        && new_files.len() == old_files.len()
                        && (forall|j: int| 0 <= j < old_files.len() && j != k ==> #[trigger] new_files[j] == old_files[j])
                        && new_files[k].0 == old_files[k].0
                        && inserted_in_order(old(self).sorting, old_files[k].1@, e, new_files[k].1@)
                } else {
                    exists|pos: int| 0 <= pos <= old_files.len()
                        && new_files.len() == old_files.len() + 1
                        && (forall|j: int| 0 <= j < pos ==> #[trigger] new_files[j] == old_files[j])
                        && (forall|j: int| pos < j < new_files.len() ==> #[trigger] new_files[j] == old_files[j - 1])
                        && new_files[pos].0@ == file@
                        && new_files[pos].1@ == seq![e]
                }
            }),
    {
        let ghost ev: EntryView = (line, severity, text@);
        let e = Entry { line, severity, text };
        let ghost old_files = self.entries@;
        let ghost fv = files_view(old_files);
        let found = self.find_file(file);
        let k: usize = match found {
            Some(k) => k,
            None => {
                // The place of the new file: after every file that sorts before it.
                let mut pos: usize = 0;
                while pos < self.entries.len() && path_less(self.entries[pos].0.as_str(), file)
                    invariant
                        pos <= self.entries@.len(),
                        self.entries@ == old_files,
                        forall|j: int| 0 <= j < pos ==> path_lt(#[trigger] old_files[j].0@, file@),
                    decreases self.entries@.len() - pos,
                {
                    pos = pos + 1;
                }
                proof {
                    if pos < old_files.len() {
                        assert(!path_lt(old_files[pos as int].0@, file@));
                        assert(!path_same(old_files[pos as int].0@, file@));
                        lemma_components_lt_total(
                            crate::path::path_components(old_files[pos as int].0@),
                            crate::path::path_components(file@),
                        );
                        assert forall|j: int| pos <= j < old_files.len() implies path_lt(file@, #[trigger] old_files[j].0@) by {
                            if j > pos {
                                lemma_components_lt_trans(
                                    crate::path::path_components(file@),
                                    crate::path::path_components(old_files[pos as int].0@),
                                    crate::path::path_components(old_files[j].0@),
                                );
                            }
                        }
                    }
                }
                let name = copy_string(file);
                self.entries.insert(pos, (name, Vec::new()));
                proof {
                    let nf = self.entries@;
                    assert forall|i: int, j: int| 0 <= i < j < nf.len() implies path_lt(#[trigger] nf[i].0@, #[trigger] nf[j].0@) by {
                        if j < pos {
                        } else if i > pos {
                            assert(nf[i] == old_files[i - 1]);
                            assert(nf[j] == old_files[j - 1]);
                        } else if i == pos {
                            assert(nf[j] == old_files[j - 1]);
                        } else if j == pos {
                        } else {
                            assert(nf[j] == old_files[j - 1]);
                            lemma_components_lt_trans(
                                crate::path::path_components(old_files[i].0@),
                                crate::path::path_components(file@),
                                crate::path::path_components(old_files[j - 1].0@),
                            );
                        }
                    }
                    assert(nf[pos as int].1@ =~= Seq::<Entry>::empty());
                    assert(all_entries_sorted(self.sorting, nf));
                }
                pos
            },
        };
        let ghost mid_files = self.entries@;
        let (name, mut list) = self.entries.remove(k);
        let ghost old_list = list@;
        let sorting = self.sorting;
        // The place of the entry: after every entry that may stand before it.
        let mut p: usize = 0;
        while p < list.len() && entry_before(sorting, &list[p], &e)
            invariant
                p <= list@.len(),
                list@ == old_list,
                forall|j: int| 0 <= j < p ==> entry_le(sorting, #[trigger] old_list[j], e),
            decreases list@.len() - p,
        {
            p = p + 1;
        }
        proof {
            assert(entries_sorted(sorting, old_list));
            assert forall|j: int| p <= j < old_list.len() implies !entry_le(sorting, #[trigger] old_list[j], e) by {
                assert(!entry_le(sorting, old_list[p as int], e));
                if j > p {
                    assert(entry_le(sorting, old_list[p as int], old_list[j]));
                }
            }
        }
        list.insert(p, e);
        proof {
            let nl = list@;
            assert(nl == old_list.insert(p as int, e));
            assert forall|i: int, j: int| 0 <= i < j < nl.len() implies entry_le(sorting, #[trigger] nl[i], #[trigger] nl[j]) by {
                if j < p {
                } else if i > p {
                    assert(nl[i] == old_list[i - 1]);
                    assert(nl[j] == old_list[j - 1]);
                } else if i == p {
                    assert(nl[j] == old_list[j - 1]);
                } else if j == p {
                } else {
                    assert(nl[j] == old_list[j - 1]);
                }
            }
        }
        self.entries.insert(k, (name, list));
        proof {
            let nf = self.entries@;
            assert(nf.len() == mid_files.len());
            assert forall|j: int| 0 <= j < nf.len() && j != k implies #[trigger] nf[j] == mid_files[j] by {}
            assert(files_sorted(nf)) by {
                assert forall|i: int, j: int| 0 <= i < j < nf.len() implies path_lt(#[trigger] nf[i].0@, #[trigger] nf[j].0@) by {
                    assert(nf[i].0 == mid_files[i].0);
                    assert(nf[j].0 == mid_files[j].0);
                }
            }
            assert(all_entries_sorted(sorting, nf)) by {
                assert forall|i: int| 0 <= i < nf.len() implies entries_sorted(sorting, #[trigger] nf[i].1@) by {
                    if i != k {
                        assert(nf[i] == mid_files[i]);
                    }
                }
            }
            let lv = old_list.map_values(|x: Entry| entry_view(x));
            assert forall|j: int| 0 <= j < p implies #[trigger] may_precede(sorting, ev)(lv[j]) by {
                assert(entry_le(sorting, old_list[j], e));
            }
            if p < lv.len() {
                assert(!entry_le(sorting, old_list[p as int], e));
            }
            lemma_lead_count(lv, may_precede(sorting, ev), p as int);
            assert(file_view(nf[k as int]) == (mid_files[k as int].0@, lv.insert(p as int, ev))) by {
                assert(nf[k as int].1@.map_values(|x: Entry| entry_view(x)) =~= lv.insert(p as int, ev));
            }
            match found {
                Some(kk) => {
                    assert(mid_files == old_files);
                    assert(path_same(old_files[k as int].0@, file@));
                    assert(inserted_in_order(sorting, old_files[k as int].1@, e, nf[k as int].1@));
                    assert(lv == fv[k as int].1);
                    let c = choose|c: int| #[trigger] is_first(fv, same_file(file@), c);
                    lemma_first_unique(fv, same_file(file@), c, k as int);
                    assert(files_view(nf) =~= report_with(fv, sorting, file@, ev));
                },
                None => {
                    assert forall|j: int| 0 <= j < old_files.len() implies !path_same(#[trigger] old_files[j].0@, file@) by {}
                    assert(nf[k as int].1@ =~= seq![e]);
                    assert forall|j: int| 0 <= j < k implies #[trigger] nf[j] == old_files[j] by {
                        assert(nf[j] == mid_files[j]);
                    }
                    assert forall|j: int| k < j < nf.len() implies #[trigger] nf[j] == old_files[j - 1] by {
                        assert(nf[j] == mid_files[j]);
                    }
                    assert(!exists|c: int| #[trigger] is_first(fv, same_file(file@), c)) by {
                        assert forall|c: int| !#[trigger] is_first(fv, same_file(file@), c) by {
                            if 0 <= c < fv.len() {
                                assert(fv[c].0 == old_files[c].0@);
                            }
                        }
                    }
                    assert forall|j: int| 0 <= j < k implies #[trigger] file_precedes(file@)(fv[j]) by {
                        assert(fv[j].0 == old_files[j].0@);
                    }
                    if k < fv.len() {
                        assert(fv[k as int].0 == old_files[k as int].0@);
                    }
                    lemma_lead_count(fv, file_precedes(file@), k as int);
                    assert(lv =~= Seq::<EntryView>::empty());
                    assert(mid_files[k as int].0@ == file@);
                    assert(lv.insert(0, ev) =~= seq![ev]);
                    assert(p == 0);
                    let want = fv.insert(k as int, (file@, seq![ev]));
                    assert(files_view(nf).len() == want.len());
                    assert forall|j: int| 0 <= j < want.len() implies #[trigger] files_view(nf)[j] == want[j] by {
                        if j < k {
                            assert(nf[j] == old_files[j]);
                        } else if j > k {
                            assert(nf[j] == old_files[j - 1]);
                        }
                    }
                    assert(files_view(nf) =~= want);
                    assert(files_view(nf) =~= report_with(fv, sorting, file@, ev));
                },
            }
        }
    }
}

impl Report {
    /// Adds the entries for `file` one after the other, each as `add_entry` adds it.
    pub fn add_entries(&mut self, file: &str, entries: &Vec<Entry>)
        requires
            old(self).wf(),
        ensures
            final(self).wf(),
            final(self).sorting == old(self).sorting,
            files_view(final(self).entries@) == report_with_all(files_view(old(self).entries@), old(self).sorting, file@,
                entries@.map_values(|e: Entry| entry_view(e))),
    {
        let ghost ev = entries@.map_values(|e: Entry| entry_view(e));
        let ghost start = files_view(self.entries@);
        let mut i: usize = 0;
        while i < entries.len()
            invariant
                i <= entries@.len(),
                self.wf(),
                self.sorting == old(self).sorting,
                start == files_view(old(self).entries@),
                ev == entries@.map_values(|e: Entry| entry_view(e)),
                files_view(self.entries@) == report_with_all(start, self.sorting, file@, ev.take(i as int)),
            decreases entries@.len() - i,
        {
            proof {
                assert(ev.take(i as int + 1).drop_last() =~= ev.take(i as int));
                assert(ev.take(i as int + 1).last() == entry_view(entries@[i as int]));
            }
            let e = &entries[i];
            self.add_to_valid(file, e.line, e.severity, copy_string(e.text.as_str()));
            i = i + 1;
        }
        proof {
            assert(ev.take(i as int) =~= ev);
        }
    }
}

/// The values of a list of entries.
pub open spec fn entries_view(s: Seq<Entry>) -> Seq<EntryView> {
    s.map_values(|e: Entry| entry_view(e))
}

/// Files in path order, where files of the same path may stand side by side.
pub open spec fn files_in_path_order(files: Seq<(String, Vec<Entry>)>) -> bool {
    forall|i: int, j: int| 0 <= i < j < files.len() ==> !path_lt(#[trigger] files[j].0@, #[trigger] files[i].0@)
}

/// `new` is what adding the entry `e` for `file` makes of the files `old` of a report that is out
/// of order. When a file of that path is listed, the first such gets its entries and `e` sorted
/// in the report's order, the other files staying as they are; else the files and a new file
/// holding `e` alone are sorted by path.
pub open spec fn resorted_with(sorting: Sorting, old: Seq<(String, Vec<Entry>)>, file: Seq<char>, e: Entry,
    new: Seq<(String, Vec<Entry>)>) -> bool
{
    if exists|k: int| 0 <= k < old.len() && path_same(#[trigger] old[k].0@, file) {
        exists|k: int| 0 <= k < old.len() && path_same(#[trigger] old[k].0@, file)
            && (forall|j: int| 0 <= j < k ==> !path_same(#[trigger] old[j].0@, file))
            && new.len() == old.len()
            && (forall|j: int| 0 <= j < old.len() && j != k ==> #[trigger] new[j] == old[j])
            && new[k].0 == old[k].0
            && entries_sorted(sorting, new[k].1@)
            && entries_view(new[k].1@).to_multiset() == entries_view(old[k].1@).to_multiset().insert(entry_view(e))
    } else {
        files_in_path_order(new)
            && files_view(new).to_multiset() == files_view(old).to_multiset().insert((file, seq![entry_view(e)]))
    }
}

/// Whether the entries are listed in the given order.
fn entries_in_order(sorting: Sorting, list: &Vec<Entry>) -> (r: bool)
    ensures
        r == entries_sorted(sorting, list@),
{
    if list.len() == 0 {
        return true;
    }
    let mut i: usize = 0;
    while i < list.len() - 1
        invariant
            list@.len() > 0,
            i <= list@.len(),
            forall|a: int, b: int| 0 <= a < b <= i && b < list@.len() ==> entry_le(sorting, #[trigger] list@[a], #[trigger] list@[b]),
        decreases list@.len() - i,
    {
        if !entry_before(sorting, &list[i], &list[i + 1]) {
            return false;
        }
        proof {
            assert forall|a: int, b: int| 0 <= a < b <= i + 1 && b < list@.len()
                implies entry_le(sorting, #[trigger] list@[a], #[trigger] list@[b]) by {
                if b == i + 1 && a < i {
                    assert(entry_le(sorting, list@[a], list@[i as int]));
                }
            }
        }
        i = i + 1;
    }
    true
}

/// Whether the files are in path order, each once.
fn files_in_order(files: &Vec<(String, Vec<Entry>)>) -> (r: bool)
    ensures
        r == files_sorted(files@),
{
    if files.len() == 0 {
        return true;
    }
    let mut i: usize = 0;
    while i < files.len() - 1
        invariant
            files@.len() > 0,
            i <= files@.len(),
            forall|a: int, b: int| 0 <= a < b <= i && b < files@.len() ==> path_lt(#[trigger] files@[a].0@, #[trigger] files@[b].0@),
        decreases files@.len() - i,
    {
        if !path_less(files[i].0.as_str(), files[i + 1].0.as_str()) {
            return false;
        }
        proof {
            assert forall|a: int, b: int| 0 <= a < b <= i + 1 && b < files@.len()
                implies path_lt(#[trigger] files@[a].0@, #[trigger] files@[b].0@) by {
                if b == i + 1 && a < i {
                    lemma_components_lt_trans(
                        crate::path::path_components(files@[a].0@),
                        crate::path::path_components(files@[i as int].0@),
                        crate::path::path_components(files@[b].0@),
                    );
                }
            }
        }
        i = i + 1;
    }
    true
}

/// Places `e` in a list in order: after every entry that may stand before it.
fn insert_in_order(sorting: Sorting, list: &mut Vec<Entry>, e: Entry)
    requires
        entries_sorted(sorting, old(list)@),
    ensures
        inserted_in_order(sorting, old(list)@, e, final(list)@),
        entries_sorted(sorting, final(list)@),
{
    let ghost old_list = list@;
    let mut p: usize = 0;
    while p < list.len() && entry_before(sorting, &list[p], &e)
        invariant
            p <= list@.len(),
            list@ == old_list,
            forall|j: int| 0 <= j < p ==> entry_le(sorting, #[trigger] old_list[j], e),
        decreases list@.len() - p,
    {
        p = p + 1;
    }
    proof {
        assert forall|j: int| p <= j < old_list.len() implies !entry_le(sorting, #[trigger] old_list[j], e) by {
            assert(!entry_le(sorting, old_list[p as int], e));
            if j > p {
                assert(entry_le(sorting, old_list[p as int], old_list[j]));
            }
        }
    }
    list.insert(p, e);
    proof {
        let nl = list@;
        assert(nl == old_list.insert(p as int, e));
        assert forall|i: int, j: int| 0 <= i < j < nl.len() implies entry_le(sorting, #[trigger] nl[i], #[trigger] nl[j]) by {
            if j < p {
            } else if i > p {
                assert(nl[i] == old_list[i - 1]);
                assert(nl[j] == old_list[j - 1]);
            } else if i == p {
                assert(nl[j] == old_list[j - 1]);
            } else if j == p {
            } else {
                assert(nl[j] == old_list[j - 1]);
            }
        }
    }
}

/// The entries in the given order.
fn sort_entries(sorting: Sorting, list: Vec<Entry>) -> (r: Vec<Entry>)
    ensures
        entries_sorted(sorting, r@),
        entries_view(r@).to_multiset() == entries_view(list@).to_multiset(),
{
    broadcast use vstd::seq_lib::group_to_multiset_ensures;
    broadcast use vstd::multiset::group_multiset_axioms;
    let ghost all = entries_view(list@).to_multiset();
    let mut rest = list;
    let mut r: Vec<Entry> = Vec::new();
    proof {
        assert(entries_view(r@) =~= Seq::<EntryView>::empty());
        assert(entries_view(r@).to_multiset() =~= vstd::multiset::Multiset::<EntryView>::empty());
    }
    while rest.len() > 0
        invariant
            entries_sorted(sorting, r@),
            entries_view(r@).to_multiset().add(entries_view(rest@).to_multiset()) == all,
        decreases rest@.len(),
    {
        let ghost before_rest = rest@;
        let ghost before_r = r@;
        let x = rest.pop().unwrap();
        proof {
            assert(before_rest =~= rest@.push(x));
            assert(entries_view(before_rest) =~= entries_view(rest@).push(entry_view(x)));
            vstd::seq_lib::to_multiset_build(entries_view(rest@), entry_view(x));
        }
        insert_in_order(sorting, &mut r, x);
        proof {
            let pos = choose|pos: int| 0 <= pos <= before_r.len() && r@ == before_r.insert(pos, x)
                && (forall|k: int| 0 <= k < pos ==> entry_le(sorting, #[trigger] before_r[k], x))
                && (forall|k: int| pos <= k < before_r.len() ==> !entry_le(sorting, #[trigger] before_r[k], x));
            assert(entries_view(r@) =~= entries_view(before_r).insert(pos, entry_view(x)));
            vstd::seq_lib::to_multiset_insert(entries_view(before_r), pos, entry_view(x));
            let mr = entries_view(before_r).to_multiset();
            let ms = entries_view(rest@).to_multiset();
            assert(entries_view(r@).to_multiset() == mr.insert(entry_view(x)));
            assert(entries_view(before_rest).to_multiset() == ms.insert(entry_view(x)));
            assert(mr.add(ms.insert(entry_view(x))) == all);
            assert(mr.insert(entry_view(x)).add(ms) =~= mr.add(ms.insert(entry_view(x))));
        }
    }
    proof {
        assert(entries_view(rest@) =~= Seq::<EntryView>::empty());
        assert(entries_view(r@).to_multiset() =~= all);
    }
    r
}

/// The files sorted by path; files of the same path keep their order.
fn sort_files(files: Vec<(String, Vec<Entry>)>) -> (r: Vec<(String, Vec<Entry>)>)
    ensures
        files_in_path_order(r@),
        files_view(r@).to_multiset() == files_view(files@).to_multiset(),
{
    broadcast use vstd::seq_lib::group_to_multiset_ensures;
    broadcast use vstd::multiset::group_multiset_axioms;
    let ghost all = files_view(files@).to_multiset();
    let mut rest: Vec<(String, Vec<Entry>)> = Vec::new();
    let mut src = files;
    // Reversed, so that taking from the end takes the files in their order.
    while src.len() > 0
        invariant
            files_view(rest@).to_multiset().add(files_view(src@).to_multiset()) == all,
        decreases src@.len(),
    {
        let ghost before_src = src@;
        let ghost before_rest = rest@;
        let x = src.pop().unwrap();
        rest.push(x);
        proof {
            assert(before_src =~= src@.push(x));
            assert(files_view(before_src) =~= files_view(src@).push(file_view(x)));
            assert(files_view(rest@) =~= files_view(before_rest).push(file_view(x)));
            vstd::seq_lib::to_multiset_build(files_view(src@), file_view(x));
            vstd::seq_lib::to_multiset_build(files_view(before_rest), file_view(x));
            let mr = files_view(before_rest).to_multiset();
            let ms = files_view(src@).to_multiset();
            assert(mr.add(ms.insert(file_view(x))) == all);
            assert(mr.insert(file_view(x)).add(ms) =~= mr.add(ms.insert(file_view(x))));
        }
    }
    proof {
        assert(files_view(src@) =~= Seq::<(Seq<char>, Seq<EntryView>)>::empty());
    }
    let mut r: Vec<(String, Vec<Entry>)> = Vec::new();
    proof {
        assert(files_view(r@) =~= Seq::<(Seq<char>, Seq<EntryView>)>::empty());
    }
    while rest.len() > 0
        invariant
            files_in_path_order(r@),
            files_view(r@).to_multiset().add(files_view(rest@).to_multiset()) == all,
        decreases rest@.len(),
    {
        let ghost before_rest = rest@;
        let ghost old_r = r@;
        let x = rest.pop().unwrap();
        proof {
            assert(before_rest =~= rest@.push(x));
            assert(files_view(before_rest) =~= files_view(rest@).push(file_view(x)));
            vstd::seq_lib::to_multiset_build(files_view(rest@), file_view(x));
        }
        // The place of the file: after every file whose path does not sort after its own.
        let mut p: usize = 0;
        while p < r.len() && !path_less(x.0.as_str(), r[p].0.as_str())
            invariant
                p <= r@.len(),
                r@ == old_r,
                forall|j: int| 0 <= j < p ==> !path_lt(x.0@, #[trigger] old_r[j].0@),
            decreases r@.len() - p,
        {
            p = p + 1;
        }
        r.insert(p, x);
        proof {
            let nr = r@;
            assert(nr == old_r.insert(p as int, x));
            assert forall|i: int, j: int| 0 <= i < j < nr.len() implies !path_lt(#[trigger] nr[j].0@, #[trigger] nr[i].0@) by {
                if j < p {
                } else if i > p {
                    assert(nr[i] == old_r[i - 1]);
                    assert(nr[j] == old_r[j - 1]);
                } else if i == p {
                    assert(nr[j] == old_r[j - 1]);
                    assert(path_lt(x.0@, old_r[p as int].0@));
                    if path_lt(old_r[j - 1].0@, x.0@) {
                        lemma_components_lt_trans(
                            crate::path::path_components(old_r[j - 1].0@),
                            crate::path::path_components(x.0@),
                            crate::path::path_components(old_r[p as int].0@),
                        );
                        lemma_components_lt_irrefl(crate::path::path_components(old_r[p as int].0@));
                    }
                } else if j == p {
                    assert(nr[i] == old_r[i]);
                } else {
                    assert(nr[i] == old_r[i]);
                    assert(nr[j] == old_r[j - 1]);
                }
            }
            assert(files_view(nr) =~= files_view(old_r).insert(p as int, file_view(x)));
            vstd::seq_lib::to_multiset_insert(files_view(old_r), p as int, file_view(x));
            let mr = files_view(old_r).to_multiset();
            let ms = files_view(rest@).to_multiset();
            assert(files_view(nr).to_multiset() == mr.insert(file_view(x)));
            assert(files_view(before_rest).to_multiset() == ms.insert(file_view(x)));
            assert(mr.add(ms.insert(file_view(x))) == all);
            assert(mr.insert(file_view(x)).add(ms) =~= mr.add(ms.insert(file_view(x))));
        }
    }
    proof {
        assert(files_view(rest@) =~= Seq::<(Seq<char>, Seq<EntryView>)>::empty());
        assert(files_view(r@).to_multiset() =~= all);
    }
    r
}

impl Report {
    /// Whether the report is in order: its files in path order, each once, and every file's
    /// entries in the report's order.
    pub fn is_valid(&self) -> (r: bool)
        ensures
            r == self.wf(),
    {
        if !files_in_order(&self.entries) {
            return false;
        }
        let mut k: usize = 0;
        while k < self.entries.len()
            invariant
                k <= self.entries@.len(),
                forall|j: int| 0 <= j < k ==> entries_sorted(self.sorting, #[trigger] self.entries@[j].1@),
            decreases self.entries@.len() - k,
        {
            if !entries_in_order(self.sorting, &self.entries[k].1) {
                return false;
            }
            k = k + 1;
        }
        true
    }

    /// Adds a finding for `file` to a report that is out of order: the first file of that path
    /// gets the entry and has its entries sorted; with no such file, a new file holding the entry
    /// is added and the files are sorted by path.
    fn add_resorting(&mut self, file: &str, line: Option<usize>, severity: Severity, text: String)
        ensures
            final(self).sorting == old(self).sorting,
            resorted_with(old(self).sorting, old(self).entries@, file@, (Entry { line, severity, text }), final(self).entries@),
    {
        let ghost e0 = Entry { line, severity, text };
        let e = Entry { line, severity, text };
        let ghost old_files = self.entries@;
        match self.find_file(file) {
            Some(k) => {
                proof {
                    let fv = files_view(old_files);
                    assert forall|j: int| 0 <= j < k implies !path_same(#[trigger] old_files[j].0@, file@) by {
                        assert(!same_file(file@)(fv[j]));
                    }
                }
                let (name, list) = self.entries.remove(k);
                let ghost old_list = list@;
                let mut sorted = sort_entries(self.sorting, list);
                let ghost mid = sorted@;
                insert_in_order(self.sorting, &mut sorted, e);
                proof {
                    let pos = choose|pos: int| 0 <= pos <= mid.len() && sorted@ == mid.insert(pos, e0)
                        && (forall|i: int| 0 <= i < pos ==> entry_le(self.sorting, #[trigger] mid[i], e0))
                        && (forall|i: int| pos <= i < mid.len() ==> !entry_le(self.sorting, #[trigger] mid[i], e0));
                    assert(entries_view(sorted@) =~= entries_view(mid).insert(pos, entry_view(e0)));
                    vstd::seq_lib::to_multiset_insert(entries_view(mid), pos, entry_view(e0));
                }
                self.entries.insert(k, (name, sorted));
                proof {
                    let nf = self.entries@;
                    assert forall|j: int| 0 <= j < old_files.len() && j != k implies #[trigger] nf[j] == old_files[j] by {}
                    assert(old_list == old_files[k as int].1@);
                }
            },
            None => {
                let mut files: Vec<(String, Vec<Entry>)> = Vec::new();
                std::mem::swap(&mut files, &mut self.entries);
                let ghost before = files@;
                let mut one: Vec<Entry> = Vec::new();
                one.push(e);
                let name = copy_string(file);
                proof {
                    assert(one@ =~= seq![e0]);
                    assert(one@.map_values(|x: Entry| entry_view(x)) =~= seq![entry_view(e0)]);
                }
                files.push((name, one));
                proof {
                    assert(files_view(files@) =~= files_view(before).push((file@, seq![entry_view(e0)])));
                    vstd::seq_lib::to_multiset_build(files_view(before), (file@, seq![entry_view(e0)]));
                }
                self.entries = sort_files(files);
            },
        }
    }

    /// Adds a finding for `file`. In a report in order, a file not yet in the report is added at
    /// its place in path order, and the entry is placed after every entry of the file that may
    /// stand before it. In a report out of order (one whose files were set from elsewhere), the
    /// first file of that path gets the entry and has its entries sorted, or, with no such file,
    /// a new file holding the entry is added and the files are sorted by path.
    pub fn add_entry(&mut self, file: &str, line: Option<usize>, severity: Severity, text: String)
        ensures
            final(self).sorting == old(self).sorting,
            old(self).wf() ==> final(self).wf(),
            old(self).wf() ==> files_view(final(self).entries@) == report_with(files_view(old(self).entries@),
                old(self).sorting, file@, (line, severity, text@)),
            !old(self).wf() ==> resorted_with(old(self).sorting, old(self).entries@, file@, (Entry { line, severity, text }),
                final(self).entries@),
    {
        if self.is_valid() {
            self.add_to_valid(file, line, severity, text);
        } else {
            self.add_resorting(file, line, severity, text);
        }
    }
}

/// Whether entry `a` may stand before entry `b` under the given sorting.
pub fn entry_before(sorting: Sorting, a: &Entry, b: &Entry) -> (r: bool)
    ensures
        r == entry_le(sorting, *a, *b),
{
    let la: i128 = match a.line { None => -1, Some(n) => n as i128 };
    let lb: i128 = match b.line { None => -1, Some(n) => n as i128 };
    let sa: u8 = match a.severity { Severity::High => 0, Severity::Medium => 1, Severity::Low => 2 };
    let sb: u8 = match b.severity { Severity::High => 0, Severity::Medium => 1, Severity::Low => 2 };
    match sorting {
        Sorting::Line => la < lb || (la == lb && sa <= sb),
        Sorting::Severity => sa < sb || (sa == sb && la <= lb),
    }
}

} // verus!
