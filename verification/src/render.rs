//! The report as text: each file's path and a colon on a line of its own, then each of its
//! entries on a line that starts with a tab, the files apart by a blank line.
use vstd::prelude::*;
use colored::Colorize;
use crate::report::{Entry, EntryView, Report, Severity, entry_line_text, entry_view, files_view};
use crate::text::{is_infix, push_str};

verus! {

/// The lines of a file's entries, each after a tab and ended by a line break.
pub open spec fn entry_lines(lines: Seq<Seq<char>>) -> Seq<char>
    decreases lines.len(),
{
    if lines.len() == 0 {
        Seq::empty()
    } else {
        entry_lines(lines.drop_last()) + seq!['\t'] + lines.last() + seq!['\n']
    }
}

/// The text of files given by their paths and the lines of their entries: each path with a
/// colon and a line break, then its entry lines; a blank line before every file but the first.
pub open spec fn report_layout(paths: Seq<Seq<char>>, lines: Seq<Seq<Seq<char>>>) -> Seq<char>
    decreases paths.len(),
{
    if paths.len() == 0 || lines.len() != paths.len() {
        Seq::empty()
    } else {
        report_layout(paths.drop_last(), lines.drop_last())
            + (if paths.len() > 1 { seq!['\n'] } else { Seq::<char>::empty() })
            + paths.last() + seq![':', '\n'] + entry_lines(lines.last())
    }
}

/// The paths of the report's files.
pub open spec fn layout_paths(fv: Seq<(Seq<char>, Seq<EntryView>)>) -> Seq<Seq<char>> {
    fv.map_values(|f: (Seq<char>, Seq<EntryView>)| f.0)
}

/// The plain text of each entry of each file.
pub open spec fn layout_lines(fv: Seq<(Seq<char>, Seq<EntryView>)>) -> Seq<Seq<Seq<char>>> {
    fv.map_values(|f: (Seq<char>, Seq<EntryView>)| f.1.map_values(|e: EntryView| entry_line_text(e)))
}

/// The report as plain text.
pub open spec fn report_text_spec(fv: Seq<(Seq<char>, Seq<EntryView>)>) -> Seq<char> {
    report_layout(layout_paths(fv), layout_lines(fv))
}

/// The reset sequence of terminal colors.
pub open spec fn color_reset() -> Seq<char> {
    seq!['\x1B', '[', '0', 'm']
}

/// The escape sequence that switches the terminal to the foreground color with the given code.
pub open spec fn color_start(code: Seq<char>) -> Seq<char> {
    seq!['\x1B', '['] + code + seq!['m']
}

/// The foreground color code of a severity: red (31) for high, yellow (33) for medium, green
/// (32) for low.
pub open spec fn severity_color(severity: Severity) -> Seq<char> {
    match severity {
        Severity::High => seq!['3', '1'],
        Severity::Medium => seq!['3', '3'],
        Severity::Low => seq!['3', '2'],
    }
}

/// `p` is `line` as shown in the color with the given code: where the line holds no color
/// reset, either the line itself (colors switched off) or the line between the color's start
/// and a reset (colors on).
pub open spec fn painted_in(line: Seq<char>, code: Seq<char>, p: Seq<char>) -> bool {
    !is_infix(color_reset(), line) ==> (p == line || p == color_start(code) + line + color_reset())
}

/// `Colorize::red` from `colored`, written out by its `Display`. That writes the input alone
/// when colors are off, and the red start code, the input and a reset when they are on.
/// Whether they are on is decided by `colored` from the environment and the terminal, so
/// which of the two comes back is left open; nor is anything said of a line that itself holds
/// a reset, whose resets `colored` rewrites when colors are on.
#[verifier::external_body]
fn paint_red(line: &str) -> (r: String)
    ensures
        painted_in(line@, seq!['3', '1'], r@),
{
    line.red().to_string()
}

/// `Colorize::yellow` from `colored`, written out by its `Display`: as for `paint_red`, with
/// the yellow start code.
#[verifier::external_body]
fn paint_yellow(line: &str) -> (r: String)
    ensures
        painted_in(line@, seq!['3', '3'], r@),
{
    line.yellow().to_string()
}

/// `Colorize::green` from `colored`, written out by its `Display`: as for `paint_red`, with
/// the green start code.
#[verifier::external_body]
fn paint_green(line: &str) -> (r: String)
    ensures
        painted_in(line@, seq!['3', '2'], r@),
{
    line.green().to_string()
}

/// An entry's line in the color of its severity: red for high, yellow for medium, green for low.
pub fn paint(line: &str, severity: Severity) -> (r: String)
    ensures
        painted_in(line@, severity_color(severity), r@),
{
    match severity {
        Severity::High => paint_red(line),
        Severity::Medium => paint_yellow(line),
        Severity::Low => paint_green(line),
    }
}

/// The views of lists of strings.
pub open spec fn lines_view(v: Seq<Vec<String>>) -> Seq<Seq<Seq<char>>> {
    v.map_values(|l: Vec<String>| l@.map_values(|s: String| s@))
}

fn push_entry_lines(out: &mut String, lines: &Vec<String>)
    ensures
        final(out)@ == old(out)@ + entry_lines(lines@.map_values(|s: String| s@)),
{
    let ghost lv = lines@.map_values(|s: String| s@);
    let mut i: usize = 0;
    while i < lines.len()
        invariant
            i <= lines@.len(),
            lv == lines@.map_values(|s: String| s@),
            out@ == old(out)@ + entry_lines(lv.take(i as int)),
        decreases lines@.len() - i,
    {
        proof {
            assert(lv.take(i as int + 1).drop_last() =~= lv.take(i as int));
            assert(lv.take(i as int + 1).last() == lines@[i as int]@);
        }
        out.push('\t');
        push_str(out, lines[i].as_str());
        out.push('\n');
        proof {
            assert(out@ =~= old(out)@ + entry_lines(lv.take(i as int + 1)));
        }
        i = i + 1;
    }
    proof {
        assert(lv.take(i as int) =~= lv);
    }
}

/// Lays out files given by their paths and the lines of their entries.
fn layout(paths: &Vec<String>, lines: &Vec<Vec<String>>) -> (r: String)
    requires
        paths@.len() == lines@.len(),
    ensures
        r@ == report_layout(paths@.map_values(|s: String| s@), lines_view(lines@)),
{
    let ghost pv = paths@.map_values(|s: String| s@);
    let ghost lv = lines_view(lines@);
    let mut out = String::new();
    let mut i: usize = 0;
    while i < paths.len()
        invariant
            i <= paths@.len(),
            paths@.len() == lines@.len(),
            pv == paths@.map_values(|s: String| s@),
            lv == lines_view(lines@),
            out@ == report_layout(pv.take(i as int), lv.take(i as int)),
        decreases paths@.len() - i,
    {
        proof {
            assert(pv.take(i as int + 1).drop_last() =~= pv.take(i as int));
            assert(lv.take(i as int + 1).drop_last() =~= lv.take(i as int));
            assert(pv.take(i as int + 1).last() == paths@[i as int]@);
            assert(lv.take(i as int + 1).last() == lines@[i as int]@.map_values(|s: String| s@));
        }
        let ghost before = out@;
        if i > 0 {
            out.push('\n');
        }
        push_str(&mut out, paths[i].as_str());
        out.push(':');
        out.push('\n');
        push_entry_lines(&mut out, &lines[i]);
        proof {
            assert(out@ =~= report_layout(pv.take(i as int + 1), lv.take(i as int + 1)));
        }
        i = i + 1;
    }
    proof {
        assert(pv.take(i as int) =~= pv);
        assert(lv.take(i as int) =~= lv);
    }
    out
}

fn copy_paths(report: &Report) -> (r: Vec<String>)
    ensures
        r@.len() == report.entries@.len(),
        r@.map_values(|s: String| s@) == layout_paths(files_view(report.entries@)),
{
    let ghost want = layout_paths(files_view(report.entries@));
    let mut r: Vec<String> = Vec::new();
    let mut i: usize = 0;
    while i < report.entries.len()
        invariant
            i <= report.entries@.len(),
            want == layout_paths(files_view(report.entries@)),
            r@.len() == i,
            r@.map_values(|s: String| s@) == want.take(i as int),
        decreases report.entries@.len() - i,
    {
        let ghost old_r = r@;
        let x = crate::text::copy_string(report.entries[i].0.as_str());
        r.push(x);
        proof {
            assert(want[i as int] == report.entries@[i as int].0@);
            assert(r@.map_values(|s: String| s@) =~= old_r.map_values(|s: String| s@).push(x@));
            assert(want.take(i as int + 1) =~= want.take(i as int).push(want[i as int]));
        }
        i = i + 1;
    }
    proof {
        assert(want.take(i as int) =~= want);
    }
    r
}

fn plain_lines(entries: &Vec<Entry>) -> (r: Vec<String>)
    ensures
        r@.map_values(|s: String| s@) == entries@.map_values(|e: Entry| entry_view(e)).map_values(|e: EntryView| entry_line_text(e)),
{
    let ghost want = entries@.map_values(|e: Entry| entry_view(e)).map_values(|e: EntryView| entry_line_text(e));
    let mut r: Vec<String> = Vec::new();
    let mut i: usize = 0;
    while i < entries.len()
        invariant
            i <= entries@.len(),
            want == entries@.map_values(|e: Entry| entry_view(e)).map_values(|e: EntryView| entry_line_text(e)),
            r@.len() == i,
            r@.map_values(|s: String| s@) == want.take(i as int),
        decreases entries@.len() - i,
    {
        let ghost old_r = r@;
        let x = entries[i].line_text();
        r.push(x);
        proof {
            assert(want[i as int] == entry_line_text(entry_view(entries@[i as int])));
            assert(r@.map_values(|s: String| s@) =~= old_r.map_values(|s: String| s@).push(x@));
            assert(want.take(i as int + 1) =~= want.take(i as int).push(want[i as int]));
        }
        i = i + 1;
    }
    proof {
        assert(want.take(i as int) =~= want);
    }
    r
}

fn painted_lines(entries: &Vec<Entry>) -> (r: Vec<String>)
    ensures
        r@.len() == entries@.len(),
        forall|j: int| 0 <= j < entries@.len()
            ==> painted_in(entry_line_text(entry_view(entries@[j])), severity_color(entries@[j].severity), #[trigger] r@[j]@),
{
    let mut r: Vec<String> = Vec::new();
    let mut i: usize = 0;
    while i < entries.len()
        invariant
            i <= entries@.len(),
            r@.len() == i,
            forall|j: int| 0 <= j < i ==> painted_in(entry_line_text(entry_view(entries@[j])), severity_color(entries@[j].severity), #[trigger] r@[j]@),
        decreases entries@.len() - i,
    {
        let line = entries[i].line_text();
        r.push(paint(line.as_str(), entries[i].severity));
        i = i + 1;
    }
    r
}

impl Report {
    /// The report as plain text.
    pub fn text(&self) -> (r: String)
        ensures
            r@ == report_text_spec(files_view(self.entries@)),
    {
        let ghost fv = files_view(self.entries@);
        let paths = copy_paths(self);
        let mut lines: Vec<Vec<String>> = Vec::new();
        let mut i: usize = 0;
        while i < self.entries.len()
            invariant
                i <= self.entries@.len(),
                fv == files_view(self.entries@),
                lines@.len() == i,
                lines_view(lines@) == layout_lines(fv).take(i as int),
            decreases self.entries@.len() - i,
        {
            let ghost old_l = lines@;
            let x = plain_lines(&self.entries[i].1);
            lines.push(x);
            proof {
                assert(layout_lines(fv)[i as int] == self.entries@[i as int].1@.map_values(|e: Entry| entry_view(e))
                    .map_values(|e: EntryView| entry_line_text(e)));
                assert(lines_view(lines@) =~= lines_view(old_l).push(x@.map_values(|s: String| s@)));
                assert(layout_lines(fv).take(i as int + 1) =~= layout_lines(fv).take(i as int).push(layout_lines(fv)[i as int]));
            }
            i = i + 1;
        }
        proof {
            assert(layout_lines(fv).take(i as int) =~= layout_lines(fv));
        }
        layout(&paths, &lines)
    }

    /// The report as text with each entry's line in the color of its severity (red for high,
    /// yellow for medium, green for low), as the terminal shows it: laid out as the plain text
    /// is, each line being the entry's plain line, painted or, with colors off, as it is.
    pub fn colored_text(&self) -> (r: String)
        ensures
            exists|painted: Seq<Seq<Seq<char>>>| {
                &&& painted.len() == self.entries@.len()
                &&& forall|k: int| 0 <= k < painted.len() ==> (#[trigger] painted[k]).len() == self.entries@[k].1@.len()
                &&& forall|k: int, j: int| 0 <= k < painted.len() && 0 <= j < painted[k].len()
                    ==> painted_in(entry_line_text(entry_view(self.entries@[k].1@[j])),
                        severity_color(self.entries@[k].1@[j].severity), #[trigger] painted[k][j])
                &&& r@ == report_layout(layout_paths(files_view(self.entries@)), painted)
            },
    {
        let paths = copy_paths(self);
        let mut lines: Vec<Vec<String>> = Vec::new();
        let mut i: usize = 0;
        while i < self.entries.len()
            invariant
                i <= self.entries@.len(),
                lines@.len() == i,
                forall|k: int| 0 <= k < i ==> (#[trigger] lines@[k])@.len() == self.entries@[k].1@.len(),
                forall|k: int, j: int| 0 <= k < i && 0 <= j < lines@[k]@.len()
                    ==> painted_in(entry_line_text(entry_view(self.entries@[k].1@[j])),
                        severity_color(self.entries@[k].1@[j].severity), #[trigger] lines@[k]@[j]@),
            decreases self.entries@.len() - i,
        {
            lines.push(painted_lines(&self.entries[i].1));
            i = i + 1;
        }
        let r = layout(&paths, &lines);
        proof {
            let painted = lines_view(lines@);
            assert forall|k: int| 0 <= k < painted.len() implies (#[trigger] painted[k]).len() == self.entries@[k].1@.len() by {
                assert(painted[k] == lines@[k]@.map_values(|s: String| s@));
            }
            assert forall|k: int, j: int| 0 <= k < painted.len() && 0 <= j < painted[k].len()
                implies painted_in(entry_line_text(entry_view(self.entries@[k].1@[j])),
                        severity_color(self.entries@[k].1@[j].severity), #[trigger] painted[k][j]) by {
                assert(painted[k] == lines@[k]@.map_values(|s: String| s@));
                assert(painted[k][j] == lines@[k]@[j]@);
            }
        }
        r
    }
}

} // verus!
