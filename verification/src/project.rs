//! Line ranges of the analyzed files, the lookup of the line of an offset, and the display format.
use vstd::prelude::*;
use crate::error::Error;
use crate::ast::Module;
use crate::parse::{parse_module, parsed_module};
use crate::path::{path_same, path_eq};
use crate::text::{to_chars, copy_string, ascii_lowercase, lower_seq, chars_eq, replace_all, replace_str};

verus! {

/// How the report is printed.
#[derive(Clone, Copy, Debug, PartialEq, Eq, Structural)]
pub enum DisplayFormat {
    Text,
    Json,
}

impl Default for DisplayFormat {
    fn default() -> (r: Self)
        ensures
            r == DisplayFormat::Text,
    {
        DisplayFormat::Text
    }
}

/// The display format named by a string, ignoring ASCII case.
pub open spec fn display_format_named(s: Seq<char>) -> Option<DisplayFormat> {
    if lower_seq(s) == seq!['t', 'e', 'x', 't'] {
        Some(DisplayFormat::Text)
    } else if lower_seq(s) == seq!['j', 's', 'o', 'n'] {
        Some(DisplayFormat::Json)
    } else {
        None
    }
}

impl DisplayFormat {
    /// Parses a display format by name, ignoring ASCII case: `text` or `json`.
    pub fn from_str(s: &str) -> (r: Result<DisplayFormat, Error>)
        ensures
            match display_format_named(s@) {
                Some(v) => r == Ok::<DisplayFormat, Error>(v),
                None => r matches Err(Error::InvalidDisplayFormat(t)) && t@ == s@,
            },
    {
        let lower = ascii_lowercase(s);
        let lv = to_chars(lower.as_str());
        let text: Vec<char> = vec!['t', 'e', 'x', 't'];
        let json: Vec<char> = vec!['j', 's', 'o', 'n'];
        proof {
            assert(text@ =~= seq!['t', 'e', 'x', 't']);
            assert(json@ =~= seq!['j', 's', 'o', 'n']);
        }
        if chars_eq(lv.as_slice(), text.as_slice()) {
            Ok(DisplayFormat::Text)
        } else if chars_eq(lv.as_slice(), json.as_slice()) {
            Ok(DisplayFormat::Json)
        } else {
            Err(Error::InvalidDisplayFormat(copy_string(s)))
        }
    }
}

/// A source path as the analysis records it: doubled backslashes made single, then doubled
/// slashes made single.
pub open spec fn normalized_path(p: Seq<char>) -> Seq<char> {
    replace_all(replace_all(p, seq!['\\', '\\'], seq!['\\']), seq!['/', '/'], seq!['/'])
}

/// The path under which a source file is read and reported.
pub fn normalize_path(p: &str) -> (r: String)
    ensures
        r@ == normalized_path(p@),
{
    proof {
        reveal_strlit("\\\\");
        reveal_strlit("\\");
        reveal_strlit("//");
        reveal_strlit("/");
    }
    assert("\\\\"@ =~= seq!['\\', '\\']);
    assert("\\"@ =~= seq!['\\']);
    assert("//"@ =~= seq!['/', '/']);
    assert("/"@ =~= seq!['/']);
    let once = replace_str(p, "\\\\", "\\");
    replace_str(once.as_str(), "//", "/")
}

/// Records a source file read from `path` whose parse gave `parsed`: its line ranges are loaded
/// under the normalized path, and the module comes back with that path; a source that did not
/// parse is refused with the normalized path.
pub fn load_parsed(lines: &mut SourceLines, path: &str, source: &str, parsed: Option<Module>)
    -> (r: Result<(String, Module), Error>)
    ensures
        lines_loaded(old(lines).files@, normalized_path(path@), source@, final(lines).files@),
        match parsed {
            Some(m) => r matches Ok((p, n)) && p@ == normalized_path(path@) && n == m,
            None => r matches Err(Error::ParseFailed(p)) && p@ == normalized_path(path@),
        },
{
    let p = normalize_path(path);
    lines.load_line_ranges(p.as_str(), source);
    match parsed {
        Some(m) => Ok((p, m)),
        None => Err(Error::ParseFailed(p)),
    }
}

/// Records and parses a source file read from `path`: its line ranges are loaded under the
/// normalized path, then the source is parsed; its module comes back with that path, and a
/// source that does not parse is refused with the normalized path.
pub fn load_source(lines: &mut SourceLines, path: &str, source: &str) -> (r: Result<(String, Module), Error>)
    ensures
        lines_loaded(old(lines).files@, normalized_path(path@), source@, final(lines).files@),
        match parsed_module(source@) {
            Some(m) => r matches Ok((p, n)) && p@ == normalized_path(path@) && n == m,
            None => r matches Err(Error::ParseFailed(p)) && p@ == normalized_path(path@),
        },
{
    let parsed = parse_module(source);
    load_parsed(lines, path, source, parsed)
}

/// The directory to analyze as the analysis uses it: the given path with `/` appended.
pub open spec fn directory_path(d: Seq<char>) -> Seq<char> {
    d.push('/')
}

/// Checks the target and severity options before any file is read. Giving severities both to
/// keep and to drop is refused, then giving neither a directory nor a file; otherwise the
/// directory to analyze, if any, comes back with `/` appended.
pub fn prepare_target(directory: Option<String>, has_files: bool, selected: &Vec<String>, rejected: &Vec<String>)
    -> (r: Result<Option<String>, Error>)
    ensures
        selected@.len() > 0 && rejected@.len() > 0 ==> (r matches Err(Error::Wrapped(m))
            && m@ == "Cannot use both include and exclude options."@),
        !(selected@.len() > 0 && rejected@.len() > 0) && directory is None && !has_files ==> (r matches Err(Error::Wrapped(m))
            && m@ == "No directory or files provided as a target to analyze."@),
        !(selected@.len() > 0 && rejected@.len() > 0) && (directory is Some || has_files) ==> (r matches Ok(d)
            && match directory {
                Some(given) => d matches Some(p) && p@ == directory_path(given@),
                None => d is None,
            }),
{
    if selected.len() > 0 && rejected.len() > 0 {
        return Err(Error::Wrapped(copy_string("Cannot use both include and exclude options.")));
    }
    let directory = match directory {
        Some(d) => {
            let mut p = d;
            p.push('/');
            Some(p)
        },
        None => None,
    };
    if directory.is_none() && !has_files {
        return Err(Error::Wrapped(copy_string("No directory or files provided as a target to analyze.")));
    }
    Ok(directory)
}

/// Index just after the last line break of `s` (0 when there is none).
pub open spec fn last_line_start(s: Seq<char>) -> int
    decreases s.len(),
{
    if s.len() == 0 {
        0
    } else if s.last() == '\n' {
        s.len() as int
    } else {
        last_line_start(s.drop_last())
    }
}

/// The ranges `(start, end)` of the lines of `s` that end with a line break, in character
/// positions; `end` is the position of the line break.
pub open spec fn break_ranges(s: Seq<char>) -> Seq<(int, int)>
    decreases s.len(),
{
    if s.len() == 0 {
        Seq::empty()
    } else if s.last() == '\n' {
        break_ranges(s.drop_last()).push((last_line_start(s.drop_last()), s.len() - 1))
    } else {
        break_ranges(s.drop_last())
    }
}

/// The ranges `(start, end)` of the lines of `s`, in character positions: those ended by a line
/// break, where `end` is the position of the break, then the text after the last line break,
/// when there is any, up to the end of `s`.
pub open spec fn line_ranges(s: Seq<char>) -> Seq<(int, int)> {
    if last_line_start(s) < s.len() {
        break_ranges(s).push((last_line_start(s), s.len() as int))
    } else {
        break_ranges(s)
    }
}

/// The values of a vector of ranges.
pub open spec fn ranges_view(v: Seq<(usize, usize)>) -> Seq<(int, int)> {
    v.map_values(|r: (usize, usize)| (r.0 as int, r.1 as int))
}

/// The 1-based number of the first range that holds `offset`, if any.
pub open spec fn line_of(ranges: Seq<(int, int)>, offset: int) -> Option<int>
    decreases ranges.len(),
{
    if ranges.len() == 0 {
        None
    } else {
        match line_of(ranges.drop_last(), offset) {
            Some(n) => Some(n),
            None => if ranges.last().0 <= offset < ranges.last().1 { Some(ranges.len() as int) } else { None },
        }
    }
}

/// `after` is `before` with the line ranges of `source` recorded for `path`: added to those of
/// the first file of that path, or as a new last file; nothing changes for a source without any
/// line break.
pub open spec fn lines_loaded(before: Seq<(String, Vec<(usize, usize)>)>, path: Seq<char>, source: Seq<char>,
    after: Seq<(String, Vec<(usize, usize)>)>) -> bool
{
    let ranges = line_ranges(source);
    if ranges.len() == 0 {
        after == before
    } else {
        match first_file(before, path) {
            Some(k) => after.len() == before.len()
                && (forall|j: int| 0 <= j < before.len() && j != k ==> #[trigger] after[j] == before[j])
                && after[k].0 == before[k].0
                && ranges_view(after[k].1@) == ranges_view(before[k].1@) + ranges,
            None => after.len() == before.len() + 1
                && after.subrange(0, before.len() as int) == before
                && after.last().0@ == path
                && ranges_view(after.last().1@) == ranges,
        }
    }
}

/// The line ranges of the files loaded so far.
pub struct SourceLines {
    pub files: Vec<(String, Vec<(usize, usize)>)>,
}

/// Position of the first file with the same path as `path`, if any.
pub open spec fn first_file(files: Seq<(String, Vec<(usize, usize)>)>, path: Seq<char>) -> Option<int>
    decreases files.len(),
{
    if files.len() == 0 {
        None
    } else {
        match first_file(files.drop_last(), path) {
            Some(k) => Some(k),
            None => if path_same(files.last().0@, path) { Some(files.len() - 1) } else { None },
        }
    }
}

impl SourceLines {
    /// No file loaded.
    pub fn new() -> (r: SourceLines)
        ensures
            r.files@.len() == 0,
    {
        SourceLines { files: Vec::new() }
    }

    /// The position of the first file with the same path as `path`.
    pub fn find(&self, path: &str) -> (r: Option<usize>)
        ensures
            match r {
                Some(i) => first_file(self.files@, path@) == Some(i as int) && i < self.files@.len(),
                None => first_file(self.files@, path@) is None,
            },
    {
        let mut i: usize = 0;
        while i < self.files.len()
            invariant
                i <= self.files@.len(),
                first_file(self.files@.subrange(0, i as int), path@) is None,
            decreases self.files@.len() - i,
        {
            proof {
                assert(self.files@.subrange(0, i as int + 1).drop_last() =~= self.files@.subrange(0, i as int));
            }
            if path_eq(self.files[i].0.as_str(), path) {
                proof {
                    lemma_first_file_prefix(self.files@, i as int + 1, path@);
                    lemma_first_file_bound(self.files@.subrange(0, i as int + 1), path@);
                }
                return Some(i);
            }
            i = i + 1;
        }
        proof {
            assert(self.files@.subrange(0, i as int) =~= self.files@);
        }
        None
    }

    /// Records the line ranges of `source` for `path`, its last line included whether or not a
    /// line break ends it. Ranges are added to those already recorded for the same path; an
    /// empty source records nothing.
    pub fn load_line_ranges(&mut self, path: &str, source: &str)
        ensures
            lines_loaded(old(self).files@, path@, source@, final(self).files@),
    {
        let chars = to_chars(source);
        let mut found: Vec<(usize, usize)> = Vec::new();
        let mut start: usize = 0;
        let mut i: usize = 0;
        while i < chars.len()
            invariant
                i <= chars.len(),
                chars@ == source@,
                start as int == last_line_start(chars@.subrange(0, i as int)),
                ranges_view(found@) == break_ranges(chars@.subrange(0, i as int)),
            decreases chars.len() - i,
        {
            proof {
                assert(chars@.subrange(0, i as int + 1).drop_last() =~= chars@.subrange(0, i as int));
                lemma_last_line_start_bound(chars@.subrange(0, i as int));
            }
            if chars[i] == '\n' {
                found.push((start, i));
                proof {
                    assert(ranges_view(found@) =~= break_ranges(chars@.subrange(0, i as int)).push((start as int, i as int)));
                }
                start = i + 1;
            }
            i = i + 1;
        }
        proof {
            assert(chars@.subrange(0, chars@.len() as int) =~= chars@);
            lemma_last_line_start_bound(chars@);
        }
        if start < chars.len() {
            let ghost before = ranges_view(found@);
            found.push((start, chars.len()));
            proof {
                assert(ranges_view(found@) =~= before.push((start as int, chars@.len() as int)));
            }
        }
        if found.len() == 0 {
            return;
        }
        match self.find(path) {
            Some(k) => {
                let (name, mut ranges) = self.files.remove(k);
                let ghost before = ranges@;
                ranges.append(&mut found);
                proof {
                    assert(ranges_view(ranges@) =~= ranges_view(before) + line_ranges(source@));
                }
                self.files.insert(k, (name, ranges));
                proof {
                    assert forall|j: int| 0 <= j < old(self).files@.len() && j != k
                        implies #[trigger] self.files@[j] == old(self).files@[j] by {}
                }
            },
            None => {
                self.files.push((copy_string(path), found));
                proof {
                    assert(self.files@.subrange(0, old(self).files@.len() as int) =~= old(self).files@);
                }
            },
        }
    }

    /// The 1-based line of `offset` in the file `path`: an error when the file was never
    /// loaded or no line holds the offset, and no line when the file has no ranges.
    pub fn span_to_line(&self, path: &str, offset: usize) -> (r: Result<Option<usize>, Error>)
        ensures
            match first_file(self.files@, path@) {
                None => r matches Err(Error::FileNotFound(p)) && p@ == path@,
                Some(k) => {
                    let ranges = ranges_view(self.files@[k].1@);
                    if ranges.len() == 0 {
                        r == Ok::<Option<usize>, Error>(None)
                    } else {
                        match line_of(ranges, offset as int) {
                            Some(n) => r matches Ok(Some(m)) && m == n,
                            None => r matches Err(Error::LineNotFound(p, o)) && p@ == path@ && o == offset,
                        }
                    }
                },
            },
    {
        let k = match self.find(path) {
            Some(k) => k,
            None => return Err(Error::FileNotFound(copy_string(path))),
        };
        let ranges = &self.files[k].1;
        if ranges.len() == 0 {
            return Ok(None);
        }
        let mut i: usize = 0;
        while i < ranges.len()
            invariant
                i <= ranges@.len(),
                k < self.files@.len(),
                first_file(self.files@, path@) == Some(k as int),
                ranges@ == self.files@[k as int].1@,
                ranges@.len() > 0,
                line_of(ranges_view(ranges@.subrange(0, i as int)), offset as int) is None,
            decreases ranges@.len() - i,
        {
            proof {
                assert(ranges_view(ranges@.subrange(0, i as int + 1)).drop_last() =~= ranges_view(ranges@.subrange(0, i as int)));
            }
            if offset >= ranges[i].0 && offset < ranges[i].1 {
                proof {
                    let pre = ranges_view(ranges@.subrange(0, i as int + 1));
                    assert(pre.last() == (ranges@[i as int].0 as int, ranges@[i as int].1 as int));
                    assert(line_of(pre, offset as int) == Some(i as int + 1));
                    assert(pre =~= ranges_view(ranges@).subrange(0, i as int + 1));
                    lemma_line_of_prefix(ranges_view(ranges@), i as int + 1, offset as int);
                }
                return Ok(Some(i + 1));
            }
            i = i + 1;
        }
        proof {
            assert(ranges@.subrange(0, i as int) =~= ranges@);
        }
        Err(Error::LineNotFound(copy_string(path), offset))
    }
}

proof fn lemma_last_line_start_bound(s: Seq<char>)
    ensures
        0 <= last_line_start(s) <= s.len(),
    decreases s.len(),
{
    if s.len() > 0 && s.last() != '\n' {
        lemma_last_line_start_bound(s.drop_last());
    }
}

proof fn lemma_first_file_bound(files: Seq<(String, Vec<(usize, usize)>)>, path: Seq<char>)
    ensures
        first_file(files, path) matches Some(k) ==> 0 <= k < files.len(),
    decreases files.len(),
{
    if files.len() > 0 {
        lemma_first_file_bound(files.drop_last(), path);
    }
}

proof fn lemma_first_file_prefix(files: Seq<(String, Vec<(usize, usize)>)>, n: int, path: Seq<char>)
    requires
        0 <= n <= files.len(),
        first_file(files.subrange(0, n), path) is Some,
    ensures
        first_file(files, path) == first_file(files.subrange(0, n), path),
    decreases files.len(),
{
    if n < files.len() {
        assert(files.drop_last().subrange(0, n) =~= files.subrange(0, n));
        lemma_first_file_prefix(files.drop_last(), n, path);
    } else {
        assert(files.subrange(0, n) =~= files);
    }
}

proof fn lemma_line_of_prefix(ranges: Seq<(int, int)>, n: int, offset: int)
    requires
        0 <= n <= ranges.len(),
        line_of(ranges.subrange(0, n), offset) is Some,
    ensures
        line_of(ranges, offset) == line_of(ranges.subrange(0, n), offset),
    decreases ranges.len(),
{
    if n < ranges.len() {
        assert(ranges.drop_last().subrange(0, n) =~= ranges.subrange(0, n));
        lemma_line_of_prefix(ranges.drop_last(), n, offset);
    } else {
        assert(ranges.subrange(0, n) =~= ranges);
    }
}

} // verus!
