//! Character-level helpers on strings, stated over `Seq<char>` views.
use vstd::prelude::*;

verus! {

/// `String::push` appends the given character to the end of the string.
pub assume_specification[ std::string::String::push ](s: &mut std::string::String, ch: char)
    ensures
        final(s)@ == old(s)@.push(ch),
;

/// `needle` occurs as a contiguous part of `hay`.
pub open spec fn is_infix(needle: Seq<char>, hay: Seq<char>) -> bool {
    exists|i: int| 0 <= i && i + needle.len() <= hay.len() && #[trigger] hay.subrange(i, i + needle.len()) == needle
}

/// `needle` occurs in `hay` starting at position `i`.
pub open spec fn occurs_at(needle: Seq<char>, hay: Seq<char>, i: int) -> bool {
    0 <= i && i + needle.len() <= hay.len() && hay.subrange(i, i + needle.len()) == needle
}

/// `prefix` is a prefix of `s`.
pub open spec fn has_prefix(s: Seq<char>, prefix: Seq<char>) -> bool {
    prefix.len() <= s.len() && s.subrange(0, prefix.len() as int) == prefix
}

/// The ASCII lower-case form of a character.
pub open spec fn lower_char(c: char) -> char {
    if 'A' <= c && c <= 'Z' { ((c as u32) + 32) as char } else { c }
}

/// The ASCII lower-case form of a sequence of characters.
pub open spec fn lower_seq(s: Seq<char>) -> Seq<char> {
    s.map_values(|c: char| lower_char(c))
}

/// The parts of `p` between occurrences of `sep` (an empty text has one empty part).
pub open spec fn split_on(p: Seq<char>, sep: char) -> Seq<Seq<char>>
    decreases p.len(),
{
    if p.len() == 0 {
        seq![Seq::<char>::empty()]
    } else if p.last() == sep {
        split_on(p.drop_last(), sep).push(Seq::<char>::empty())
    } else {
        let s = split_on(p.drop_last(), sep);
        s.update(s.len() - 1, s.last().push(p.last()))
    }
}

/// The characters of a string.
pub fn to_chars(s: &str) -> (r: Vec<char>)
    ensures
        r@ == s@,
{
    broadcast use vstd::string::group_string_axioms;

    let mut r: Vec<char> = Vec::new();
    for c in it: s.chars()
        invariant
            r.len() == it.index(),
            forall|j: int| 0 <= j < r.len() ==> r@[j] == it.seq()[j],
    {
        r.push(c);
    }
    proof {
        assert(r@ =~= s@);
    }
    r
}

/// The string made of the given characters.
pub fn string_from_chars(s: &[char]) -> (r: String)
    ensures
        r@ == s@,
{
    let mut r = String::new();
    let mut i: usize = 0;
    while i < s.len()
        invariant
            i <= s.len(),
            r@ == s@.subrange(0, i as int),
        decreases s.len() - i,
    {
        r.push(s[i]);
        proof {
            assert(s@.subrange(0, i as int + 1) =~= s@.subrange(0, i as int).push(s@[i as int]));
        }
        i = i + 1;
    }
    proof {
        assert(s@.subrange(0, s@.len() as int) =~= s@);
    }
    r
}

/// A copy of a string.
pub fn copy_string(s: &str) -> (r: String)
    ensures
        r@ == s@,
{
    let v = to_chars(s);
    string_from_chars(v.as_slice())
}

/// Appends the characters of `tail` to `s`.
pub fn push_str(s: &mut String, tail: &str)
    ensures
        final(s)@ == old(s)@ + tail@,
{
    let v = to_chars(tail);
    let ghost start = s@;
    let mut i: usize = 0;
    while i < v.len()
        invariant
            i <= v.len(),
            v@ == tail@,
            s@ == start + v@.subrange(0, i as int),
        decreases v.len() - i,
    {
        s.push(v[i]);
        proof {
            assert(v@.subrange(0, i as int + 1) =~= v@.subrange(0, i as int).push(v@[i as int]));
        }
        i = i + 1;
    }
    proof {
        assert(v@.subrange(0, v@.len() as int) =~= v@);
    }
}

/// Whether two character slices are equal.
pub fn chars_eq(a: &[char], b: &[char]) -> (r: bool)
    ensures
        r == (a@ == b@),
{
    if a.len() != b.len() {
        return false;
    }
    let mut i: usize = 0;
    while i < a.len()
        invariant
            i <= a.len(),
            a.len() == b.len(),
            forall|j: int| 0 <= j < i ==> a@[j] == b@[j],
        decreases a.len() - i,
    {
        if a[i] != b[i] {
            return false;
        }
        i = i + 1;
    }
    proof {
        assert(a@ =~= b@);
    }
    true
}

/// Whether two strings are equal.
pub fn str_eq(a: &str, b: &str) -> (r: bool)
    ensures
        r == (a@ == b@),
{
    let va = to_chars(a);
    let vb = to_chars(b);
    chars_eq(va.as_slice(), vb.as_slice())
}

/// Whether `needle` occurs in `hay` at position `i`.
pub fn chars_occur_at(needle: &[char], hay: &[char], i: usize) -> (r: bool)
    ensures
        r == occurs_at(needle@, hay@, i as int),
{
    if i > hay.len() || needle.len() > hay.len() - i {
        return false;
    }
    let mut j: usize = 0;
    while j < needle.len()
        invariant
            j <= needle.len(),
            i + needle.len() <= hay.len(),
            forall|k: int| 0 <= k < j ==> hay@[i + k] == needle@[k],
        decreases needle.len() - j,
    {
        if hay[i + j] != needle[j] {
            proof {
                assert(hay@.subrange(i as int, i + needle.len())[j as int] != needle@[j as int]);
            }
            return false;
        }
        j = j + 1;
    }
    proof {
        assert(hay@.subrange(i as int, i + needle.len()) =~= needle@);
    }
    true
}

/// `s` with every occurrence of `pat` replaced by `rep`, scanning from the left and not
/// rescanning replaced text.
pub open spec fn replace_all(s: Seq<char>, pat: Seq<char>, rep: Seq<char>) -> Seq<char>
    decreases s.len(),
{
    if s.len() == 0 {
        s
    } else if pat.len() > 0 && pat.len() <= s.len() && s.subrange(0, pat.len() as int) == pat {
        rep + replace_all(s.subrange(pat.len() as int, s.len() as int), pat, rep)
    } else {
        seq![s[0]] + replace_all(s.subrange(1, s.len() as int), pat, rep)
    }
}

/// `s` with every occurrence of `pat` replaced by `rep`, from the left.
pub fn replace_str(s: &str, pat: &str, rep: &str) -> (r: String)
    requires
        pat@.len() > 0,
    ensures
        r@ == replace_all(s@, pat@, rep@),
{
    let cs = to_chars(s);
    let ps = to_chars(pat);
    let mut out = String::new();
    let mut i: usize = 0;
    proof {
        assert(s@.subrange(0, s@.len() as int) =~= s@);
        assert(out@ + replace_all(s@, pat@, rep@) =~= replace_all(s@, pat@, rep@));
    }
    while i < cs.len()
        invariant
            i <= cs@.len(),
            cs@ == s@,
            ps@ == pat@,
            ps@.len() > 0,
            replace_all(s@, pat@, rep@) == out@ + replace_all(s@.subrange(i as int, s@.len() as int), pat@, rep@),
        decreases cs@.len() - i,
    {
        let ghost rest = s@.subrange(i as int, s@.len() as int);
        if chars_occur_at(ps.as_slice(), cs.as_slice(), i) {
            proof {
                assert(rest.subrange(0, pat@.len() as int) =~= s@.subrange(i as int, i + pat@.len()));
                assert(rest.subrange(pat@.len() as int, rest.len() as int)
                    =~= s@.subrange(i + pat@.len(), s@.len() as int));
            }
            push_str(&mut out, rep);
            i = i + ps.len();
        } else {
            proof {
                if pat@.len() <= rest.len() {
                    assert(rest.subrange(0, pat@.len() as int) =~= s@.subrange(i as int, i + pat@.len()));
                }
                assert(rest.subrange(1, rest.len() as int) =~= s@.subrange(i + 1, s@.len() as int));
            }
            out.push(cs[i]);
            i = i + 1;
        }
    }
    proof {
        assert(s@.subrange(i as int, s@.len() as int) =~= Seq::<char>::empty());
        assert(out@ + Seq::<char>::empty() =~= out@);
    }
    out
}

/// Whether `needle` occurs as a contiguous part of `hay`.
pub fn chars_contain(hay: &[char], needle: &[char]) -> (r: bool)
    ensures
        r == is_infix(needle@, hay@),
{
    if needle.len() > hay.len() {
        return false;
    }
    if needle.len() == 0 {
        proof {
            assert(hay@.subrange(0, 0 + needle@.len() as int) =~= needle@);
        }
        return true;
    }
    let mut i: usize = 0;
    let last = hay.len() - needle.len();
    while i <= last
        invariant
            0 < needle.len() <= hay.len(),
            last == hay.len() - needle.len(),
            i <= last + 1,
            forall|k: int| 0 <= k < i ==> !occurs_at(needle@, hay@, k),
        decreases last + 1 - i,
    {
        if chars_occur_at(needle, hay, i) {
            proof {
                assert(hay@.subrange(i as int, i + needle.len()) == needle@);
            }
            return true;
        }
        i = i + 1;
    }
    proof {
        assert forall|k: int| 0 <= k && k + needle@.len() <= hay@.len()
            implies #[trigger] hay@.subrange(k, k + needle@.len()) != needle@ by {
            assert(!occurs_at(needle@, hay@, k));
        }
    }
    false
}

/// Whether `needle` occurs as a contiguous part of `hay`.
pub fn str_contains(hay: &str, needle: &str) -> (r: bool)
    ensures
        r == is_infix(needle@, hay@),
{
    let h = to_chars(hay);
    let n = to_chars(needle);
    chars_contain(h.as_slice(), n.as_slice())
}

/// Whether `s` starts with `prefix`.
pub fn str_starts_with(s: &str, prefix: &str) -> (r: bool)
    ensures
        r == has_prefix(s@, prefix@),
{
    let v = to_chars(s);
    let p = to_chars(prefix);
    chars_occur_at(p.as_slice(), v.as_slice(), 0)
}

/// The ASCII lower-case form of a string.
pub fn ascii_lowercase(s: &str) -> (r: String)
    ensures
        r@ == lower_seq(s@),
{
    let v = to_chars(s);
    let mut out = String::new();
    let mut i: usize = 0;
    while i < v.len()
        invariant
            i <= v.len(),
            v@ == s@,
            out@ == lower_seq(v@.subrange(0, i as int)),
        decreases v.len() - i,
    {
        let c = v[i];
        let lc = if 'A' <= c && c <= 'Z' { ((c as u32) + 32) as u8 as char } else { c };
        proof {
            if 'A' <= c && c <= 'Z' {
                assert((c as u32) + 32 < 256);
                assert(lc == lower_char(c));
            }
        }
        out.push(lc);
        proof {
            assert(lower_seq(v@.subrange(0, i as int + 1)) =~= lower_seq(v@.subrange(0, i as int)).push(lower_char(c)));
        }
        i = i + 1;
    }
    proof {
        assert(v@.subrange(0, v@.len() as int) =~= v@);
    }
    out
}

/// The values of a vector of strings.
pub open spec fn strings_view(v: Seq<String>) -> Seq<Seq<char>> {
    v.map_values(|s: String| s@)
}

/// Splits `s` at every occurrence of `sep`.
pub fn split_char(s: &str, sep: char) -> (r: Vec<String>)
    ensures
        strings_view(r@) == split_on(s@, sep),
{
    let chars = to_chars(s);
    let mut out: Vec<String> = Vec::new();
    let mut cur: Vec<char> = Vec::new();
    let mut i: usize = 0;
    while i < chars.len()
        invariant
            i <= chars.len(),
            chars@ == s@,
            split_on(chars@.subrange(0, i as int), sep) == strings_view(out@).push(cur@),
        decreases chars.len() - i,
    {
        let c = chars[i];
        proof {
            assert(chars@.subrange(0, i as int + 1).drop_last() =~= chars@.subrange(0, i as int));
        }
        if c == sep {
            let part = string_from_chars(cur.as_slice());
            let ghost before = strings_view(out@);
            out.push(part);
            cur = Vec::new();
            proof {
                assert(strings_view(out@) =~= before.push(part@));
                assert(split_on(chars@.subrange(0, i as int + 1), sep) =~= strings_view(out@).push(cur@));
            }
        } else {
            cur.push(c);
            proof {
                assert(split_on(chars@.subrange(0, i as int + 1), sep) =~= strings_view(out@).push(cur@));
            }
        }
        i = i + 1;
    }
    proof {
        assert(chars@.subrange(0, chars@.len() as int) =~= chars@);
    }
    let last = string_from_chars(cur.as_slice());
    let ghost before = strings_view(out@);
    out.push(last);
    proof {
        assert(strings_view(out@) =~= before.push(last@));
    }
    out
}

/// Whether `c` occurs in `s`.
pub fn str_has_char(s: &str, c: char) -> (r: bool)
    ensures
        r == s@.contains(c),
{
    let v = to_chars(s);
    let mut i: usize = 0;
    while i < v.len()
        invariant
            i <= v.len(),
            v@ == s@,
            forall|j: int| 0 <= j < i ==> v@[j] != c,
        decreases v.len() - i,
    {
        if v[i] == c {
            return true;
        }
        i = i + 1;
    }
    false
}


/// The parts of `s` between the leftmost non-overlapping occurrences of `sep`.
pub open spec fn split_sep(s: Seq<char>, sep: Seq<char>) -> Seq<Seq<char>>
    decreases s.len(),
{
    if sep.len() == 0 || s.len() < sep.len() {
        seq![s]
    } else if s.subrange(0, sep.len() as int) == sep {
        seq![Seq::<char>::empty()] + split_sep(s.subrange(sep.len() as int, s.len() as int), sep)
    } else {
        let r = split_sep(s.drop_first(), sep);
        r.update(0, seq![s[0]] + r[0])
    }
}

/// The parts of a split are never fewer than one.
pub proof fn lemma_split_sep_nonempty(s: Seq<char>, sep: Seq<char>)
    ensures
        split_sep(s, sep).len() >= 1,
    decreases s.len(),
{
    if sep.len() == 0 || s.len() < sep.len() {
    } else if s.subrange(0, sep.len() as int) == sep {
    } else {
        lemma_split_sep_nonempty(s.drop_first(), sep);
    }
}

fn split_chars_from(hay: &[char], sep: &[char], i: usize) -> (r: Vec<Vec<char>>)
    requires
        i <= hay.len(),
        sep.len() > 0,
    ensures
        r@.map_values(|v: Vec<char>| v@) == split_sep(hay@.subrange(i as int, hay@.len() as int), sep@),
    decreases hay.len() - i,
{
    let ghost s = hay@.subrange(i as int, hay@.len() as int);
    if hay.len() - i < sep.len() {
        let mut r: Vec<Vec<char>> = Vec::new();
        let mut piece: Vec<char> = Vec::new();
        let mut k: usize = i;
        while k < hay.len()
            invariant
                i <= k <= hay.len(),
                piece@ == hay@.subrange(i as int, k as int),
            decreases hay.len() - k,
        {
            piece.push(hay[k]);
            proof {
                assert(hay@.subrange(i as int, k + 1) =~= hay@.subrange(i as int, k as int).push(hay@[k as int]));
            }
            k = k + 1;
        }
        r.push(piece);
        proof {
            assert(r@.map_values(|v: Vec<char>| v@) =~= seq![s]);
        }
        return r;
    }
    if chars_occur_at(sep, hay, i) {
        proof {
            assert(s.subrange(0, sep@.len() as int) =~= hay@.subrange(i as int, i + sep@.len()));
            assert(s.subrange(sep@.len() as int, s.len() as int) =~= hay@.subrange(i + sep@.len(), hay@.len() as int));
        }
        let rest = split_chars_from(hay, sep, i + sep.len());
        let mut r: Vec<Vec<char>> = Vec::new();
        r.push(Vec::new());
        let mut rest = rest;
        let ghost rv = rest@.map_values(|v: Vec<char>| v@);
        r.append(&mut rest);
        proof {
            assert(r@.map_values(|v: Vec<char>| v@) =~= seq![Seq::<char>::empty()] + rv);
        }
        r
    } else {
        proof {
            assert(s.subrange(0, sep@.len() as int) =~= hay@.subrange(i as int, i + sep@.len()));
            assert(s.drop_first() =~= hay@.subrange(i + 1, hay@.len() as int));
            lemma_split_sep_nonempty(s.drop_first(), sep@);
        }
        let mut r = split_chars_from(hay, sep, i + 1);
        let ghost rv = r@.map_values(|v: Vec<char>| v@);
        let mut first = r.remove(0);
        first.insert(0, hay[i]);
        r.insert(0, first);
        proof {
            assert(first@ =~= seq![s[0]] + rv[0]);
            assert(r@.map_values(|v: Vec<char>| v@) =~= rv.update(0, seq![s[0]] + rv[0]));
        }
        r
    }
}

/// The parts of `s` between the leftmost non-overlapping occurrences of `sep`, as `str::split`
/// gives them.
pub fn split_str(s: &str, sep: &str) -> (r: Vec<String>)
    requires
        sep@.len() > 0,
    ensures
        strings_view(r@) == split_sep(s@, sep@),
{
    let hay = to_chars(s);
    let pat = to_chars(sep);
    let parts = split_chars_from(hay.as_slice(), pat.as_slice(), 0);
    proof {
        assert(hay@.subrange(0, hay@.len() as int) =~= hay@);
    }
    let mut r: Vec<String> = Vec::new();
    let mut k: usize = 0;
    while k < parts.len()
        invariant
            k <= parts@.len(),
            strings_view(r@) == parts@.subrange(0, k as int).map_values(|v: Vec<char>| v@),
        decreases parts@.len() - k,
    {
        let piece = string_from_chars(parts[k].as_slice());
        let ghost before = strings_view(r@);
        r.push(piece);
        proof {
            assert(strings_view(r@) =~= before.push(parts@[k as int]@));
            assert(parts@.subrange(0, k + 1).map_values(|v: Vec<char>| v@) =~= parts@.subrange(0, k as int).map_values(|v: Vec<char>| v@).push(parts@[k as int]@));
        }
        k = k + 1;
    }
    proof {
        assert(parts@.subrange(0, k as int) =~= parts@);
    }
    r
}

} // verus!
