//! File paths as sequences of components, and the order in which reports list files.
//!
//! A path is split at `/`. A leading `/` gives a root component; a leading `.` segment
//! of a relative path gives a current-directory component; empty segments and other `.`
//! segments are dropped; `..` gives a parent-directory component; every other segment is
//! a normal component. Paths are compared component by component, first by the kind of the
//! component (root, current directory, parent directory, normal) and then by the characters
//! of a normal component.
use vstd::prelude::*;
use crate::text::to_chars;

verus! {

/// Kind of a root component.
pub const KIND_ROOT: u8 = 0;
/// Kind of a leading current-directory component.
pub const KIND_CUR: u8 = 1;
/// Kind of a parent-directory component.
pub const KIND_PARENT: u8 = 2;
/// Kind of a normal component.
pub const KIND_NORMAL: u8 = 3;

/// The segments of `p` between `/` separators (an empty path has one empty segment).
pub open spec fn split_slash(p: Seq<char>) -> Seq<Seq<char>>
    decreases p.len(),
{
    if p.len() == 0 {
        seq![Seq::<char>::empty()]
    } else if p.last() == '/' {
        split_slash(p.drop_last()).push(Seq::<char>::empty())
    } else {
        let s = split_slash(p.drop_last());
        s.update(s.len() - 1, s.last().push(p.last()))
    }
}

/// The text `.`.
pub open spec fn dot() -> Seq<char> {
    seq!['.']
}

/// The text `..`.
pub open spec fn dot_dot() -> Seq<char> {
    seq!['.', '.']
}

/// The component that a non-empty segment other than `.` stands for.
pub open spec fn segment_component(s: Seq<char>) -> (u8, Seq<char>) {
    if s == dot_dot() { (KIND_PARENT, Seq::empty()) } else { (KIND_NORMAL, s) }
}

/// The components that a sequence of segments stands for, dropping empty and `.` segments.
pub open spec fn segment_components(segs: Seq<Seq<char>>) -> Seq<(u8, Seq<char>)>
    decreases segs.len(),
{
    if segs.len() == 0 {
        Seq::empty()
    } else {
        let rest = segment_components(segs.drop_last());
        let s = segs.last();
        if s.len() == 0 || s == dot() { rest } else { rest.push(segment_component(s)) }
    }
}

/// The components of a path.
pub open spec fn path_components(p: Seq<char>) -> Seq<(u8, Seq<char>)> {
    let segs = split_slash(p);
    if p.len() > 0 && p[0] == '/' {
        seq![(KIND_ROOT, Seq::<char>::empty())] + segment_components(segs)
    } else if segs[0] == dot() {
        seq![(KIND_CUR, Seq::<char>::empty())] + segment_components(segs)
    } else {
        segment_components(segs)
    }
}

/// Lexicographic order on character sequences (by code point).
pub open spec fn chars_lt(a: Seq<char>, b: Seq<char>) -> bool
    decreases a.len(),
{
    if a.len() == 0 {
        b.len() > 0
    } else if b.len() == 0 {
        false
    } else if a[0] != b[0] {
        a[0] < b[0]
    } else {
        chars_lt(a.drop_first(), b.drop_first())
    }
}

/// Order on components: by kind, then by text.
pub open spec fn component_lt(a: (u8, Seq<char>), b: (u8, Seq<char>)) -> bool {
    a.0 < b.0 || (a.0 == b.0 && chars_lt(a.1, b.1))
}

/// Lexicographic order on component sequences.
pub open spec fn components_lt(a: Seq<(u8, Seq<char>)>, b: Seq<(u8, Seq<char>)>) -> bool
    decreases a.len(),
{
    if a.len() == 0 {
        b.len() > 0
    } else if b.len() == 0 {
        false
    } else if a[0] != b[0] {
        component_lt(a[0], b[0])
    } else {
        components_lt(a.drop_first(), b.drop_first())
    }
}

/// Path `a` sorts before path `b`.
pub open spec fn path_lt(a: Seq<char>, b: Seq<char>) -> bool {
    components_lt(path_components(a), path_components(b))
}

/// Paths `a` and `b` name the same file.
pub open spec fn path_same(a: Seq<char>, b: Seq<char>) -> bool {
    path_components(a) == path_components(b)
}

pub proof fn lemma_chars_lt_irrefl(a: Seq<char>)
    ensures
        !chars_lt(a, a),
    decreases a.len(),
{
    if a.len() > 0 {
        lemma_chars_lt_irrefl(a.drop_first());
    }
}

pub proof fn lemma_chars_lt_trans(a: Seq<char>, b: Seq<char>, c: Seq<char>)
    requires
        chars_lt(a, b),
        chars_lt(b, c),
    ensures
        chars_lt(a, c),
    decreases a.len(),
{
    if a.len() > 0 && b.len() > 0 && c.len() > 0 {
        if a[0] == b[0] && b[0] == c[0] {
            lemma_chars_lt_trans(a.drop_first(), b.drop_first(), c.drop_first());
        }
    }
}

pub proof fn lemma_chars_lt_total(a: Seq<char>, b: Seq<char>)
    ensures
        chars_lt(a, b) || chars_lt(b, a) || a == b,
    decreases a.len(),
{
    if a.len() > 0 && b.len() > 0 {
        if a[0] == b[0] {
            lemma_chars_lt_total(a.drop_first(), b.drop_first());
            if a.drop_first() == b.drop_first() {
                assert(a =~= seq![a[0]] + a.drop_first());
                assert(b =~= seq![b[0]] + b.drop_first());
            }
        }
    } else if a.len() == 0 && b.len() == 0 {
        assert(a =~= b);
    }
}

pub proof fn lemma_components_lt_irrefl(a: Seq<(u8, Seq<char>)>)
    ensures
        !components_lt(a, a),
    decreases a.len(),
{
    if a.len() > 0 {
        lemma_components_lt_irrefl(a.drop_first());
    }
}

pub proof fn lemma_components_lt_trans(a: Seq<(u8, Seq<char>)>, b: Seq<(u8, Seq<char>)>, c: Seq<(u8, Seq<char>)>)
    requires
        components_lt(a, b),
        components_lt(b, c),
    ensures
        components_lt(a, c),
    decreases a.len(),
{
    if a.len() > 0 && b.len() > 0 && c.len() > 0 {
        if a[0] == b[0] && b[0] == c[0] {
            lemma_components_lt_trans(a.drop_first(), b.drop_first(), c.drop_first());
        } else if a[0] != b[0] && b[0] != c[0] {
            if a[0].0 == b[0].0 && b[0].0 == c[0].0 {
                lemma_chars_lt_trans(a[0].1, b[0].1, c[0].1);
            }
            if a[0] == c[0] {
                if a[0].0 == b[0].0 {
                    lemma_chars_lt_trans(a[0].1, b[0].1, a[0].1);
                    lemma_chars_lt_irrefl(a[0].1);
                }
            }
        }
    }
}

pub proof fn lemma_components_lt_total(a: Seq<(u8, Seq<char>)>, b: Seq<(u8, Seq<char>)>)
    ensures
        components_lt(a, b) || components_lt(b, a) || a == b,
    decreases a.len(),
{
    if a.len() > 0 && b.len() > 0 {
        if a[0] == b[0] {
            lemma_components_lt_total(a.drop_first(), b.drop_first());
            if a.drop_first() == b.drop_first() {
                assert(a =~= seq![a[0]] + a.drop_first());
                assert(b =~= seq![b[0]] + b.drop_first());
            }
        } else {
            lemma_chars_lt_total(a[0].1, b[0].1);
        }
    } else if a.len() == 0 && b.len() == 0 {
        assert(a =~= b);
    }
}

/// One component of a path.
pub struct Component {
    pub kind: u8,
    pub text: Vec<char>,
}

/// The value a component stands for.
pub open spec fn component_view(c: Component) -> (u8, Seq<char>) {
    (c.kind, c.text@)
}

/// The values a vector of components stands for.
pub open spec fn components_view(v: Seq<Component>) -> Seq<(u8, Seq<char>)> {
    v.map_values(|c: Component| component_view(c))
}

fn segment_is_dot(s: &Vec<char>) -> (r: bool)
    ensures
        r == (s@ == dot()),
{
    if s.len() == 1 && s[0] == '.' {
        assert(s@ =~= dot());
        true
    } else {
        false
    }
}

fn segment_is_dot_dot(s: &Vec<char>) -> (r: bool)
    ensures
        r == (s@ == dot_dot()),
{
    if s.len() == 2 && s[0] == '.' && s[1] == '.' {
        assert(s@ =~= dot_dot());
        true
    } else {
        false
    }
}

fn push_segment(out: &mut Vec<Component>, seg: Vec<char>)
    ensures
        components_view(final(out)@) == (if seg@.len() == 0 || seg@ == dot() {
            components_view(old(out)@)
        } else {
            components_view(old(out)@).push(segment_component(seg@))
        }),
{
    if seg.len() == 0 || segment_is_dot(&seg) {
        return;
    }
    let ghost old_view = components_view(out@);
    if segment_is_dot_dot(&seg) {
        out.push(Component { kind: KIND_PARENT, text: Vec::new() });
    } else {
        out.push(Component { kind: KIND_NORMAL, text: seg });
    }
    proof {
        assert(components_view(out@) =~= old_view.push(segment_component(seg@)));
    }
}

/// Splits a path into its components.
pub fn components(p: &str) -> (r: Vec<Component>)
    ensures
        components_view(r@) == path_components(p@),
{
    let chars = to_chars(p);
    let mut out: Vec<Component> = Vec::new();
    let mut cur: Vec<char> = Vec::new();
    let mut first_done = false;
    let mut first_seg: Vec<char> = Vec::new();
    let mut i: usize = 0;
    // `done` is the segments before `cur`; the invariant relates them to `split_slash`.
    let ghost mut done: Seq<Seq<char>> = Seq::empty();
    while i < chars.len()
        invariant
            i <= chars.len(),
            chars@ == p@,
            split_slash(chars@.subrange(0, i as int)) == done.push(cur@),
            components_view(out@) == segment_components(done),
            first_done == (done.len() > 0),
            first_done ==> first_seg@ == done[0],
        decreases chars.len() - i,
    {
        let c = chars[i];
        proof {
            assert(chars@.subrange(0, i as int + 1).drop_last() =~= chars@.subrange(0, i as int));
        }
        if c == '/' {
            let seg = cur;
            cur = Vec::new();
            if !first_done {
                first_seg = seg.clone();
                proof {
                    assert(first_seg@ == seg@);
                }
                first_done = true;
            }
            proof {
                assert(split_slash(chars@.subrange(0, i as int + 1)) =~= done.push(seg@).push(cur@));
                assert(done.push(seg@).drop_last() =~= done);
            }
            push_segment(&mut out, seg);
            proof {
                done = done.push(seg@);
            }
        } else {
            cur.push(c);
            proof {
                let s = split_slash(chars@.subrange(0, i as int));
                assert(split_slash(chars@.subrange(0, i as int + 1)) =~= done.push(cur@));
            }
        }
        i = i + 1;
    }
    proof {
        assert(chars@.subrange(0, chars@.len() as int) =~= chars@);
        assert(done.push(cur@).drop_last() =~= done);
    }
    let ghost segs = done.push(cur@);
    let last_is_first = !first_done;
    let lead_is_dot = if first_done { segment_is_dot(&first_seg) } else { segment_is_dot(&cur) };
    proof {
        assert(segs[0] == (if first_done { first_seg@ } else { cur@ }));
        assert(lead_is_dot == (segs[0] == dot()));
    }
    push_segment(&mut out, cur);
    let mut result: Vec<Component> = Vec::new();
    if chars.len() > 0 && chars[0] == '/' {
        result.push(Component { kind: KIND_ROOT, text: Vec::new() });
    } else if lead_is_dot {
        result.push(Component { kind: KIND_CUR, text: Vec::new() });
    }
    let ghost lead = components_view(result@);
    let ghost tail = components_view(out@);
    result.append(&mut out);
    proof {
        assert(components_view(result@) =~= lead + tail);
        assert(lead + tail == path_components(p@));
    }
    result
}

fn chars_less(a: &Vec<char>, b: &Vec<char>) -> (r: bool)
    ensures
        r == chars_lt(a@, b@),
{
    let mut i: usize = 0;
    proof {
        assert(a@.subrange(0, a@.len() as int) =~= a@);
        assert(b@.subrange(0, b@.len() as int) =~= b@);
    }
    while i < a.len() && i < b.len()
        invariant
            i <= a.len(),
            i <= b.len(),
            chars_lt(a@, b@) == chars_lt(a@.subrange(i as int, a@.len() as int), b@.subrange(i as int, b@.len() as int)),
        decreases a.len() - i,
    {
        let ghost sa = a@.subrange(i as int, a@.len() as int);
        let ghost sb = b@.subrange(i as int, b@.len() as int);
        proof {
            assert(sa.drop_first() =~= a@.subrange(i as int + 1, a@.len() as int));
            assert(sb.drop_first() =~= b@.subrange(i as int + 1, b@.len() as int));
            assert(sa[0] == a@[i as int]);
            assert(sb[0] == b@[i as int]);
        }
        if a[i] != b[i] {
            return a[i] < b[i];
        }
        i = i + 1;
    }
    let ghost sa = a@.subrange(i as int, a@.len() as int);
    let ghost sb = b@.subrange(i as int, b@.len() as int);
    i < b.len() && i == a.len()
}

/// Whether component sequence `a` sorts before `b`.
pub fn components_less(a: &Vec<Component>, b: &Vec<Component>) -> (r: bool)
    ensures
        r == components_lt(components_view(a@), components_view(b@)),
{
    let ghost va = components_view(a@);
    let ghost vb = components_view(b@);
    let mut i: usize = 0;
    proof {
        assert(va.subrange(0, va.len() as int) =~= va);
        assert(vb.subrange(0, vb.len() as int) =~= vb);
    }
    while i < a.len() && i < b.len()
        invariant
            i <= a.len(),
            i <= b.len(),
            va == components_view(a@),
            vb == components_view(b@),
            components_lt(va, vb) == components_lt(va.subrange(i as int, va.len() as int), vb.subrange(i as int, vb.len() as int)),
        decreases a.len() - i,
    {
        let ghost sa = va.subrange(i as int, va.len() as int);
        let ghost sb = vb.subrange(i as int, vb.len() as int);
        proof {
            assert(sa.drop_first() =~= va.subrange(i as int + 1, va.len() as int));
            assert(sb.drop_first() =~= vb.subrange(i as int + 1, vb.len() as int));
            assert(sa[0] == component_view(a@[i as int]));
            assert(sb[0] == component_view(b@[i as int]));
        }
        let same_text = crate::text::chars_eq(a[i].text.as_slice(), b[i].text.as_slice());
        if a[i].kind != b[i].kind || !same_text {
            if a[i].kind != b[i].kind {
                return a[i].kind < b[i].kind;
            }
            return chars_less(&a[i].text, &b[i].text);
        }
        i = i + 1;
    }
    i < b.len() && i == a.len()
}

/// Whether the components of two paths are equal.
pub fn components_equal(a: &Vec<Component>, b: &Vec<Component>) -> (r: bool)
    ensures
        r == (components_view(a@) == components_view(b@)),
{
    proof {
        lemma_components_lt_total(components_view(a@), components_view(b@));
        lemma_components_lt_irrefl(components_view(a@));
    }
    !components_less(a, b) && !components_less(b, a)
}

/// Whether path `a` sorts before path `b`.
pub fn path_less(a: &str, b: &str) -> (r: bool)
    ensures
        r == path_lt(a@, b@),
{
    let ca = components(a);
    let cb = components(b);
    components_less(&ca, &cb)
}

/// Whether paths `a` and `b` name the same file.
pub fn path_eq(a: &str, b: &str) -> (r: bool)
    ensures
        r == path_same(a@, b@),
{
    let ca = components(a);
    let cb = components(b);
    components_equal(&ca, &cb)
}

} // verus!
