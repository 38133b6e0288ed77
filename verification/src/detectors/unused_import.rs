//! Reports imported names that the module never mentions after importing them.
use vstd::prelude::*;
use crate::ast::{AssignableKind, ElementAccess, Expr, ExprKind, Ident, ItemKind, Pattern, PatternKind, PatternStructField,
    StatementKind, UseTree};
use crate::detectors::{gather, lemma_gather_step, finding, findings_view, FindingView, Finding};
use crate::report::Severity;
use crate::text::{push_str, str_eq, copy_string, strings_view};
use crate::walk::Event;

verus! {

/// The names an expression mentions through the first segment of its paths, in every
/// subexpression (a segment with generic arguments names nothing).
pub open spec fn expr_mentions(e: Expr) -> Seq<Seq<char>>
    decreases e,
{
    (match e.kind {
        ExprKind::Path(p) => if p.prefix.generics is None { seq![p.prefix.name.span.text@] } else { Seq::empty() },
        _ => Seq::empty(),
    }) + match e.kind {
        ExprKind::Struct { fields, .. } => fields_mentions(fields@),
        ExprKind::Tuple(items) => exprs_mentions(items@),
        ExprKind::Array(items) => exprs_mentions(items@),
        ExprKind::ArrayRepeat { value, length } => expr_mentions(*value) + expr_mentions(*length),
        ExprKind::If(ifx) => match ifx.condition {
            crate::ast::IfCondition::Expr(c) => expr_mentions(*c),
            crate::ast::IfCondition::Let { rhs, .. } => expr_mentions(*rhs),
        },
        ExprKind::FuncApp { func, args, .. } => expr_mentions(*func) + exprs_mentions(args@),
        ExprKind::Index { target, arg } => expr_mentions(*target) + expr_mentions(*arg),
        ExprKind::MethodCall { target, contract_args, args, .. } => expr_mentions(*target)
            + contract_args_mentions(contract_args@) + exprs_mentions(args@),
        ExprKind::AbiCast { address, .. } => expr_mentions(*address),
        ExprKind::Parens(x) => expr_mentions(*x),
        ExprKind::Return(Some(x)) => expr_mentions(*x),
        ExprKind::Match { value, .. } => expr_mentions(*value),
        ExprKind::While { condition, .. } => expr_mentions(*condition),
        ExprKind::FieldProjection { target, .. } => expr_mentions(*target),
        ExprKind::TupleFieldProjection { target, .. } => expr_mentions(*target),
        ExprKind::Ref(x) => expr_mentions(*x),
        ExprKind::Deref(x) => expr_mentions(*x),
        ExprKind::Not(x) => expr_mentions(*x),
        ExprKind::Binary { lhs, rhs, .. } => expr_mentions(*lhs) + expr_mentions(*rhs),
        ExprKind::Reassignment { assignable, value, .. } => match assignable.kind {
            AssignableKind::ElementAccess(ElementAccess::Index { arg, .. }) => expr_mentions(*arg) + expr_mentions(*value),
            _ => expr_mentions(*value),
        },
        _ => Seq::empty(),
    }
}

/// The names expressions mention.
pub open spec fn exprs_mentions(s: Seq<Expr>) -> Seq<Seq<char>>
    decreases s,
{
    if s.len() == 0 { Seq::empty() } else { exprs_mentions(s.drop_last()) + expr_mentions(s.last()) }
}

/// The names the values of struct fields mention.
pub open spec fn fields_mentions(s: Seq<crate::ast::ExprStructField>) -> Seq<Seq<char>>
    decreases s,
{
    if s.len() == 0 {
        Seq::empty()
    } else {
        fields_mentions(s.drop_last()) + match s.last().value {
            Some(v) => expr_mentions(*v),
            None => Seq::empty(),
        }
    }
}

/// The names the values of contract arguments mention.
pub open spec fn contract_args_mentions(s: Seq<crate::ast::ContractArg>) -> Seq<Seq<char>>
    decreases s,
{
    if s.len() == 0 {
        Seq::empty()
    } else {
        contract_args_mentions(s.drop_last()) + match s.last().value {
            Some(v) => expr_mentions(*v),
            None => Seq::empty(),
        }
    }
}

/// The names a pattern mentions: the paths of its constructor and struct patterns.
pub open spec fn pattern_mentions(p: Pattern) -> Seq<Seq<char>>
    decreases p,
{
    match p.kind {
        PatternKind::Or { lhs, rhs } => pattern_mentions(*lhs) + pattern_mentions(*rhs),
        PatternKind::Constructor { path, args } => seq![path.span.text@] + patterns_mentions(args@),
        PatternKind::Struct { path, fields } => seq![path.span.text@] + pattern_fields_mentions(fields@),
        PatternKind::Tuple(items) => patterns_mentions(items@),
        _ => Seq::empty(),
    }
}

/// The names patterns mention.
pub open spec fn patterns_mentions(s: Seq<Pattern>) -> Seq<Seq<char>>
    decreases s,
{
    if s.len() == 0 { Seq::empty() } else { patterns_mentions(s.drop_last()) + pattern_mentions(s.last()) }
}

/// The names the fields of a struct pattern mention.
pub open spec fn pattern_fields_mentions(s: Seq<PatternStructField>) -> Seq<Seq<char>>
    decreases s,
{
    if s.len() == 0 {
        Seq::empty()
    } else {
        pattern_fields_mentions(s.drop_last()) + match s.last() {
            PatternStructField::Field { pattern: Some(p), .. } => pattern_mentions(*p),
            _ => Seq::empty(),
        }
    }
}

/// The names the arguments of a function mention: in their patterns and their types.
pub open spec fn args_mentions(s: Seq<crate::ast::FnArg>) -> Seq<Seq<char>>
    decreases s.len(),
{
    if s.len() == 0 {
        Seq::empty()
    } else {
        args_mentions(s.drop_last()) + pattern_mentions(s.last().pattern) + seq![s.last().ty.span.text@]
    }
}

/// The names one event mentions.
pub open spec fn event_mentions<'a>(ev: Event<'a>) -> Seq<Seq<char>> {
    match ev {
        Event::Fn(_, f) => args_mentions(f.fn_signature.args@),
        Event::Statement(_, s) => match s.kind {
            StatementKind::Let(l) => pattern_mentions(l.pattern) + match l.ty {
                Some(t) => seq![t.span.text@],
                None => Seq::empty(),
            } + expr_mentions(l.expr),
            StatementKind::Item(it) => match it.kind {
                ItemKind::Const(k) => (match k.ty {
                    Some(t) => seq![t.span.text@],
                    None => Seq::empty(),
                }) + (match k.expr {
                    Some(x) => expr_mentions(x),
                    None => Seq::empty(),
                }),
                _ => Seq::empty(),
            },
            _ => Seq::empty(),
        },
        Event::Expr(_, e) => expr_mentions(*e),
        Event::ConfigurableField(_, fld) => seq![fld.ty.span.text@] + expr_mentions(fld.initializer),
        _ => Seq::empty(),
    }
}

/// The leading plain names of a group of imports, up to the first that is not one.
pub open spec fn leading_names(s: Seq<UseTree>) -> Seq<Ident>
    decreases s.len(),
{
    if s.len() == 0 {
        Seq::empty()
    } else {
        match s[0] {
            UseTree::Name(n) => seq![n] + leading_names(s.drop_first()),
            _ => Seq::empty(),
        }
    }
}

/// The names a `use a::b::...` item imports: a plain name, or the leading plain names of a group.
pub open spec fn use_registrations(t: UseTree) -> Seq<Ident> {
    match t {
        UseTree::Path { suffix, .. } => match *suffix {
            UseTree::Path { suffix: s2, .. } => match *s2 {
                UseTree::Group(imports) => leading_names(imports@),
                UseTree::Name(n) => seq![n],
                _ => Seq::empty(),
            },
            _ => Seq::empty(),
        },
        _ => Seq::empty(),
    }
}

/// An imported name, the offset of its latest import, and whether it was mentioned since.
pub type ImportState = Seq<(Seq<char>, int, bool)>;

/// The position of the entry with the given name.
pub open spec fn import_index(st: ImportState, n: Seq<char>) -> Option<int>
    decreases st.len(),
{
    if st.len() == 0 {
        None
    } else if st.last().0 == n {
        Some(st.len() - 1)
    } else {
        import_index(st.drop_last(), n)
    }
}

/// Importing a name (again) makes it unmentioned.
pub open spec fn register(st: ImportState, n: Ident) -> ImportState {
    match import_index(st, n.span.text@) {
        Some(k) => st.update(k, (n.span.text@, n.span.start as int, false)),
        None => st.push((n.span.text@, n.span.start as int, false)),
    }
}

/// Mentioning a name marks it.
pub open spec fn mention(st: ImportState, n: Seq<char>) -> ImportState {
    match import_index(st, n) {
        Some(k) => st.update(k, (st[k].0, st[k].1, true)),
        None => st,
    }
}

/// Registering names in turn.
pub open spec fn register_all(st: ImportState, s: Seq<Ident>) -> ImportState
    decreases s.len(),
{
    if s.len() == 0 { st } else { register(register_all(st, s.drop_last()), s.last()) }
}

/// Mentioning names in turn.
pub open spec fn mention_all(st: ImportState, s: Seq<Seq<char>>) -> ImportState
    decreases s.len(),
{
    if s.len() == 0 { st } else { mention(mention_all(st, s.drop_last()), s.last()) }
}

/// The imports after the given events.
pub open spec fn import_state<'a>(evs: Seq<Event<'a>>) -> ImportState
    decreases evs.len(),
{
    if evs.len() == 0 {
        Seq::empty()
    } else {
        let st = import_state(evs.drop_last());
        match evs.last() {
            Event::Use(_, u) => register_all(st, use_registrations(u.tree)),
            ev => mention_all(st, event_mentions(ev)),
        }
    }
}

/// The findings for the imports never mentioned since their latest import, reported at the end
/// of the module (position `n`), in the order the names were first imported.
pub open spec fn unused_findings(n: int, st: ImportState) -> Seq<FindingView>
    decreases st.len(),
{
    if st.len() == 0 {
        Seq::empty()
    } else {
        unused_findings(n, st.drop_last()) + if !st.last().2 {
            finding(n, st.last().1, Severity::Low, "Found unused import: `"@ + st.last().0
                + "`. Consider removing any unused imports."@)
        } else {
            Seq::empty()
        }
    }
}

/// What the detector reports for a module with the given events.
pub open spec fn unused_import_findings<'a>(evs: Seq<Event<'a>>) -> Seq<FindingView> {
    unused_findings(evs.len() as int, import_state(evs))
}

/// The value of the exec state of imports.
pub open spec fn state_view(v: Seq<(String, usize, bool)>) -> ImportState {
    v.map_values(|x: (String, usize, bool)| (x.0@, x.1 as int, x.2))
}

fn import_index_exec(st: &Vec<(String, usize, bool)>, n: &str) -> (r: Option<usize>)
    ensures
        match r {
            Some(k) => import_index(state_view(st@), n@) == Some(k as int),
            None => import_index(state_view(st@), n@) is None,
        },
{
    let ghost sv = state_view(st@);
    let mut k: usize = st.len();
    proof {
        assert(sv.take(k as int) =~= sv);
    }
    while k > 0
        invariant
            k <= st@.len(),
            sv == state_view(st@),
            import_index(sv, n@) == import_index(sv.take(k as int), n@),
        decreases k,
    {
        proof {
            assert(sv.take(k as int).last() == sv[k - 1]);
            assert(sv.take(k as int).drop_last() =~= sv.take(k - 1));
        }
        if str_eq(st[k - 1].0.as_str(), n) {
            return Some(k - 1);
        }
        k = k - 1;
    }
    None
}

fn register_exec(st: &mut Vec<(String, usize, bool)>, n: &Ident)
    ensures
        state_view(final(st)@) == register(state_view(old(st)@), *n),
{
    let ghost sv = state_view(st@);
    match import_index_exec(st, n.span.text.as_str()) {
        Some(k) => {
            proof {
                lemma_import_index_bound(sv, n.span.text@);
            }
            st.set(k, (copy_string(n.span.text.as_str()), n.span.start, false));
            proof {
                assert(state_view(st@) =~= sv.update(k as int, (n.span.text@, n.span.start as int, false)));
                assert(import_index(sv, n.span.text@) == Some(k as int));
            }
        },
        None => {
            st.push((copy_string(n.span.text.as_str()), n.span.start, false));
            proof {
                assert(state_view(st@) =~= sv.push((n.span.text@, n.span.start as int, false)));
                assert(import_index(sv, n.span.text@) is None);
            }
        },
    }
}

proof fn lemma_import_index_bound(st: ImportState, n: Seq<char>)
    ensures
        match import_index(st, n) {
            Some(k) => 0 <= k < st.len() && st[k].0 == n,
            None => true,
        },
    decreases st.len(),
{
    if st.len() > 0 && st.last().0 != n {
        lemma_import_index_bound(st.drop_last(), n);
    }
}

fn mention_exec(st: &mut Vec<(String, usize, bool)>, n: &str)
    ensures
        state_view(final(st)@) == mention(state_view(old(st)@), n@),
{
    let ghost sv = state_view(st@);
    let found = import_index_exec(st, n);
    proof {
        lemma_import_index_bound(sv, n@);
    }
    match found {
        Some(k) => {
            let name = copy_string(st[k].0.as_str());

            let start = st[k].1;
            st.set(k, (name, start, true));
            proof {
                assert(state_view(st@) =~= sv.update(k as int, (sv[k as int].0, sv[k as int].1, true)));
            }
        },
        None => {
            proof {
                assert(import_index(sv, n@) is None);
            }
        },
    }
}

fn mention_all_exec(st: &mut Vec<(String, usize, bool)>, names: &Vec<String>)
    ensures
        state_view(final(st)@) == mention_all(state_view(old(st)@), strings_view(names@)),
{
    let ghost start = state_view(st@);
    let ghost nv = strings_view(names@);
    let mut k: usize = 0;
    while k < names.len()
        invariant
            k <= names@.len(),
            nv == strings_view(names@),
            state_view(st@) == mention_all(start, nv.take(k as int)),
        decreases names@.len() - k,
    {
        proof {
            assert(nv.take(k + 1).drop_last() =~= nv.take(k as int));
        }
        mention_exec(st, names[k].as_str());
        k = k + 1;
    }
    proof {
        assert(nv.take(k as int) =~= nv);
    }
}

fn push_name(out: &mut Vec<String>, s: &str)
    ensures
        strings_view(final(out)@) == strings_view(old(out)@).push(s@),
{
    let ghost b = strings_view(out@);
    out.push(copy_string(s));
    proof {
        assert(strings_view(out@) =~= b.push(s@));
    }
}

#[verifier::rlimit(30)]
fn expr_mentions_exec(e: &Expr, out: &mut Vec<String>)
    ensures
        strings_view(final(out)@) == strings_view(old(out)@) + expr_mentions(*e),
    decreases e,
{
    let ghost start = strings_view(out@);
    match &e.kind {
        ExprKind::Path(p) => if p.prefix.generics.is_none() {
            push_name(out, p.prefix.name.span.text.as_str());
        },
        _ => {},
    }
    match &e.kind {
        ExprKind::Struct { fields, .. } => fields_mentions_exec(fields, out),
        ExprKind::Tuple(items) => exprs_mentions_exec(items, out),
        ExprKind::Array(items) => exprs_mentions_exec(items, out),
        ExprKind::ArrayRepeat { value, length } => {
            expr_mentions_exec(value, out);
            expr_mentions_exec(length, out);
        },
        ExprKind::If(ifx) => match &ifx.condition {
            crate::ast::IfCondition::Expr(c) => expr_mentions_exec(c, out),
            crate::ast::IfCondition::Let { rhs, .. } => expr_mentions_exec(rhs, out),
        },
        ExprKind::FuncApp { func, args, .. } => {
            expr_mentions_exec(func, out);
            exprs_mentions_exec(args, out);
        },
        ExprKind::Index { target, arg } => {
            expr_mentions_exec(target, out);
            expr_mentions_exec(arg, out);
        },
        ExprKind::MethodCall { target, contract_args, args, .. } => {
            expr_mentions_exec(target, out);
            contract_args_mentions_exec(contract_args, out);
            exprs_mentions_exec(args, out);
        },
        ExprKind::AbiCast { address, .. } => expr_mentions_exec(address, out),
        ExprKind::Parens(x) => expr_mentions_exec(x, out),
        ExprKind::Return(Some(x)) => expr_mentions_exec(x, out),
        ExprKind::Match { value, .. } => expr_mentions_exec(value, out),
        ExprKind::While { condition, .. } => expr_mentions_exec(condition, out),
        ExprKind::FieldProjection { target, .. } => expr_mentions_exec(target, out),
        ExprKind::TupleFieldProjection { target, .. } => expr_mentions_exec(target, out),
        ExprKind::Ref(x) => expr_mentions_exec(x, out),
        ExprKind::Deref(x) => expr_mentions_exec(x, out),
        ExprKind::Not(x) => expr_mentions_exec(x, out),
        ExprKind::Binary { lhs, rhs, .. } => {
            expr_mentions_exec(lhs, out);
            expr_mentions_exec(rhs, out);
        },
        ExprKind::Reassignment { assignable, value, .. } => {
            match &assignable.kind {
                AssignableKind::ElementAccess(ElementAccess::Index { arg, .. }) => expr_mentions_exec(arg, out),
                _ => {},
            }
            expr_mentions_exec(value, out);
        },
        _ => {},
    }
    proof {
        assert(strings_view(out@) =~= start + expr_mentions(*e));
    }
}

fn exprs_mentions_exec(items: &Vec<Expr>, out: &mut Vec<String>)
    ensures
        strings_view(final(out)@) == strings_view(old(out)@) + exprs_mentions(items@),
    decreases items@,
{
    let ghost start = strings_view(out@);
    let mut k: usize = 0;
    while k < items.len()
        invariant
            k <= items@.len(),
            strings_view(out@) == start + exprs_mentions(items@.take(k as int)),
        decreases items@.len() - k,
    {
        proof {
            assert(items@.take(k + 1).drop_last() =~= items@.take(k as int));
            assert(decreases_to!(items@ => items@[k as int]));
        }
        expr_mentions_exec(&items[k], out);
        proof {
            assert(strings_view(out@) =~= start + exprs_mentions(items@.take(k + 1)));
        }
        k = k + 1;
    }
    proof {
        assert(items@.take(k as int) =~= items@);
    }
}

fn fields_mentions_exec(items: &Vec<crate::ast::ExprStructField>, out: &mut Vec<String>)
    ensures
        strings_view(final(out)@) == strings_view(old(out)@) + fields_mentions(items@),
    decreases items@,
{
    let ghost start = strings_view(out@);
    let mut k: usize = 0;
    while k < items.len()
        invariant
            k <= items@.len(),
            strings_view(out@) == start + fields_mentions(items@.take(k as int)),
        decreases items@.len() - k,
    {
        proof {
            assert(items@.take(k + 1).drop_last() =~= items@.take(k as int));
            assert(decreases_to!(items@ => items@[k as int]));
        }
        match &items[k].value {
            Some(v) => expr_mentions_exec(v, out),
            None => {},
        }
        proof {
            assert(strings_view(out@) =~= start + fields_mentions(items@.take(k + 1)));
        }
        k = k + 1;
    }
    proof {
        assert(items@.take(k as int) =~= items@);
    }
}

fn contract_args_mentions_exec(items: &Vec<crate::ast::ContractArg>, out: &mut Vec<String>)
    ensures
        strings_view(final(out)@) == strings_view(old(out)@) + contract_args_mentions(items@),
    decreases items@,
{
    let ghost start = strings_view(out@);
    let mut k: usize = 0;
    while k < items.len()
        invariant
            k <= items@.len(),
            strings_view(out@) == start + contract_args_mentions(items@.take(k as int)),
        decreases items@.len() - k,
    {
        proof {
            assert(items@.take(k + 1).drop_last() =~= items@.take(k as int));
            assert(decreases_to!(items@ => items@[k as int]));
        }
        match &items[k].value {
            Some(v) => expr_mentions_exec(v, out),
            None => {},
        }
        proof {
            assert(strings_view(out@) =~= start + contract_args_mentions(items@.take(k + 1)));
        }
        k = k + 1;
    }
    proof {
        assert(items@.take(k as int) =~= items@);
    }
}

fn pattern_mentions_exec(p: &Pattern, out: &mut Vec<String>)
    ensures
        strings_view(final(out)@) == strings_view(old(out)@) + pattern_mentions(*p),
    decreases p,
{
    let ghost start = strings_view(out@);
    match &p.kind {
        PatternKind::Or { lhs, rhs } => {
            pattern_mentions_exec(lhs, out);
            pattern_mentions_exec(rhs, out);
        },
        PatternKind::Constructor { path, args } => {
            push_name(out, path.span.text.as_str());
            patterns_mentions_exec(args, out);
        },
        PatternKind::Struct { path, fields } => {
            push_name(out, path.span.text.as_str());
            pattern_fields_mentions_exec(fields, out);
        },
        PatternKind::Tuple(items) => patterns_mentions_exec(items, out),
        _ => {},
    }
    proof {
        assert(strings_view(out@) =~= start + pattern_mentions(*p));
    }
}

fn patterns_mentions_exec(items: &Vec<Pattern>, out: &mut Vec<String>)
    ensures
        strings_view(final(out)@) == strings_view(old(out)@) + patterns_mentions(items@),
    decreases items@,
{
    let ghost start = strings_view(out@);
    let mut k: usize = 0;
    while k < items.len()
        invariant
            k <= items@.len(),
            strings_view(out@) == start + patterns_mentions(items@.take(k as int)),
        decreases items@.len() - k,
    {
        proof {
            assert(items@.take(k + 1).drop_last() =~= items@.take(k as int));
            assert(decreases_to!(items@ => items@[k as int]));
        }
        pattern_mentions_exec(&items[k], out);
        proof {
            assert(strings_view(out@) =~= start + patterns_mentions(items@.take(k + 1)));
        }
        k = k + 1;
    }
    proof {
        assert(items@.take(k as int) =~= items@);
    }
}

fn pattern_fields_mentions_exec(items: &Vec<PatternStructField>, out: &mut Vec<String>)
    ensures
        strings_view(final(out)@) == strings_view(old(out)@) + pattern_fields_mentions(items@),
    decreases items@,
{
    let ghost start = strings_view(out@);
    let mut k: usize = 0;
    while k < items.len()
        invariant
            k <= items@.len(),
            strings_view(out@) == start + pattern_fields_mentions(items@.take(k as int)),
        decreases items@.len() - k,
    {
        proof {
            assert(items@.take(k + 1).drop_last() =~= items@.take(k as int));
            assert(decreases_to!(items@ => items@[k as int]));
        }
        match &items[k] {
            PatternStructField::Field { pattern: Some(p), .. } => pattern_mentions_exec(p, out),
            _ => {},
        }
        proof {
            assert(strings_view(out@) =~= start + pattern_fields_mentions(items@.take(k + 1)));
        }
        k = k + 1;
    }
    proof {
        assert(items@.take(k as int) =~= items@);
    }
}

fn event_mentions_exec<'a>(ev: &Event<'a>) -> (r: Vec<String>)
    ensures
        strings_view(r@) == event_mentions(*ev),
{
    let mut out: Vec<String> = Vec::new();
    proof {
        assert(strings_view(out@) =~= Seq::<Seq<char>>::empty());
    }
    match ev {
        Event::Fn(_, f) => {
            let args = &f.fn_signature.args;
            let mut k: usize = 0;
            while k < args.len()
                invariant
                    k <= args@.len(),
                    strings_view(out@) == args_mentions(args@.take(k as int)),
                decreases args@.len() - k,
            {
                proof {
                    assert(args@.take(k + 1).drop_last() =~= args@.take(k as int));
                    assert(args@.take(k + 1).last() == args@[k as int]);
                }
                pattern_mentions_exec(&args[k].pattern, &mut out);
                push_name(&mut out, args[k].ty.span.text.as_str());
                k = k + 1;
            }
            proof {
                assert(args@.take(k as int) =~= args@);
            }
        },
        Event::Statement(_, s) => match &s.kind {
            StatementKind::Let(l) => {
                pattern_mentions_exec(&l.pattern, &mut out);
                match &l.ty {
                    Some(t) => push_name(&mut out, t.span.text.as_str()),
                    None => {},
                }
                expr_mentions_exec(&l.expr, &mut out);
            },
            StatementKind::Item(it) => match &it.kind {
                ItemKind::Const(k) => {
                    match &k.ty {
                        Some(t) => push_name(&mut out, t.span.text.as_str()),
                        None => {},
                    }
                    match &k.expr {
                        Some(x) => expr_mentions_exec(x, &mut out),
                        None => {},
                    }
                },
                _ => {},
            },
            _ => {},
        },
        Event::Expr(_, e) => expr_mentions_exec(e, &mut out),
        Event::ConfigurableField(_, fld) => {
            push_name(&mut out, fld.ty.span.text.as_str());
            expr_mentions_exec(&fld.initializer, &mut out);
        },
        _ => {},
    }
    proof {
        assert(strings_view(out@) =~= event_mentions(*ev));
    }
    out
}

fn register_leading_names(st: &mut Vec<(String, usize, bool)>, imports: &Vec<UseTree>)
    ensures
        state_view(final(st)@) == register_all(state_view(old(st)@), leading_names(imports@)),
{
    let ghost start = state_view(st@);
    let mut k: usize = 0;
    proof {
        assert(imports@.take(0) =~= Seq::<UseTree>::empty());
        assert(imports@.skip(0) =~= imports@);
        assert(leading_names(Seq::<UseTree>::empty()) =~= Seq::<Ident>::empty());
        assert(leading_names(imports@) =~= leading_names(imports@.take(0)) + leading_names(imports@.skip(0)));
    }
    while k < imports.len()
        invariant
            k <= imports@.len(),
            start == state_view(old(st)@),
            leading_names(imports@) == leading_names(imports@.take(k as int)) + leading_names(imports@.skip(k as int)),
            forall|m: int| 0 <= m < k ==> (#[trigger] imports@[m]) is Name,
            state_view(st@) == register_all(start, leading_names(imports@.take(k as int))),
        decreases imports@.len() - k,
    {
        proof {
            lemma_leading_names_split(imports@, k as int);
        }
        match &imports[k] {
            UseTree::Name(n) => {
                let ghost before = leading_names(imports@.take(k as int));
                let ghost sv = state_view(st@);
                register_exec(st, n);
                proof {
                    assert(leading_names(imports@.take(k + 1)) == before.push(*n));
                    assert(before.push(*n).drop_last() =~= before);
                    assert(register_all(start, before.push(*n)) == register(register_all(start, before), *n));
                    if k + 1 < imports@.len() {
                        lemma_leading_names_split(imports@, k + 1);
                    } else {
                        assert(imports@.skip(k + 1) =~= Seq::<UseTree>::empty());
                        assert(imports@.take(k + 1) =~= imports@);
                        assert(leading_names(Seq::<UseTree>::empty()) =~= Seq::<Ident>::empty());
                        assert(leading_names(imports@) =~= leading_names(imports@.take(k + 1)) + leading_names(imports@.skip(k + 1)));
                    }
                }
            },
            _ => {
                proof {
                    assert(imports@.skip(k as int)[0] == imports@[k as int]);
                    assert(imports@.skip(k as int).len() > 0);
                    assert(leading_names(imports@.skip(k as int)) =~= Seq::<Ident>::empty());
                    assert(leading_names(imports@) =~= leading_names(imports@.take(k as int)));
                    assert(state_view(st@) == register_all(start, leading_names(imports@)));
                }
                return;
            },
        }
        k = k + 1;
    }
    proof {
        assert(imports@.take(k as int) =~= imports@);
    }
}

proof fn lemma_leading_names_split(s: Seq<UseTree>, k: int)
    requires
        0 <= k < s.len(),
        forall|m: int| 0 <= m < k ==> (#[trigger] s[m]) is Name,
    ensures
        leading_names(s) == leading_names(s.take(k)) + leading_names(s.skip(k)),
        s[k] is Name ==> leading_names(s.take(k + 1)) == leading_names(s.take(k)).push(s[k]->Name_0),
        s[k] is Name ==> leading_names(s.skip(k)) == seq![s[k]->Name_0] + leading_names(s.skip(k + 1)),
    decreases k,
{
    assert(s.skip(k)[0] == s[k]);
    assert(s.skip(k).drop_first() =~= s.skip(k + 1));
    if k == 0 {
        assert(s.take(0) =~= Seq::<UseTree>::empty());
        assert(s.skip(0) =~= s);
        if s[0] is Name {
            assert(s.take(1).drop_first() =~= Seq::<UseTree>::empty());
        }
    } else {
        lemma_leading_names_split(s.drop_first(), k - 1);
        assert(s.drop_first().take(k - 1) =~= s.take(k).drop_first());
        assert(s.drop_first().skip(k - 1) =~= s.skip(k));
        assert(s.drop_first().take(k) =~= s.take(k + 1).drop_first());
        assert(s.drop_first().skip(k) =~= s.skip(k + 1));
        assert(s.take(k)[0] == s[0]);
        assert(s.take(k + 1)[0] == s[0]);
    }
}

fn register_use(st: &mut Vec<(String, usize, bool)>, t: &UseTree)
    ensures
        state_view(final(st)@) == register_all(state_view(old(st)@), use_registrations(*t)),
{
    match t {
        UseTree::Path { suffix, .. } => match &**suffix {
            UseTree::Path { suffix: s2, .. } => match &**s2 {
                UseTree::Group(imports) => {
                    register_leading_names(st, imports);
                    return;
                },
                UseTree::Name(n) => {
                    let ghost sv = state_view(st@);
                    register_exec(st, n);
                    proof {
                        assert(seq![*n].drop_last() =~= Seq::<Ident>::empty());
                        assert(seq![*n].last() == *n);
                        assert(register_all(sv, Seq::<Ident>::empty()) == sv);
                        assert(register_all(sv, seq![*n]) == register(sv, *n));
                    }
                    return;
                },
                _ => {},
            },
            _ => {},
        },
        _ => {},
    }
}

/// The detector of this module; `detect` runs it over the events of a module.
pub struct UnusedImportVisitor;

impl UnusedImportVisitor {
    /// Reports the unused imports of a module with the given events.
    pub fn detect<'a>(&self, events: &Vec<Event<'a>>) -> (r: Vec<Finding>)
        ensures
            findings_view(r@) == unused_import_findings(events@),
    {
        let mut st: Vec<(String, usize, bool)> = Vec::new();
        let mut i: usize = 0;
        proof {
            assert(state_view(st@) =~= import_state(events@.take(0)));
        }
        while i < events.len()
            invariant
                i <= events@.len(),
                state_view(st@) == import_state(events@.take(i as int)),
            decreases events@.len() - i,
        {
            proof {
                assert(events@.take(i + 1).drop_last() =~= events@.take(i as int));
                assert(events@.take(i + 1).last() == events@[i as int]);
            }
            match &events[i] {
                Event::Use(_, u) => register_use(&mut st, &u.tree),
                ev => {
                    let names = event_mentions_exec(ev);
                    mention_all_exec(&mut st, &names);
                },
            }
            i = i + 1;
        }
        proof {
            assert(events@.take(i as int) =~= events@);
        }
        let n = events.len();
        let ghost sv = state_view(st@);
        let mut r: Vec<Finding> = Vec::new();
        let mut k: usize = 0;
        while k < st.len()
            invariant
                k <= st@.len(),
                n == events@.len(),
                sv == state_view(st@),
                findings_view(r@) == unused_findings(n as int, sv.take(k as int)),
            decreases st@.len() - k,
        {
            proof {
                assert(sv.take(k + 1).drop_last() =~= sv.take(k as int));
                assert(sv.take(k + 1).last() == sv[k as int]);
            }
            let ghost before = findings_view(r@);
            if !st[k].2 {
                let mut text = String::new();
                push_str(&mut text, "Found unused import: `");
                push_str(&mut text, st[k].0.as_str());
                push_str(&mut text, "`. Consider removing any unused imports.");
                r.push(Finding { event: n, start: st[k].1, severity: Severity::Low, text, reference: None });
                proof {
                    assert(findings_view(r@) =~= before + finding(n as int, sv[k as int].1, Severity::Low,
                        "Found unused import: `"@ + sv[k as int].0 + "`. Consider removing any unused imports."@));
                }
            }
            proof {
                assert(findings_view(r@) =~= unused_findings(n as int, sv.take(k + 1)));
            }
            k = k + 1;
        }
        proof {
            assert(sv.take(k as int) =~= sv);
        }
        r
    }
}

} // verus!
