//! Helpers that read the syntax tree.
use vstd::prelude::*;
use crate::ast::{
    Assignable, AssignableKind, AttributeDecl, Attribute, BinaryOp, Block, ElementAccess, Expr, ExprKind, Ident, IfCondition,
    IfExpr, Item, ItemKind, LiteralKind, AnnotatedField, Pattern, PatternKind, PatternStructField, PathExpr, PathExprSegment,
    Statement, StatementKind, StorageField, UseTree, Module,
};
use crate::text::{str_eq, copy_string, strings_view, push_str, split_sep, split_str, lemma_split_sep_nonempty};

verus! {

/// The identifiers a sequence of references points to.
pub open spec fn derefs<'a>(v: Seq<&'a Ident>) -> Seq<Ident> {
    v.map_values(|x: &'a Ident| *x)
}

/// The text of an identifier.
pub open spec fn name(i: Ident) -> Seq<char> {
    i.span.text@
}

/// The names of a path: its prefix followed by its suffix segments.
pub open spec fn path_idents(p: PathExpr) -> Seq<Ident> {
    seq![p.prefix.name] + p.suffix@.map_values(|s: PathExprSegment| s.name)
}

/// The names of a path.
pub fn fold_path_idents<'a>(path: &'a PathExpr) -> (r: Vec<&'a Ident>)
    ensures
        derefs(r@) == path_idents(*path),
{
    let mut result: Vec<&'a Ident> = Vec::new();
    result.push(&path.prefix.name);
    let mut i: usize = 0;
    while i < path.suffix.len()
        invariant
            i <= path.suffix@.len(),
            derefs(result@) == seq![path.prefix.name] + path.suffix@.subrange(0, i as int).map_values(|s: PathExprSegment| s.name),
        decreases path.suffix@.len() - i,
    {
        let ghost before = derefs(result@);
        result.push(&path.suffix[i].name);
        proof {
            assert(derefs(result@) =~= before.push(path.suffix@[i as int].name));
            assert(derefs(result@) =~= seq![path.prefix.name] + path.suffix@.subrange(0, i as int + 1).map_values(|s: PathExprSegment| s.name));
        }
        i = i + 1;
    }
    proof {
        assert(path.suffix@.subrange(0, path.suffix@.len() as int) =~= path.suffix@);
    }
    result
}

/// The names along a path-like expression: paths, indexing, method calls and field projections.
pub open spec fn expr_idents(e: Expr) -> Seq<Ident>
    decreases e,
{
    match e.kind {
        ExprKind::Path(p) => path_idents(p),
        ExprKind::Index { target, .. } => expr_idents(*target),
        ExprKind::MethodCall { target, name, .. } => expr_idents(*target).push(name),
        ExprKind::FieldProjection { target, name } => expr_idents(*target).push(name),
        ExprKind::TupleFieldProjection { target, .. } => expr_idents(*target),
        _ => Seq::empty(),
    }
}

/// The names along a path-like expression.
pub fn fold_expr_idents<'a>(e: &'a Expr) -> (r: Vec<&'a Ident>)
    ensures
        derefs(r@) == expr_idents(*e),
    decreases e,
{
    match &e.kind {
        ExprKind::Path(p) => fold_path_idents(p),
        ExprKind::Index { target, .. } => fold_expr_idents(target),
        ExprKind::MethodCall { target, name, .. } => {
            let mut r = fold_expr_idents(target);
            let ghost before = derefs(r@);
            r.push(name);
            proof {
                assert(derefs(r@) =~= before.push(*name));
            }
            r
        },
        ExprKind::FieldProjection { target, name } => {
            let mut r = fold_expr_idents(target);
            let ghost before = derefs(r@);
            r.push(name);
            proof {
                assert(derefs(r@) =~= before.push(*name));
            }
            r
        },
        ExprKind::TupleFieldProjection { target, .. } => fold_expr_idents(target),
        _ => {
            let r: Vec<&'a Ident> = Vec::new();
            proof {
                assert(derefs(r@) =~= Seq::<Ident>::empty());
            }
            r
        },
    }
}

/// The names along an element access.
pub open spec fn element_access_idents(a: ElementAccess) -> Seq<Ident>
    decreases a,
{
    match a {
        ElementAccess::Var(i) => seq![i],
        ElementAccess::Index { target, .. } => element_access_idents(*target),
        ElementAccess::FieldProjection { target, name } => element_access_idents(*target).push(name),
        ElementAccess::TupleFieldProjection { target, .. } => element_access_idents(*target),
        ElementAccess::Deref { target } => element_access_idents(*target),
    }
}

/// The names along an element access.
pub fn fold_element_access_idents<'a>(a: &'a ElementAccess) -> (r: Vec<&'a Ident>)
    ensures
        derefs(r@) == element_access_idents(*a),
    decreases a,
{
    match a {
        ElementAccess::Var(i) => {
            let mut r: Vec<&'a Ident> = Vec::new();
            r.push(i);
            proof {
                assert(derefs(r@) =~= seq![*i]);
            }
            r
        },
        ElementAccess::Index { target, .. } => fold_element_access_idents(target),
        ElementAccess::FieldProjection { target, name } => {
            let mut r = fold_element_access_idents(target);
            let ghost before = derefs(r@);
            r.push(name);
            proof {
                assert(derefs(r@) =~= before.push(*name));
            }
            r
        },
        ElementAccess::TupleFieldProjection { target, .. } => fold_element_access_idents(target),
        ElementAccess::Deref { target } => fold_element_access_idents(target),
    }
}

/// The names along the target of a reassignment.
pub open spec fn assignable_idents(a: Assignable) -> Seq<Ident> {
    match a.kind {
        AssignableKind::ElementAccess(x) => element_access_idents(x),
        AssignableKind::Deref(e) => expr_idents(*e),
    }
}

/// The names along the target of a reassignment.
pub fn fold_assignable_idents<'a>(a: &'a Assignable) -> (r: Vec<&'a Ident>)
    ensures
        derefs(r@) == assignable_idents(*a),
{
    match &a.kind {
        AssignableKind::ElementAccess(x) => fold_element_access_idents(x),
        AssignableKind::Deref(e) => fold_expr_idents(e),
    }
}

/// The names a pattern binds or refers to (constructor and struct names excluded).
pub open spec fn pattern_idents(p: Pattern) -> Seq<Ident>
    decreases p,
{
    match p.kind {
        PatternKind::Or { lhs, rhs } => pattern_idents(*lhs) + pattern_idents(*rhs),
        PatternKind::AmbiguousSingleIdent(i) => seq![i],
        PatternKind::Var { name, .. } => seq![name],
        PatternKind::Constant(path) => path_idents(path),
        PatternKind::Constructor { args, .. } => patterns_idents(args@),
        PatternKind::Struct { fields, .. } => struct_fields_idents(fields@),
        PatternKind::Tuple(items) => patterns_idents(items@),
        _ => Seq::empty(),
    }
}

/// The names a sequence of patterns binds or refers to.
pub open spec fn patterns_idents(s: Seq<Pattern>) -> Seq<Ident>
    decreases s,
{
    if s.len() == 0 { Seq::empty() } else { patterns_idents(s.drop_last()) + pattern_idents(s.last()) }
}

/// The names the fields of a struct pattern bind.
pub open spec fn struct_fields_idents(s: Seq<PatternStructField>) -> Seq<Ident>
    decreases s,
{
    if s.len() == 0 {
        Seq::empty()
    } else {
        struct_fields_idents(s.drop_last()) + match s.last() {
            PatternStructField::Rest => Seq::empty(),
            PatternStructField::Field { field_name, pattern } => match pattern {
                Some(p) => pattern_idents(*p),
                None => seq![field_name],
            },
        }
    }
}

fn append_idents<'a>(r: &mut Vec<&'a Ident>, more: Vec<&'a Ident>)
    ensures
        derefs(final(r)@) == derefs(old(r)@) + derefs(more@),
{
    let mut more = more;
    let ghost a = derefs(r@);
    let ghost b = derefs(more@);
    r.append(&mut more);
    proof {
        assert(derefs(r@) =~= a + b);
    }
}

/// The names a pattern binds or refers to.
pub fn fold_pattern_idents<'a>(p: &'a Pattern) -> (r: Vec<&'a Ident>)
    ensures
        derefs(r@) == pattern_idents(*p),
    decreases p,
{
    let mut r: Vec<&'a Ident> = Vec::new();
    match &p.kind {
        PatternKind::Or { lhs, rhs } => {
            let a = fold_pattern_idents(lhs);
            let b = fold_pattern_idents(rhs);
            append_idents(&mut r, a);
            append_idents(&mut r, b);
        },
        PatternKind::AmbiguousSingleIdent(i) => r.push(i),
        PatternKind::Var { name, .. } => r.push(name),
        PatternKind::Constant(path) => {
            let a = fold_path_idents(path);
            append_idents(&mut r, a);
        },
        PatternKind::Constructor { args, .. } => {
            let a = fold_patterns_idents(args);
            append_idents(&mut r, a);
        },
        PatternKind::Struct { fields, .. } => {
            let a = fold_struct_fields_idents(fields);
            append_idents(&mut r, a);
        },
        PatternKind::Tuple(items) => {
            let a = fold_patterns_idents(items);
            append_idents(&mut r, a);
        },
        _ => {},
    }
    proof {
        assert(derefs(r@) =~= pattern_idents(*p));
    }
    r
}

fn fold_patterns_idents<'a>(items: &'a Vec<Pattern>) -> (r: Vec<&'a Ident>)
    ensures
        derefs(r@) == patterns_idents(items@),
    decreases items@,
{
    let mut r: Vec<&'a Ident> = Vec::new();
    let mut i: usize = 0;
    while i < items.len()
        invariant
            i <= items@.len(),
            derefs(r@) == patterns_idents(items@.subrange(0, i as int)),
        decreases items@.len() - i,
    {
        proof {
            assert(items@.subrange(0, i as int + 1).drop_last() =~= items@.subrange(0, i as int));
            assert(decreases_to!(items@ => items@[i as int]));
        }
        let a = fold_pattern_idents(&items[i]);
        append_idents(&mut r, a);
        i = i + 1;
    }
    proof {
        assert(items@.subrange(0, i as int) =~= items@);
    }
    r
}

fn fold_struct_fields_idents<'a>(items: &'a Vec<PatternStructField>) -> (r: Vec<&'a Ident>)
    ensures
        derefs(r@) == struct_fields_idents(items@),
    decreases items@,
{
    let mut r: Vec<&'a Ident> = Vec::new();
    let mut i: usize = 0;
    while i < items.len()
        invariant
            i <= items@.len(),
            derefs(r@) == struct_fields_idents(items@.subrange(0, i as int)),
        decreases items@.len() - i,
    {
        proof {
            assert(items@.subrange(0, i as int + 1).drop_last() =~= items@.subrange(0, i as int));
            assert(decreases_to!(items@ => items@[i as int]));
        }
        match &items[i] {
            PatternStructField::Rest => {
                proof {
                    assert(derefs(r@) =~= struct_fields_idents(items@.subrange(0, i as int + 1)));
                }
            },
            PatternStructField::Field { field_name, pattern } => match pattern {
                Some(p) => {
                    let a = fold_pattern_idents(p);
                    append_idents(&mut r, a);
                },
                None => {
                    let ghost before = derefs(r@);
                    r.push(field_name);
                    proof {
                        assert(derefs(r@) =~= before + seq![*field_name]);
                    }
                },
            },
        }
        i = i + 1;
    }
    proof {
        assert(items@.subrange(0, i as int) =~= items@);
    }
    r
}

/// A literal `true` or `false`, possibly negated any number of times.
pub open spec fn is_bool_literal_or_negation(e: Expr) -> bool
    decreases e,
{
    match e.kind {
        ExprKind::Literal(l) => l.span.text@ == "true"@ || l.span.text@ == "false"@,
        ExprKind::Not(inner) => is_bool_literal_or_negation(*inner),
        _ => false,
    }
}

/// Whether `e` is a literal `true` or `false`, possibly negated.
pub fn is_boolean_literal_or_negation(e: &Expr) -> (r: bool)
    ensures
        r == is_bool_literal_or_negation(*e),
    decreases e,
{
    match &e.kind {
        ExprKind::Literal(l) => str_eq(l.span.text.as_str(), "true") || str_eq(l.span.text.as_str(), "false"),
        ExprKind::Not(inner) => is_boolean_literal_or_negation(inner),
        _ => false,
    }
}

/// The operands of a binary expression.
pub fn expr_binary_operands<'a>(e: &'a Expr) -> (r: Option<(&'a Expr, &'a Expr)>)
    ensures
        match e.kind {
            ExprKind::Binary { lhs, rhs, .. } => r matches Some((a, b)) && *a == *lhs && *b == *rhs,
            _ => r is None,
        },
{
    match &e.kind {
        ExprKind::Binary { lhs, rhs, .. } => Some((&**lhs, &**rhs)),
        _ => None,
    }
}

/// Whether the value of an expression keeps its sign under the negations that wrap it:
/// every `!` flips it, parentheses keep it.
pub open spec fn negation_result(e: Expr) -> bool
    decreases e,
{
    match e.kind {
        ExprKind::Parens(inner) => negation_result(*inner),
        ExprKind::Not(inner) => !negation_result(*inner),
        _ => true,
    }
}

/// Whether an even number of negations wraps the expression.
pub fn expr_negation_result(e: &Expr) -> (r: bool)
    ensures
        r == negation_result(*e),
    decreases e,
{
    match &e.kind {
        ExprKind::Parens(inner) => expr_negation_result(inner),
        ExprKind::Not(inner) => !expr_negation_result(inner),
        _ => true,
    }
}

/// Whether an attribute is named `attr_name` and, when it has arguments, lists each of
/// `arg_names` among them. An attribute without arguments passes whatever names are asked.
pub open spec fn attribute_matches(a: Attribute, attr_name: Seq<char>, arg_names: Seq<Seq<char>>) -> bool {
    a.name.span.text@ == attr_name && match a.args {
        Some(args) => forall|k: int| 0 <= k < arg_names.len() ==> arg_named(args@, #[trigger] arg_names[k]),
        None => true,
    }
}

/// Whether one of the arguments is named `n`.
pub open spec fn arg_named(args: Seq<Ident>, n: Seq<char>) -> bool {
    exists|l: int| 0 <= l < args.len() && #[trigger] args[l].span.text@ == n
}

/// Whether one of the attribute declarations holds an attribute that matches.
pub open spec fn has_attribute(decls: Seq<AttributeDecl>, attr_name: Seq<char>, arg_names: Seq<Seq<char>>) -> bool {
    exists|i: int, j: int| 0 <= i < decls.len() && 0 <= j < decls[i].attributes@.len()
        && attribute_matches(#[trigger] decls[i].attributes@[j], attr_name, arg_names)
}

/// The characters of each of the given names.
pub open spec fn names_view(v: Seq<&str>) -> Seq<Seq<char>> {
    v.map_values(|s: &str| s@)
}

fn arg_listed(args: &Vec<Ident>, want: &str) -> (r: bool)
    ensures
        r == arg_named(args@, want@),
{
    let mut l: usize = 0;
    while l < args.len()
        invariant
            l <= args@.len(),
            forall|x: int| 0 <= x < l ==> #[trigger] args@[x].span.text@ != want@,
        decreases args@.len() - l,
    {
        if str_eq(args[l].span.text.as_str(), want) {
            return true;
        }
        l = l + 1;
    }
    false
}

fn check_attribute(a: &Attribute, attribute_name: &str, attribute_arg_names: &[&str]) -> (r: bool)
    ensures
        r == attribute_matches(*a, attribute_name@, names_view(attribute_arg_names@)),
{
    let ghost names = names_view(attribute_arg_names@);
    if !str_eq(a.name.span.text.as_str(), attribute_name) {
        return false;
    }
    match &a.args {
        None => true,
        Some(args) => {
            let mut k: usize = 0;
            while k < attribute_arg_names.len()
                invariant
                    k <= attribute_arg_names@.len(),
                    names == names_view(attribute_arg_names@),
                    a.args == Some(*args),
                    a.name.span.text@ == attribute_name@,
                    forall|m: int| 0 <= m < k ==> arg_named(args@, #[trigger] names[m]),
                decreases attribute_arg_names@.len() - k,
            {
                if !arg_listed(args, attribute_arg_names[k]) {
                    proof {
                        assert(names[k as int] == attribute_arg_names@[k as int]@);
                    }
                    return false;
                }
                proof {
                    assert(names[k as int] == attribute_arg_names@[k as int]@);
                }
                k = k + 1;
            }
            true
        },
    }
}

/// Whether one of the attribute declarations holds an attribute named `attribute_name` that,
/// when it has arguments, lists each of `attribute_arg_names`.
pub fn check_attribute_decls(attribute_decls: &Vec<AttributeDecl>, attribute_name: &str, attribute_arg_names: &[&str]) -> (r: bool)
    ensures
        r == has_attribute(attribute_decls@, attribute_name@, names_view(attribute_arg_names@)),
{
    let ghost names = names_view(attribute_arg_names@);
    let mut i: usize = 0;
    while i < attribute_decls.len()
        invariant
            i <= attribute_decls@.len(),
            names == names_view(attribute_arg_names@),
            forall|a: int, b: int| 0 <= a < i && 0 <= b < attribute_decls@[a].attributes@.len()
                ==> !attribute_matches(#[trigger] attribute_decls@[a].attributes@[b], attribute_name@, names),
        decreases attribute_decls@.len() - i,
    {
        let decl = &attribute_decls[i];
        let mut j: usize = 0;
        while j < decl.attributes.len()
            invariant
                i < attribute_decls@.len(),
                *decl == attribute_decls@[i as int],
                j <= decl.attributes@.len(),
                names == names_view(attribute_arg_names@),
                forall|a: int, b: int| 0 <= a < i && 0 <= b < attribute_decls@[a].attributes@.len()
                    ==> !attribute_matches(#[trigger] attribute_decls@[a].attributes@[b], attribute_name@, names),
                forall|b: int| 0 <= b < j ==> !attribute_matches(#[trigger] decl.attributes@[b], attribute_name@, names),
            decreases decl.attributes@.len() - j,
        {
            if check_attribute(&decl.attributes[j], attribute_name, attribute_arg_names) {
                return true;
            }
            j = j + 1;
        }
        i = i + 1;
    }
    false
}

/// The arguments of a call to `require`.
pub fn get_require_args<'a>(e: &'a Expr) -> (r: Option<&'a Vec<Expr>>)
    ensures
        match e.kind {
            ExprKind::FuncApp { func, args, .. } => if func.span.text@ == "require"@ {
                r matches Some(a) && *a == args
            } else {
                r is None
            },
            _ => r is None,
        },
{
    match &e.kind {
        ExprKind::FuncApp { func, args, .. } => {
            if str_eq(func.span.text.as_str(), "require") {
                Some(args)
            } else {
                None
            }
        },
        _ => None,
    }
}

/// A statement or final expression of the block calls `revert`.
pub open spec fn is_revert_call(e: Expr) -> bool {
    match e.kind {
        ExprKind::FuncApp { func, .. } => func.span.text@ == "revert"@,
        _ => false,
    }
}

/// An expression statement that calls `revert`.
pub open spec fn is_revert_statement(s: Statement) -> bool {
    match s.kind {
        StatementKind::Expr { expr, .. } => is_revert_call(expr),
        _ => false,
    }
}

/// The block calls `revert` in an expression statement or in its final expression.
pub open spec fn has_revert(b: Block) -> bool {
    (exists|i: int| 0 <= i < b.statements@.len() && is_revert_statement(#[trigger] b.statements@[i]))
    || (match b.final_expr { Some(x) => is_revert_call(*x), None => false })
}

fn is_revert(e: &Expr) -> (r: bool)
    ensures
        r == is_revert_call(*e),
{
    match &e.kind {
        ExprKind::FuncApp { func, .. } => str_eq(func.span.text.as_str(), "revert"),
        _ => false,
    }
}

/// Whether the block calls `revert` in an expression statement or in its final expression.
pub fn block_has_revert(b: &Block) -> (r: bool)
    ensures
        r == has_revert(*b),
{
    let mut i: usize = 0;
    while i < b.statements.len()
        invariant
            i <= b.statements@.len(),
            forall|j: int| 0 <= j < i ==> !is_revert_statement(#[trigger] b.statements@[j]),
        decreases b.statements@.len() - i,
    {
        match &b.statements[i].kind {
            StatementKind::Expr { expr, .. } => {
                if is_revert(expr) {
                    return true;
                }
            },
            _ => {},
        }
        i = i + 1;
    }
    match &b.final_expr {
        Some(x) => is_revert(x),
        None => false,
    }
}

/// The condition of an `if` expression whose `then` block calls `revert`.
pub fn get_if_revert_condition<'a>(e: &'a Expr) -> (r: Option<&'a IfCondition>)
    ensures
        match e.kind {
            ExprKind::If(i) => if has_revert(i.then_block) { r matches Some(c) && *c == i.condition } else { r is None },
            _ => r is None,
        },
{
    match &e.kind {
        ExprKind::If(i) => {
            if block_has_revert(&i.then_block) {
                Some(&i.condition)
            } else {
                None
            }
        },
        _ => None,
    }
}

/// `lhs` or `rhs` is the variable named `var_name` and the other one is
/// `{kind_name}::from(ZERO_B256)` (the lhs is tried first).
pub open spec fn zero_value_comparison(kind_name: Seq<char>, var_name: Seq<char>, lhs: Expr, rhs: Expr) -> bool {
    let other = if lhs.span.text@ == var_name {
        Some(rhs)
    } else if rhs.span.text@ == var_name {
        Some(lhs)
    } else {
        None
    };
    match other {
        Some(z) => match z.kind {
            ExprKind::FuncApp { func, args_span, .. } => func.span.text@ == kind_name + "::from"@
                && args_span.text@ == "(ZERO_B256)"@,
            _ => false,
        },
        None => false,
    }
}

/// Whether `lhs` or `rhs` is the variable `var_name` compared with `{kind_name}::from(ZERO_B256)`.
pub fn is_zero_value_comparison(kind_name: &str, var_name: &str, lhs: &Expr, rhs: &Expr) -> (r: bool)
    ensures
        r == zero_value_comparison(kind_name@, var_name@, *lhs, *rhs),
{
    let zero_value = if str_eq(lhs.span.text.as_str(), var_name) {
        rhs
    } else if str_eq(rhs.span.text.as_str(), var_name) {
        lhs
    } else {
        return false;
    };
    match &zero_value.kind {
        ExprKind::FuncApp { func, args_span, .. } => {
            let mut expected = copy_string(kind_name);
            push_str(&mut expected, "::from");
            str_eq(func.span.text.as_str(), expected.as_str()) && str_eq(args_span.text.as_str(), "(ZERO_B256)")
        },
        _ => false,
    }
}

/// The last suffix name of a constructor pattern `name::...::Suffix(value)` and the single
/// identifier it binds first.
pub open spec fn constructor_suffix_and_value(name: Seq<char>, p: Pattern) -> Option<(Ident, Ident)> {
    match p.kind {
        PatternKind::Constructor { path, args } => {
            if path.prefix.name.span.text@ != name || path.suffix@.len() == 0 || args@.len() == 0 {
                None
            } else {
                match args@[0].kind {
                    PatternKind::AmbiguousSingleIdent(i) => Some((path.suffix@.last().name, i)),
                    _ => None,
                }
            }
        },
        _ => None,
    }
}

/// The suffix of a constructor pattern of `name` and the identifier it binds first.
pub fn pattern_to_constructor_suffix_and_value<'a>(name: &str, p: &'a Pattern) -> (r: Option<(&'a Ident, &'a Ident)>)
    ensures
        match constructor_suffix_and_value(name@, *p) {
            Some((a, b)) => r matches Some((x, y)) && *x == a && *y == b,
            None => r is None,
        },
{
    match &p.kind {
        PatternKind::Constructor { path, args } => {
            if !str_eq(path.prefix.name.span.text.as_str(), name) || path.suffix.len() == 0 || args.len() == 0 {
                return None;
            }
            let suffix = &path.suffix[path.suffix.len() - 1].name;
            match &args[0].kind {
                PatternKind::AmbiguousSingleIdent(i) => Some((suffix, i)),
                _ => None,
            }
        },
        _ => None,
    }
}

/// The variable a `let` statement binds when its pattern is a plain variable.
pub fn statement_to_variable_binding_ident<'a>(s: &'a Statement) -> (r: Option<&'a Ident>)
    ensures
        match s.kind {
            StatementKind::Let(l) => match l.pattern.kind {
                PatternKind::Var { name, .. } => r matches Some(i) && *i == name,
                _ => r is None,
            },
            _ => r is None,
        },
{
    match &s.kind {
        StatementKind::Let(l) => match &l.pattern.kind {
            PatternKind::Var { name, .. } => Some(name),
            _ => None,
        },
        _ => None,
    }
}

/// `let mut v = storage.x. ... .read();`: the storage field name and the variable.
pub open spec fn storage_read_binding(s: Statement) -> Option<(Ident, Ident)> {
    match s.kind {
        StatementKind::Let(l) => match l.pattern.kind {
            PatternKind::Var { mutable: true, name } => {
                let ids = expr_idents(l.expr);
                if ids.len() < 3 || ids[0].span.text@ != "storage"@ || ids.last().span.text@ != "read"@ {
                    None
                } else {
                    Some((ids[1], name))
                }
            },
            _ => None,
        },
        _ => None,
    }
}

/// The storage field a mutable variable is read from, and the variable.
pub fn statement_to_storage_read_binding_idents<'a>(s: &'a Statement) -> (r: Option<(&'a Ident, &'a Ident)>)
    ensures
        match storage_read_binding(*s) {
            Some((a, b)) => r matches Some((x, y)) && *x == a && *y == b,
            None => r is None,
        },
{
    match &s.kind {
        StatementKind::Let(l) => match &l.pattern.kind {
            PatternKind::Var { mutable: true, name } => {
                let ids = fold_expr_idents(&l.expr);
                if ids.len() < 3 {
                    return None;
                }
                if !str_eq(ids[0].span.text.as_str(), "storage") {
                    return None;
                }
                if !str_eq(ids[ids.len() - 1].span.text.as_str(), "read") {
                    return None;
                }
                Some((ids[1], name))
            },
            _ => None,
        },
        _ => None,
    }
}

/// The names along the target of a reassignment statement.
pub fn statement_to_reassignment_idents<'a>(s: &'a Statement) -> (r: Option<Vec<&'a Ident>>)
    ensures
        match s.kind {
            StatementKind::Expr { expr, .. } => match expr.kind {
                ExprKind::Reassignment { assignable, .. } => r matches Some(v) && derefs(v@) == assignable_idents(assignable),
                _ => r is None,
            },
            _ => r is None,
        },
{
    match &s.kind {
        StatementKind::Expr { expr, .. } => match &expr.kind {
            ExprKind::Reassignment { assignable, .. } => Some(fold_assignable_idents(assignable)),
            _ => None,
        },
        _ => None,
    }
}

/// The names of the methods that write to a storage type.
pub open spec fn is_storage_write_fn(s: Seq<char>) -> bool {
    ||| s == "write_slice"@ || s == "clear"@
    ||| s == "write"@
    ||| s == "insert"@ || s == "remove"@
    ||| s == "push"@ || s == "pop"@ || s == "swap_remove"@ || s == "set"@ || s == "swap"@ || s == "reverse"@
        || s == "fill"@ || s == "resize"@
}

fn storage_write_fn(s: &str) -> (r: bool)
    ensures
        r == is_storage_write_fn(s@),
{
    str_eq(s, "write_slice") || str_eq(s, "clear") || str_eq(s, "write") || str_eq(s, "insert") || str_eq(s, "remove")
        || str_eq(s, "push") || str_eq(s, "pop") || str_eq(s, "swap_remove") || str_eq(s, "set") || str_eq(s, "swap")
        || str_eq(s, "reverse") || str_eq(s, "fill") || str_eq(s, "resize")
}

/// A method-call statement on `storage.x` whose last name is a storage-writing method.
pub open spec fn storage_write_target(s: Statement) -> Option<Ident> {
    match s.kind {
        StatementKind::Expr { expr, .. } => match expr.kind {
            ExprKind::MethodCall { .. } => {
                let ids = expr_idents(expr);
                if ids.len() < 3 || ids[0].span.text@ != "storage"@ || !is_storage_write_fn(ids.last().span.text@) {
                    None
                } else {
                    Some(ids[1])
                }
            },
            _ => None,
        },
        _ => None,
    }
}

/// The storage field that a storage-writing method-call statement writes.
pub fn storage_write_statement_to_storage_variable_ident<'a>(s: &'a Statement) -> (r: Option<&'a Ident>)
    ensures
        match storage_write_target(*s) {
            Some(a) => r matches Some(x) && *x == a,
            None => r is None,
        },
{
    match &s.kind {
        StatementKind::Expr { expr, .. } => match &expr.kind {
            ExprKind::MethodCall { .. } => {
                let ids = fold_expr_idents(expr);
                if ids.len() < 3 {
                    return None;
                }
                if !str_eq(ids[0].span.text.as_str(), "storage") {
                    return None;
                }
                if !storage_write_fn(ids[ids.len() - 1].span.text.as_str()) {
                    return None;
                }
                Some(ids[1])
            },
            _ => None,
        },
        _ => None,
    }
}

/// A storage-writing method-call statement whose last argument is a single name: the storage
/// field and that name.
pub open spec fn storage_write_pair(s: Statement) -> Option<(Ident, Ident)> {
    match s.kind {
        StatementKind::Expr { expr, .. } => match expr.kind {
            ExprKind::MethodCall { args, .. } => {
                let ids = expr_idents(expr);
                if ids.len() < 3 || ids[0].span.text@ != "storage"@ || !is_storage_write_fn(ids.last().span.text@)
                    || args@.len() == 0 {
                    None
                } else {
                    let vids = expr_idents(args@.last());
                    if vids.len() != 1 { None } else { Some((ids[1], vids[0])) }
                }
            },
            _ => None,
        },
        _ => None,
    }
}

/// The storage field and the variable that a storage-writing statement writes.
pub fn statement_to_storage_write_idents<'a>(s: &'a Statement) -> (r: Option<(&'a Ident, &'a Ident)>)
    ensures
        match storage_write_pair(*s) {
            Some((a, b)) => r matches Some((x, y)) && *x == a && *y == b,
            None => r is None,
        },
{
    match &s.kind {
        StatementKind::Expr { expr, .. } => match &expr.kind {
            ExprKind::MethodCall { args, .. } => {
                let ids = fold_expr_idents(expr);
                if ids.len() < 3 {
                    return None;
                }
                if !str_eq(ids[0].span.text.as_str(), "storage") {
                    return None;
                }
                if !storage_write_fn(ids[ids.len() - 1].span.text.as_str()) {
                    return None;
                }
                if args.len() == 0 {
                    return None;
                }
                let vids = fold_expr_idents(&args[args.len() - 1]);
                if vids.len() != 1 {
                    return None;
                }
                Some((ids[1], vids[0]))
            },
            _ => None,
        },
        _ => None,
    }
}

/// The storage fields of the first storage item of a module.
pub open spec fn module_storage_fields(m: Module) -> Seq<StorageField> {
    let i = first_storage(m.items@);
    if i < m.items@.len() {
        match m.items@[i].kind {
            ItemKind::Storage { fields, .. } => fields@.map_values(|f: AnnotatedField<StorageField>| f.value),
            _ => Seq::empty(),
        }
    } else {
        Seq::empty()
    }
}

/// The position of the first storage item (the length when there is none).
pub open spec fn first_storage(items: Seq<Item>) -> int
    decreases items.len(),
{
    if items.len() == 0 {
        0
    } else if items[0].kind is Storage {
        0
    } else {
        1 + first_storage(items.drop_first())
    }
}

/// The storage fields of the first storage item of a module.
pub fn collect_storage_fields<'a>(m: &'a Module) -> (r: Vec<&'a StorageField>)
    ensures
        r@.map_values(|f: &'a StorageField| *f) == module_storage_fields(*m),
{
    let mut i: usize = 0;
    proof {
        assert(m.items@.subrange(0, m.items@.len() as int) =~= m.items@);
    }
    while i < m.items.len()
        invariant
            i <= m.items@.len(),
            forall|j: int| 0 <= j < i ==> !(m.items@[j].kind is Storage),
            first_storage(m.items@) == i + first_storage(m.items@.subrange(i as int, m.items@.len() as int)),
        decreases m.items@.len() - i,
    {
        proof {
            assert(m.items@.subrange(i as int, m.items@.len() as int).drop_first() =~= m.items@.subrange(i as int + 1, m.items@.len() as int));
        }
        match &m.items[i].kind {
            ItemKind::Storage { fields, .. } => {
                proof {
                    assert(m.items@.subrange(i as int, m.items@.len() as int)[0] == m.items@[i as int]);
                }
                let mut r: Vec<&'a StorageField> = Vec::new();
                let mut k: usize = 0;
                while k < fields.len()
                    invariant
                        k <= fields@.len(),
                        r@.map_values(|f: &'a StorageField| *f) == fields@.subrange(0, k as int).map_values(|f: AnnotatedField<StorageField>| f.value),
                    decreases fields@.len() - k,
                {
                    let ghost before = r@.map_values(|f: &'a StorageField| *f);
                    r.push(&fields[k].value);
                    proof {
                        assert(r@.map_values(|f: &'a StorageField| *f) =~= before.push(fields@[k as int].value));
                        assert(r@.map_values(|f: &'a StorageField| *f) =~= fields@.subrange(0, k as int + 1).map_values(|f: AnnotatedField<StorageField>| f.value));
                    }
                    k = k + 1;
                }
                proof {
                    assert(fields@.subrange(0, k as int) =~= fields@);
                }
                return r;
            },
            _ => {},
        }
        i = i + 1;
    }
    let r: Vec<&'a StorageField> = Vec::new();
    proof {
        assert(m.items@.subrange(i as int, m.items@.len() as int) =~= Seq::<Item>::empty());
        assert(r@.map_values(|f: &'a StorageField| *f) =~= Seq::<StorageField>::empty());
    }
    r
}


/// The subtree of a group that follows the first `prefix::...` import with the given prefix.
pub open spec fn group_prefix_subtree(imports: Seq<UseTree>, p: Seq<char>) -> Option<UseTree>
    decreases imports.len(),
{
    if imports.len() == 0 {
        None
    } else {
        match imports[0] {
            UseTree::Path { prefix, suffix } => if prefix.span.text@ == p {
                Some(*suffix)
            } else {
                group_prefix_subtree(imports.drop_first(), p)
            },
            _ => group_prefix_subtree(imports.drop_first(), p),
        }
    }
}

/// One step down a use tree along the path segment `p`: into the matching path of a group
/// (nothing when there is none), into a path with that prefix, and otherwise nowhere.
pub open spec fn use_tree_step(tree: UseTree, p: Seq<char>) -> Option<UseTree> {
    match tree {
        UseTree::Group(imports) => group_prefix_subtree(imports@, p),
        UseTree::Path { prefix, suffix } => if prefix.span.text@ == p { Some(*suffix) } else { Some(tree) },
        _ => Some(tree),
    }
}

/// The use tree reached after stepping along each of `prefixes` in turn.
pub open spec fn use_tree_descend(tree: UseTree, prefixes: Seq<Seq<char>>) -> Option<UseTree>
    decreases prefixes.len(),
{
    if prefixes.len() == 0 {
        Some(tree)
    } else {
        match use_tree_step(tree, prefixes[0]) {
            Some(t) => use_tree_descend(t, prefixes.drop_first()),
            None => None,
        }
    }
}

/// The local name of the import `name` in a single import: the name itself, or its alias.
pub open spec fn single_import_name(tree: UseTree, name: Seq<char>) -> Option<Seq<char>> {
    match tree {
        UseTree::Name(n) => if n.span.text@ == name { Some(name) } else { None },
        UseTree::Rename { name: n, alias } => if n.span.text@ == name { Some(alias.span.text@) } else { None },
        _ => None,
    }
}

/// The local name of the first import of `name` in a group.
pub open spec fn group_import_name(imports: Seq<UseTree>, name: Seq<char>) -> Option<Seq<char>>
    decreases imports.len(),
{
    if imports.len() == 0 {
        None
    } else {
        match single_import_name(imports[0], name) {
            Some(n) => Some(n),
            None => group_import_name(imports.drop_first(), name),
        }
    }
}

/// The local name under which a use tree imports `name`.
pub open spec fn import_name(tree: UseTree, name: Seq<char>) -> Option<Seq<char>> {
    match tree {
        UseTree::Group(imports) => group_import_name(imports@, name),
        _ => single_import_name(tree, name),
    }
}

/// The separator of path segments, `::`.
pub open spec fn path_sep() -> Seq<char> {
    seq![':', ':']
}

/// The local name under which a use tree imports the item at `path` (`a::b::c`).
pub open spec fn use_tree_name(tree: UseTree, path: Seq<char>) -> Option<Seq<char>> {
    let tokens = split_sep(path, path_sep());
    let prefixes = if tokens.len() > 1 { tokens.drop_last() } else { Seq::empty() };
    match use_tree_descend(tree, prefixes) {
        Some(t) => import_name(t, tokens.last()),
        None => None,
    }
}

fn use_tree_step_exec<'a>(tree: &'a UseTree, p: &str) -> (r: Option<&'a UseTree>)
    ensures
        match use_tree_step(*tree, p@) {
            Some(t) => r matches Some(x) && *x == t,
            None => r is None,
        },
{
    match tree {
        UseTree::Group(imports) => {
            let mut i: usize = 0;
            proof {
                assert(imports@.subrange(0, imports@.len() as int) =~= imports@);
            }
            while i < imports.len()
                invariant
                    i <= imports@.len(),
                    use_tree_step(*tree, p@) == group_prefix_subtree(imports@, p@),
                    group_prefix_subtree(imports@, p@) == group_prefix_subtree(imports@.subrange(i as int, imports@.len() as int), p@),
                decreases imports@.len() - i,
            {
                proof {
                    assert(imports@.subrange(i as int, imports@.len() as int).drop_first() =~= imports@.subrange(i + 1, imports@.len() as int));
                    assert(imports@.subrange(i as int, imports@.len() as int)[0] == imports@[i as int]);
                }
                match &imports[i] {
                    UseTree::Path { prefix, suffix } => {
                        if str_eq(prefix.span.text.as_str(), p) {
                            proof {
                                let sub = imports@.subrange(i as int, imports@.len() as int);
                                assert(sub.len() > 0);
                                assert(group_prefix_subtree(sub, p@) == Some(**suffix));
                            }
                            return Some(&**suffix);
                        }
                    },
                    _ => {},
                }
                i = i + 1;
            }
            None
        },
        UseTree::Path { prefix, suffix } => {
            if str_eq(prefix.span.text.as_str(), p) {
                Some(&**suffix)
            } else {
                Some(tree)
            }
        },
        _ => Some(tree),
    }
}

fn single_import_name_exec(tree: &UseTree, name: &str) -> (r: Option<String>)
    ensures
        match single_import_name(*tree, name@) {
            Some(n) => r matches Some(x) && x@ == n,
            None => r is None,
        },
{
    match tree {
        UseTree::Name(n) => if str_eq(n.span.text.as_str(), name) { Some(copy_string(name)) } else { None },
        UseTree::Rename { name: n, alias } => if str_eq(n.span.text.as_str(), name) {
            Some(copy_string(alias.span.text.as_str()))
        } else {
            None
        },
        _ => None,
    }
}

/// The local name under which a use tree imports the item at `path` (`a::b::c`): its last
/// segment or the alias it is renamed to.
pub fn use_tree_to_name(use_tree: &UseTree, path: &str) -> (r: Option<String>)
    ensures
        match use_tree_name(*use_tree, path@) {
            Some(n) => r matches Some(x) && x@ == n,
            None => r is None,
        },
{
    proof {
        reveal_strlit("::");
        assert("::"@ =~= path_sep());
    }
    let tokens = split_str(path, "::");
    proof {
        lemma_split_sep_nonempty(path@, path_sep());
    }
    let ghost toks = strings_view(tokens@);
    let ghost prefixes = if toks.len() > 1 { toks.drop_last() } else { Seq::<Seq<char>>::empty() };
    let mut tree = use_tree;
    if tokens.len() > 1 {
        let mut i: usize = 0;
        proof {
            assert(prefixes.subrange(0, prefixes.len() as int) =~= prefixes);
        }
        while i < tokens.len() - 1
            invariant
                tokens@.len() > 1,
                toks == strings_view(tokens@),
                toks == split_sep(path@, path_sep()),
                toks.len() == tokens@.len(),
                prefixes == toks.drop_last(),
                i <= tokens@.len() - 1,
                use_tree_descend(*use_tree, prefixes) == use_tree_descend(*tree, prefixes.subrange(i as int, prefixes.len() as int)),
            decreases tokens@.len() - 1 - i,
        {
            proof {
                assert(prefixes.subrange(i as int, prefixes.len() as int).drop_first() =~= prefixes.subrange(i + 1, prefixes.len() as int));
                assert(prefixes.subrange(i as int, prefixes.len() as int)[0] == tokens@[i as int]@);
            }
            match use_tree_step_exec(tree, tokens[i].as_str()) {
                Some(t) => tree = t,
                None => {
                    proof {
                        let sub = prefixes.subrange(i as int, prefixes.len() as int);
                        assert(sub.len() > 0);
                        assert(use_tree_step(*tree, sub[0]) is None);
                        assert(use_tree_descend(*tree, sub) is None);
                        assert(use_tree_descend(*use_tree, prefixes) is None);
                        assert(prefixes == (if toks.len() > 1 { toks.drop_last() } else { Seq::<Seq<char>>::empty() }));

                    }
                    return None;
                },
            }
            i = i + 1;
        }
        proof {
            assert(prefixes.subrange(i as int, prefixes.len() as int) =~= Seq::<Seq<char>>::empty());
        }
    }
    let name = tokens[tokens.len() - 1].as_str();
    proof {
        assert(toks.last() == name@);
        assert(use_tree_descend(*use_tree, prefixes) == Some(*tree));
    }
    match tree {
        UseTree::Group(imports) => {
            let mut i: usize = 0;
            proof {
                assert(imports@.subrange(0, imports@.len() as int) =~= imports@);
            }
            while i < imports.len()
                invariant
                    i <= imports@.len(),
                    use_tree_name(*use_tree, path@) == group_import_name(imports@, name@),
                    group_import_name(imports@, name@) == group_import_name(imports@.subrange(i as int, imports@.len() as int), name@),
                decreases imports@.len() - i,
            {
                proof {
                    assert(imports@.subrange(i as int, imports@.len() as int).drop_first() =~= imports@.subrange(i + 1, imports@.len() as int));
                    assert(imports@.subrange(i as int, imports@.len() as int)[0] == imports@[i as int]);
                }
                let found = single_import_name_exec(&imports[i], name);
                if found.is_some() {
                    proof {
                        let sub = imports@.subrange(i as int, imports@.len() as int);
                        assert(sub.len() > 0);
                        assert(group_import_name(sub, name@) == single_import_name(imports@[i as int], name@));
                    }
                    return found;
                }
                i = i + 1;
            }
            None
        },
        _ => single_import_name_exec(tree, name),
    }
}

} // verus!
