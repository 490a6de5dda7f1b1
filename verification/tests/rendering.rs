use kernel::database::Database;
use kernel::de_bruijn::DeBruijnIndex;
use kernel::expr::{
    ArgumentStyle, Binder, BinderStructure, BoundVariable, Expression, Hole, HoleId,
    InvocationStyle, LocalConstant, LocalConstantId, Universe, Usage,
};
use kernel::files::{Path, Str};
use kernel::render::write_expression;
use kernel::vec_map::VecMap;

fn structure(
    db: &mut Database,
    name: &str,
    ty: Expression,
    usage: Usage,
    argument_style: ArgumentStyle,
    invocation_style: InvocationStyle,
) -> BinderStructure {
    let name = Str::new(db, name);
    BinderStructure {
        bound: BoundVariable { name, ty, usage },
        argument_style,
        invocation_style,
    }
}

fn explicit(db: &mut Database, name: &str, ty: Expression) -> BinderStructure {
    structure(
        db,
        name,
        ty,
        Usage::Present,
        ArgumentStyle::Explicit,
        InvocationStyle::Once,
    )
}

#[test]
fn writes_variables_by_name() {
    let mut db = Database::new();
    let sort = Expression::new_sort(&mut db, Universe(0));
    let zero = Expression::new_local(&mut db, DeBruijnIndex::new(0));
    let one = Expression::new_local(&mut db, DeBruijnIndex::new(1));
    let two = Expression::new_local(&mut db, DeBruijnIndex::new(2));
    let pair = Expression::new_apply(&mut db, zero, one);
    let body = Expression::new_apply(&mut db, pair, two);
    let inner = explicit(&mut db, "y", sort);
    let inner = Expression::new_lambda(
        &mut db,
        Binder {
            structure: inner,
            body,
        },
    );
    let outer = explicit(&mut db, "x", sort);
    let term = Expression::new_lambda(
        &mut db,
        Binder {
            structure: outer,
            body: inner,
        },
    );
    assert_eq!(
        db.format_expression(term),
        "fun ( x : Sort 0 ) -> fun ( y : Sort 0 ) -> y ( x ) ( <local 2> )"
    );
}

#[test]
fn writes_the_styles_of_binders() {
    let mut db = Database::new();
    let sort = Expression::new_sort(&mut db, Universe(12));
    let zero = Expression::new_local(&mut db, DeBruijnIndex::new(0));
    let eager = structure(
        &mut db,
        "a",
        sort,
        Usage::Erased,
        ArgumentStyle::ImplicitEager,
        InvocationStyle::Many,
    );
    let weak = structure(
        &mut db,
        "b",
        sort,
        Usage::Present,
        ArgumentStyle::ImplicitWeak,
        InvocationStyle::Once,
    );
    let first = Expression::new_pi(
        &mut db,
        Binder {
            structure: eager,
            body: zero,
        },
    );
    let second = Expression::new_pi(
        &mut db,
        Binder {
            structure: weak,
            body: zero,
        },
    );
    assert_eq!(db.format_expression(first), "for { a : 0 Sort 12 } => a");
    assert_eq!(db.format_expression(second), "for {{ b : Sort 12 }} -> b");
}

#[test]
fn writes_let_and_inst() {
    let mut db = Database::new();
    let a = Str::new(&mut db, "std");
    let b = Str::new(&mut db, "nat");
    let path = Path::new(&mut db, vec![a, b]);
    let inst = Expression::new_inst(&mut db, path);
    let zero = Expression::new_local(&mut db, DeBruijnIndex::new(0));
    let name = Str::new(&mut db, "n");
    let term = Expression::new_let(&mut db, name, inst, zero);
    assert_eq!(db.format_expression(term), "let n = inst std::nat ;\nn");
}

#[test]
fn writes_intro_and_match() {
    let mut db = Database::new();
    let name = Str::new(&mut db, "Pair");
    let path = Path::new(&mut db, vec![name]);
    let make = Str::new(&mut db, "make");
    let first = Str::new(&mut db, "first");
    let second = Str::new(&mut db, "second");
    let a = Expression::new_sort(&mut db, Universe(1));
    let b = Expression::new_sort(&mut db, Universe(2));
    let intro = Expression::new_intro(
        &mut db,
        path,
        vec![a, b],
        make,
        VecMap::from(vec![(first, a), (second, b)]),
    );
    assert_eq!(
        db.format_expression(intro),
        "intro Pair ( Sort 1 ) ( Sort 2 ) / make {\nfirst = Sort 1 , \nsecond = Sort 2 , \n}"
    );
    let matching = Expression::new_match(
        &mut db,
        intro,
        a,
        VecMap::from(vec![(make, b), (first, a)]),
    );
    assert_eq!(
        db.format_expression(matching),
        "match intro Pair ( Sort 1 ) ( Sort 2 ) / make {\nfirst = Sort 1 , \nsecond = Sort 2 , \n} return Sort 1 {\nmake -> Sort 2 ,\nfirst -> Sort 1 ,\n}"
    );
    let empty = Expression::new_intro(&mut db, path, Vec::new(), make, VecMap::new());
    assert_eq!(db.format_expression(empty), "intro Pair / make {\n}");
}

#[test]
fn writes_fix_with_both_names_in_scope() {
    let mut db = Database::new();
    let sort = Expression::new_sort(&mut db, Universe(0));
    let zero = Expression::new_local(&mut db, DeBruijnIndex::new(0));
    let one = Expression::new_local(&mut db, DeBruijnIndex::new(1));
    let body = Expression::new_apply(&mut db, zero, one);
    let s = explicit(&mut db, "n", sort);
    let rec_name = Str::new(&mut db, "rec");
    let fix = Expression::new_fix(
        &mut db,
        Binder {
            structure: s,
            body: zero,
        },
        rec_name,
        body,
    );
    assert_eq!(
        db.format_expression(fix),
        "fix ( n : Sort 0 ) -> n with rec ; rec ( n )"
    );
}

#[test]
fn writes_references_and_loans() {
    let mut db = Database::new();
    let sort = Expression::new_sort(&mut db, Universe(0));
    let reference = Expression::new_ref(&mut db, sort);
    let dereference = Expression::new_deref(&mut db, reference);
    assert_eq!(db.format_expression(dereference), "* ref Sort 0");
    let into = Expression::new_in(&mut db, reference, sort);
    assert_eq!(db.format_expression(into), "ref Sort 0 in Sort 0");

    let zero = Expression::new_local(&mut db, DeBruijnIndex::new(0));
    let one = Expression::new_local(&mut db, DeBruijnIndex::new(1));
    let two = Expression::new_local(&mut db, DeBruijnIndex::new(2));
    let pair = Expression::new_apply(&mut db, zero, one);
    let body = Expression::new_apply(&mut db, pair, two);
    let r = Str::new(&mut db, "r");
    let p = Str::new(&mut db, "p");
    let loan = Expression::new_loan(&mut db, DeBruijnIndex::new(0), r, p, body);
    let v = Str::new(&mut db, "v");
    let mut out = String::from(">> ");
    write_expression(&db, loan, &vec![v], &mut out);
    assert_eq!(out, ">> loan v as r with p ; p ( r ) ( v )");

    let take = Expression::new_take(
        &mut db,
        DeBruijnIndex::new(0),
        VecMap::from(vec![(DeBruijnIndex::new(1), sort), (DeBruijnIndex::new(0), zero)]),
        zero,
    );
    let mut out = String::new();
    write_expression(&db, take, &vec![v], &mut out);
    assert_eq!(
        out,
        "take v {\n<local 1> -> Sort 0 ,\nv -> v ,\n} ;\nv"
    );
}

#[test]
fn writes_constants_and_holes() {
    let mut db = Database::new();
    let sort = Expression::new_sort(&mut db, Universe(0));
    let s = explicit(&mut db, "c", sort);
    let constant = Expression::new_local_constant(
        &mut db,
        LocalConstant {
            id: LocalConstantId(3),
            structure: s,
        },
    );
    let hole = Expression::new_hole(
        &mut db,
        Hole {
            id: HoleId(41),
            ty: sort,
        },
    );
    let term = Expression::new_apply(&mut db, constant, hole);
    assert_eq!(db.format_expression(term), "c ( <hole 41> )");
}

#[test]
fn writes_the_greatest_universe() {
    let mut db = Database::new();
    let sort = Expression::new_sort(&mut db, Universe(u32::MAX));
    assert_eq!(db.format_expression(sort), "Sort 4294967295");
    let local = Expression::new_local(&mut db, DeBruijnIndex::new(105));
    assert_eq!(db.format_expression(local), "<local 105>");
}
