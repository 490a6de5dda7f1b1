use kernel::database::Database;
use kernel::de_bruijn::DeBruijnIndex;
use kernel::expr::find_replace::AlwaysSkip;
use kernel::expr::util::{IsHole, LocalOrHole, MaxHeight};
use kernel::expr::{
    ArgumentStyle, Binder, BinderStructure, BoundVariable, Expression, Hole, HoleId,
    InvocationStyle, LocalConstant, LocalConstantId, Universe, Usage,
};
use kernel::files::{Path, Str};
use kernel::vec_map::VecMap;

fn structure(db: &mut Database, name: &str, ty: Expression) -> BinderStructure {
    let name = Str::new(db, name);
    BinderStructure {
        bound: BoundVariable {
            name,
            ty,
            usage: Usage::Present,
        },
        argument_style: ArgumentStyle::Explicit,
        invocation_style: InvocationStyle::Once,
    }
}

/// An expression that holds a node of every kind.
fn everything(db: &mut Database) -> Expression {
    let sort = Expression::new_sort(db, Universe(0));
    let zero = Expression::new_local(db, DeBruijnIndex::new(0));
    let one = Expression::new_local(db, DeBruijnIndex::new(1));
    let name = Str::new(db, "n");
    let path = Path::new(db, vec![name]);
    let inst = Expression::new_inst(db, path);
    let apply = Expression::new_apply(db, inst, zero);
    let s = structure(db, "x", sort);
    let lambda = Expression::new_lambda(
        db,
        Binder {
            structure: s,
            body: apply,
        },
    );
    let pi = Expression::new_pi(
        db,
        Binder {
            structure: s,
            body: one,
        },
    );
    let let_in = Expression::new_let(db, name, lambda, pi);
    let intro = Expression::new_intro(
        db,
        path,
        vec![sort, let_in],
        name,
        VecMap::from(vec![(name, zero)]),
    );
    let matching = Expression::new_match(db, intro, sort, VecMap::from(vec![(name, one)]));
    let fix = Expression::new_fix(
        db,
        Binder {
            structure: s,
            body: sort,
        },
        name,
        matching,
    );
    let reference = Expression::new_ref(db, fix);
    let dereference = Expression::new_deref(db, reference);
    let loan = Expression::new_loan(db, DeBruijnIndex::new(0), name, name, dereference);
    let take = Expression::new_take(
        db,
        DeBruijnIndex::new(0),
        VecMap::from(vec![(DeBruijnIndex::new(1), loan)]),
        zero,
    );
    let constant = Expression::new_local_constant(
        db,
        LocalConstant {
            id: LocalConstantId(4),
            structure: s,
        },
    );
    let hole = Expression::new_hole(
        db,
        Hole {
            id: HoleId(5),
            ty: take,
        },
    );
    let pair = Expression::new_apply(db, constant, hole);
    Expression::new_in(db, pair, take)
}

#[test]
fn replace_that_skips_every_node_is_the_identity() {
    let mut db = Database::new();
    let term = everything(&mut db);
    let before = db.expression_count();
    assert_eq!(term.replace(&mut db, &AlwaysSkip), Ok(term));
    assert_eq!(db.expression_count(), before);
}

#[test]
fn find_returns_the_first_match_in_depth_first_order() {
    let mut db = Database::new();
    let sort = Expression::new_sort(&mut db, Universe(0));
    let first = Expression::new_hole(
        &mut db,
        Hole {
            id: HoleId(1),
            ty: sort,
        },
    );
    let second = Expression::new_hole(
        &mut db,
        Hole {
            id: HoleId(2),
            ty: sort,
        },
    );
    let left = Expression::new_apply(&mut db, sort, first);
    let term = Expression::new_apply(&mut db, left, second);
    assert_eq!(term.find(&db, &LocalOrHole), Some(first));
    assert_eq!(term.find(&db, &IsHole { id: HoleId(2) }), Some(second));
    assert_eq!(term.find(&db, &IsHole { id: HoleId(3) }), None);
    assert_eq!(first.find(&db, &LocalOrHole), Some(first));
}

#[test]
fn first_local_or_hole_finds_constants_and_holes() {
    let mut db = Database::new();
    let sort = Expression::new_sort(&mut db, Universe(0));
    assert_eq!(sort.first_local_or_hole(&db), None);
    let s = structure(&mut db, "c", sort);
    let constant = Expression::new_local_constant(
        &mut db,
        LocalConstant {
            id: LocalConstantId(0),
            structure: s,
        },
    );
    let term = Expression::new_ref(&mut db, constant);
    assert_eq!(term.first_local_or_hole(&db), Some(constant));
    let whole = everything(&mut db);
    assert!(whole.first_local_or_hole(&db).is_some());
}

#[test]
fn hole_occurs_looks_at_the_id() {
    let mut db = Database::new();
    let term = everything(&mut db);
    assert!(term.hole_occurs(&db, HoleId(5)));
    assert!(!term.hole_occurs(&db, HoleId(6)));
}

#[test]
fn local_is_bound_counts_the_binders_above() {
    let mut db = Database::new();
    let sort = Expression::new_sort(&mut db, Universe(0));
    let one = Expression::new_local(&mut db, DeBruijnIndex::new(1));
    let s = structure(&mut db, "x", sort);
    // fun x -> #1: the variable #1 under the binder is #0 outside.
    let function = Expression::new_lambda(
        &mut db,
        Binder {
            structure: s,
            body: one,
        },
    );
    assert!(function.local_is_bound(&db, DeBruijnIndex::new(0)));
    assert!(!function.local_is_bound(&db, DeBruijnIndex::new(1)));
    assert!(one.local_is_bound(&db, DeBruijnIndex::new(1)));
    assert!(!one.local_is_bound(&db, DeBruijnIndex::new(0)));
    assert!(!function.local_is_bound(&db, DeBruijnIndex::new(u32::MAX)));
}

#[test]
fn local_is_bound_counts_two_binders_for_a_loan() {
    let mut db = Database::new();
    let name = Str::new(&mut db, "n");
    let two = Expression::new_local(&mut db, DeBruijnIndex::new(2));
    let loan = Expression::new_loan(&mut db, DeBruijnIndex::new(7), name, name, two);
    assert!(loan.local_is_bound(&db, DeBruijnIndex::new(0)));
    assert!(!loan.local_is_bound(&db, DeBruijnIndex::new(2)));
    // The variable that a loan names is not a sub-expression.
    assert!(!loan.local_is_bound(&db, DeBruijnIndex::new(7)));
}

#[test]
fn for_each_expression_visits_every_node() {
    let mut db = Database::new();
    let term = everything(&mut db);
    let mut visitor = MaxHeight { height: 3 };
    term.for_each_expression(&db, &mut visitor);
    assert_eq!(visitor.height, 3);
    assert_eq!(term.get_max_height(&db), 0);
}
