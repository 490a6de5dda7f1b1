use kernel::database::Database;
use kernel::de_bruijn::{DeBruijnIndex, DeBruijnOffset};
use kernel::error::KernelError;
use kernel::expr::{
    ArgumentStyle, Binder, BinderStructure, BoundVariable, Expression, Hole, HoleId,
    InvocationStyle, LocalConstant, LocalConstantId, Universe, Usage,
};
use kernel::files::Str;

fn structure(db: &mut Database, name: &str, ty: Expression) -> BinderStructure {
    let name = Str::new(db, name);
    BinderStructure {
        bound: BoundVariable {
            name,
            ty,
            usage: Usage::Present,
        },
        argument_style: ArgumentStyle::Explicit,
        invocation_style: InvocationStyle::Once,
    }
}

fn lambda(db: &mut Database, name: &str, ty: Expression, body: Expression) -> Expression {
    let structure = structure(db, name, ty);
    Expression::new_lambda(db, Binder { structure, body })
}

fn local(db: &mut Database, index: u32) -> Expression {
    Expression::new_local(db, DeBruijnIndex::new(index))
}

#[test]
fn instantiate_replaces_the_first_free_variable() {
    let mut db = Database::new();
    let zero = local(&mut db, 0);
    let sort = Expression::new_sort(&mut db, Universe(9));
    assert_eq!(zero.instantiate(&mut db, sort), Ok(sort));
}

#[test]
fn instantiate_lowers_the_other_free_variables() {
    let mut db = Database::new();
    let three = local(&mut db, 3);
    let two = local(&mut db, 2);
    let sort = Expression::new_sort(&mut db, Universe(9));
    assert_eq!(three.instantiate(&mut db, sort), Ok(two));
}

#[test]
fn instantiate_leaves_bound_variables_alone() {
    let mut db = Database::new();
    let sort = Expression::new_sort(&mut db, Universe(0));
    let zero = local(&mut db, 0);
    let identity = lambda(&mut db, "x", sort, zero);
    let substitution = Expression::new_sort(&mut db, Universe(9));
    assert_eq!(identity.instantiate(&mut db, substitution), Ok(identity));
}

#[test]
fn instantiate_lifts_the_substitution_under_binders() {
    let mut db = Database::new();
    let sort = Expression::new_sort(&mut db, Universe(0));
    // fun x -> (#1 #2): under the binder, #1 is the variable to replace.
    let one = local(&mut db, 1);
    let two = local(&mut db, 2);
    let body = Expression::new_apply(&mut db, one, two);
    let function = lambda(&mut db, "x", sort, body);
    // The substitution #5 becomes #6 under the binder; #2 becomes #1.
    let five = local(&mut db, 5);
    let six = local(&mut db, 6);
    let expected_body = Expression::new_apply(&mut db, six, one);
    let expected = lambda(&mut db, "x", sort, expected_body);
    assert_eq!(function.instantiate(&mut db, five), Ok(expected));
}

#[test]
fn instantiate_counts_the_two_binders_of_a_fixed_point() {
    let mut db = Database::new();
    let sort = Expression::new_sort(&mut db, Universe(0));
    let rec_name = Str::new(&mut db, "rec");
    let zero = local(&mut db, 0);
    let one = local(&mut db, 1);
    let two = local(&mut db, 2);
    let three = local(&mut db, 3);
    // Under the two binders of the body, #2 is the variable to replace.
    let s = structure(&mut db, "n", sort);
    let fix = Expression::new_fix(
        &mut db,
        Binder {
            structure: s,
            body: one,
        },
        rec_name,
        two,
    );
    let expected = Expression::new_fix(
        &mut db,
        Binder {
            structure: s,
            body: two,
        },
        rec_name,
        three,
    );
    assert_eq!(fix.instantiate(&mut db, one), Ok(expected));
    let _ = zero;
}

#[test]
fn instantiate_fails_when_an_index_does_not_fit() {
    let mut db = Database::new();
    let sort = Expression::new_sort(&mut db, Universe(0));
    let one = local(&mut db, 1);
    let function = lambda(&mut db, "x", sort, one);
    let greatest = local(&mut db, u32::MAX);
    assert_eq!(
        function.instantiate(&mut db, greatest),
        Err(KernelError::IndexOverflow)
    );
}

#[test]
fn lift_raises_free_variables() {
    let mut db = Database::new();
    let zero = local(&mut db, 0);
    let four = local(&mut db, 4);
    assert_eq!(
        zero.lift_free_vars(&mut db, DeBruijnOffset::zero(), DeBruijnOffset::new(4)),
        Ok(four)
    );
}

#[test]
fn lift_leaves_variables_below_the_bias_alone() {
    let mut db = Database::new();
    let one = local(&mut db, 1);
    let two = local(&mut db, 2);
    let five = local(&mut db, 5);
    let pair = Expression::new_apply(&mut db, one, two);
    let expected = Expression::new_apply(&mut db, one, five);
    assert_eq!(
        pair.lift_free_vars(&mut db, DeBruijnOffset::new(2), DeBruijnOffset::new(3)),
        Ok(expected)
    );
}

#[test]
fn lift_leaves_bound_variables_alone() {
    let mut db = Database::new();
    let sort = Expression::new_sort(&mut db, Universe(0));
    let zero = local(&mut db, 0);
    let one = local(&mut db, 1);
    let two = local(&mut db, 2);
    let body = Expression::new_apply(&mut db, zero, one);
    let function = lambda(&mut db, "x", sort, body);
    let expected_body = Expression::new_apply(&mut db, zero, two);
    let expected = lambda(&mut db, "x", sort, expected_body);
    assert_eq!(
        function.lift_free_vars(&mut db, DeBruijnOffset::zero(), DeBruijnOffset::new(1)),
        Ok(expected)
    );
}

#[test]
fn lift_fails_when_an_index_does_not_fit() {
    let mut db = Database::new();
    let greatest = local(&mut db, u32::MAX);
    assert_eq!(
        greatest.lift_free_vars(&mut db, DeBruijnOffset::zero(), DeBruijnOffset::new(1)),
        Err(KernelError::IndexOverflow)
    );
    assert_eq!(
        greatest.lift_free_vars(&mut db, DeBruijnOffset::zero(), DeBruijnOffset::zero()),
        Ok(greatest)
    );
}

#[test]
fn abstract_binder_binds_the_constant() {
    let mut db = Database::new();
    let sort = Expression::new_sort(&mut db, Universe(0));
    let s = structure(&mut db, "c", sort);
    let constant = LocalConstant {
        id: LocalConstantId(1),
        structure: s,
    };
    let other = LocalConstant {
        id: LocalConstantId(2),
        structure: s,
    };
    let c = Expression::new_local_constant(&mut db, constant);
    let d = Expression::new_local_constant(&mut db, other);
    let inner = Expression::new_apply(&mut db, c, d);
    let term = lambda(&mut db, "x", sort, inner);

    let one = local(&mut db, 1);
    let expected_inner = Expression::new_apply(&mut db, one, d);
    let expected = lambda(&mut db, "x", sort, expected_inner);
    assert_eq!(
        term.abstract_binder(&mut db, constant),
        Ok(Binder {
            structure: s,
            body: expected
        })
    );
}

#[test]
fn instantiating_an_abstracted_constant_gives_the_expression_back() {
    let mut db = Database::new();
    let sort = Expression::new_sort(&mut db, Universe(0));
    let s = structure(&mut db, "c", sort);
    let constant = LocalConstant {
        id: LocalConstantId(1),
        structure: s,
    };
    let c = Expression::new_local_constant(&mut db, constant);
    let zero = local(&mut db, 0);
    let inner = Expression::new_apply(&mut db, zero, c);
    let function = lambda(&mut db, "x", sort, inner);
    let term = Expression::new_apply(&mut db, function, c);

    let binder = term
        .abstract_binder(&mut db, constant)
        .expect("the constant lies under one binder at most");
    assert_ne!(binder.body, term);
    assert_eq!(binder.body.instantiate(&mut db, c), Ok(term));
}

#[test]
fn fill_hole_fills_the_hole_with_the_given_id() {
    let mut db = Database::new();
    let sort = Expression::new_sort(&mut db, Universe(0));
    let first = Expression::new_hole(
        &mut db,
        Hole {
            id: HoleId(1),
            ty: sort,
        },
    );
    let second = Expression::new_hole(
        &mut db,
        Hole {
            id: HoleId(2),
            ty: sort,
        },
    );
    let pair = Expression::new_apply(&mut db, first, second);
    let term = lambda(&mut db, "x", sort, pair);

    let three = local(&mut db, 3);
    let four = local(&mut db, 4);
    let expected_pair = Expression::new_apply(&mut db, four, second);
    let expected = lambda(&mut db, "x", sort, expected_pair);
    assert_eq!(term.fill_hole(&mut db, HoleId(1), three), Ok(expected));
    assert_eq!(term.fill_hole(&mut db, HoleId(7), three), Ok(term));
}

#[test]
fn replace_local_replaces_the_constant_with_the_given_id() {
    let mut db = Database::new();
    let sort = Expression::new_sort(&mut db, Universe(0));
    let s = structure(&mut db, "c", sort);
    let constant = LocalConstant {
        id: LocalConstantId(1),
        structure: s,
    };
    let c = Expression::new_local_constant(&mut db, constant);
    let term = lambda(&mut db, "x", sort, c);
    let zero = local(&mut db, 0);
    let one = local(&mut db, 1);
    let expected = lambda(&mut db, "x", sort, one);
    assert_eq!(term.replace_local(&mut db, &constant, zero), Ok(expected));
    let greatest = local(&mut db, u32::MAX);
    assert_eq!(
        term.replace_local(&mut db, &constant, greatest),
        Err(KernelError::IndexOverflow)
    );
}

#[test]
fn instantiating_a_raised_expression_gives_the_expression_back() {
    let mut db = Database::new();
    let sort = Expression::new_sort(&mut db, Universe(0));
    let zero = local(&mut db, 0);
    let one = local(&mut db, 1);
    let three = local(&mut db, 3);
    let inner = Expression::new_apply(&mut db, zero, one);
    let inner = Expression::new_apply(&mut db, inner, three);
    let term = lambda(&mut db, "x", sort, inner);
    let raised = term
        .lift_free_vars(&mut db, DeBruijnOffset::zero(), DeBruijnOffset::new(1))
        .expect("the indices are small");
    assert_ne!(raised, term);
    assert!(!raised.local_is_bound(&db, DeBruijnIndex::new(0)));
    let anything = local(&mut db, 77);
    assert_eq!(raised.instantiate(&mut db, anything), Ok(term));
}
