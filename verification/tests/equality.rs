use kernel::database::Database;
use kernel::de_bruijn::DeBruijnIndex;
use kernel::error::KernelError;
use kernel::expr::{
    ArgumentStyle, Binder, BinderStructure, BoundVariable, Expression, InvocationStyle, Universe,
    Usage,
};
use kernel::files::Str;

fn lambda(db: &mut Database, name: &str, ty: Expression, body: Expression) -> Expression {
    let name = Str::new(db, name);
    let structure = BinderStructure {
        bound: BoundVariable {
            name,
            ty,
            usage: Usage::Present,
        },
        argument_style: ArgumentStyle::Explicit,
        invocation_style: InvocationStyle::Once,
    };
    Expression::new_lambda(db, Binder { structure, body })
}

#[test]
fn an_expression_equals_itself() {
    let mut db = Database::new();
    db.set_reduction_limit(0);
    let sort = Expression::new_sort(&mut db, Universe(1));
    assert_eq!(sort.definitionally_equal(&mut db, sort), Ok(true));
}

#[test]
fn different_universes_are_not_equal() {
    let mut db = Database::new();
    let one = Expression::new_sort(&mut db, Universe(1));
    let two = Expression::new_sort(&mut db, Universe(2));
    assert_eq!(one.definitionally_equal(&mut db, two), Ok(false));
}

#[test]
fn equality_reduces_both_sides() {
    let mut db = Database::new();
    let sort0 = Expression::new_sort(&mut db, Universe(0));
    let sort5 = Expression::new_sort(&mut db, Universe(5));
    let zero = Expression::new_local(&mut db, DeBruijnIndex::new(0));
    let identity = lambda(&mut db, "x", sort0, zero);
    let applied = Expression::new_apply(&mut db, identity, sort5);
    assert_eq!(applied.definitionally_equal(&mut db, sort5), Ok(true));
    assert_eq!(sort5.definitionally_equal(&mut db, applied), Ok(true));
    assert_eq!(applied.definitionally_equal(&mut db, sort0), Ok(false));
}

#[test]
fn equality_ignores_the_names_of_bound_variables() {
    let mut db = Database::new();
    let sort0 = Expression::new_sort(&mut db, Universe(0));
    let zero = Expression::new_local(&mut db, DeBruijnIndex::new(0));
    let x = lambda(&mut db, "x", sort0, zero);
    let y = lambda(&mut db, "y", sort0, zero);
    assert_ne!(x, y);
    assert_eq!(x.definitionally_equal(&mut db, y), Ok(true));
}

#[test]
fn equality_looks_under_binders() {
    let mut db = Database::new();
    let sort0 = Expression::new_sort(&mut db, Universe(0));
    let sort5 = Expression::new_sort(&mut db, Universe(5));
    let zero = Expression::new_local(&mut db, DeBruijnIndex::new(0));
    let identity = lambda(&mut db, "x", sort0, zero);
    let applied = Expression::new_apply(&mut db, identity, sort5);
    let left = lambda(&mut db, "a", sort0, applied);
    let right = lambda(&mut db, "b", sort0, sort5);
    let other = lambda(&mut db, "b", sort0, sort0);
    assert_eq!(left.definitionally_equal(&mut db, right), Ok(true));
    assert_eq!(left.definitionally_equal(&mut db, other), Ok(false));
}

#[test]
fn equality_gives_up_at_the_limit() {
    let mut db = Database::new();
    db.set_reduction_limit(0);
    let one = Expression::new_sort(&mut db, Universe(1));
    let two = Expression::new_sort(&mut db, Universe(2));
    assert_eq!(
        one.definitionally_equal(&mut db, two),
        Err(KernelError::ReductionLimit)
    );
    assert_eq!(one.defeq(&mut db, two, 1), Ok(false));
}
