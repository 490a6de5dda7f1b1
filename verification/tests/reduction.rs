use kernel::database::Database;
use kernel::error::KernelError;
use kernel::expr::{
    ArgumentStyle, Binder, BinderStructure, BoundVariable, Expression, InvocationStyle, Universe,
    Usage,
};
use kernel::vec_map::VecMap;

fn binder(db: &mut Database, name: &str, ty: Expression, body: Expression) -> Binder {
    let name = db.intern_str(name);
    Binder {
        structure: BinderStructure {
            bound: BoundVariable {
                name,
                ty,
                usage: Usage::Present,
            },
            argument_style: ArgumentStyle::Explicit,
            invocation_style: InvocationStyle::Once,
        },
        body,
    }
}

#[test]
fn beta_reduction_of_identity_application() {
    let mut db = Database::new();
    let sort0 = Expression::new_sort(&mut db, Universe(0));
    let sort5 = Expression::new_sort(&mut db, Universe(5));
    let x = Expression::new_local(&mut db, kernel::de_bruijn::DeBruijnIndex::zero());
    let b = binder(&mut db, "x", sort0, x);
    let lambda = Expression::new_lambda(&mut db, b);
    let app = Expression::new_apply(&mut db, lambda, sort5);
    assert_eq!(app.weak_head_normal_form(&mut db), Ok(sort5));
}

#[test]
fn zeta_reduction_of_let() {
    let mut db = Database::new();
    let sort3 = Expression::new_sort(&mut db, Universe(3));
    let x = Expression::new_local(&mut db, kernel::de_bruijn::DeBruijnIndex::zero());
    let name = db.intern_str("x");
    let e = Expression::new_let(&mut db, name, sort3, x);
    assert_eq!(e.weak_head_normal_form(&mut db), Ok(sort3));
}

#[test]
fn iota_reduction_picks_the_case_of_the_variant() {
    let mut db = Database::new();
    let bool_name = db.intern_str("Bool");
    let bool_path = db.intern_path(vec![bool_name]);
    let t = db.intern_str("true");
    let f = db.intern_str("false");
    let subject = Expression::new_intro(&mut db, bool_path, Vec::new(), t, VecMap::new());
    let a = Expression::new_sort(&mut db, Universe(1));
    let b = Expression::new_sort(&mut db, Universe(2));
    let return_ty = Expression::new_sort(&mut db, Universe(7));
    let cases = VecMap::from(vec![(t, a), (f, b)]);
    let m = Expression::new_match(&mut db, subject, return_ty, cases);
    assert_eq!(m.weak_head_normal_form(&mut db), Ok(a));
}

#[test]
fn omega_runs_into_the_reduction_limit() {
    let mut db = Database::new();
    let sort0 = Expression::new_sort(&mut db, Universe(0));
    let x = Expression::new_local(&mut db, kernel::de_bruijn::DeBruijnIndex::zero());
    let xx = Expression::new_apply(&mut db, x, x);
    let b = binder(&mut db, "x", sort0, xx);
    let w = Expression::new_lambda(&mut db, b);
    let omega = Expression::new_apply(&mut db, w, w);
    assert_eq!(
        omega.weak_head_normal_form(&mut db),
        Err(KernelError::ReductionLimit)
    );
}

#[test]
fn a_match_without_a_case_for_its_subject_is_reported() {
    let mut db = Database::new();
    let bool_name = db.intern_str("Bool");
    let bool_path = db.intern_path(vec![bool_name]);
    let t = db.intern_str("true");
    let f = db.intern_str("false");
    let subject = Expression::new_intro(&mut db, bool_path, Vec::new(), t, VecMap::new());
    let b = Expression::new_sort(&mut db, Universe(2));
    let return_ty = Expression::new_sort(&mut db, Universe(7));
    let m = Expression::new_match(&mut db, subject, return_ty, VecMap::from(vec![(f, b)]));
    assert_eq!(
        m.weak_head_normal_form(&mut db),
        Err(KernelError::MissingCase)
    );
}

#[test]
fn iota_reduction_applies_the_case_to_the_fields_in_order() {
    let mut db = Database::new();
    let pair_name = db.intern_str("Pair");
    let pair_path = db.intern_path(vec![pair_name]);
    let make = db.intern_str("make");
    let first = db.intern_str("first");
    let second = db.intern_str("second");
    let sort0 = Expression::new_sort(&mut db, Universe(0));
    let a = Expression::new_sort(&mut db, Universe(1));
    let b = Expression::new_sort(&mut db, Universe(2));
    let subject = Expression::new_intro(
        &mut db,
        pair_path,
        vec![sort0],
        make,
        VecMap::from(vec![(first, a), (second, b)]),
    );
    // fun x -> fun y -> x: applied to the fields, gives the first field.
    let one = Expression::new_local(&mut db, kernel::de_bruijn::DeBruijnIndex::new(1));
    let inner = binder(&mut db, "y", sort0, one);
    let inner = Expression::new_lambda(&mut db, inner);
    let outer = binder(&mut db, "x", sort0, inner);
    let take_first = Expression::new_lambda(&mut db, outer);
    let m = Expression::new_match(
        &mut db,
        subject,
        sort0,
        VecMap::from(vec![(first, sort0), (make, take_first)]),
    );
    assert_eq!(m.weak_head_normal_form(&mut db), Ok(a));
}

#[test]
fn a_match_on_something_else_keeps_its_cases() {
    let mut db = Database::new();
    let t = db.intern_str("true");
    let sort0 = Expression::new_sort(&mut db, Universe(0));
    let sort5 = Expression::new_sort(&mut db, Universe(5));
    let x = Expression::new_local(&mut db, kernel::de_bruijn::DeBruijnIndex::zero());
    let b = binder(&mut db, "x", sort0, x);
    let identity = Expression::new_lambda(&mut db, b);
    let subject = Expression::new_apply(&mut db, identity, sort5);
    let m = Expression::new_match(&mut db, subject, sort0, VecMap::from(vec![(t, sort0)]));
    let expected = Expression::new_match(&mut db, sort5, sort0, VecMap::from(vec![(t, sort0)]));
    assert_eq!(m.weak_head_normal_form(&mut db), Ok(expected));
}

#[test]
fn fix_reduction_puts_the_fixed_point_and_the_argument_into_the_body() {
    let mut db = Database::new();
    let sort0 = Expression::new_sort(&mut db, Universe(0));
    let sort3 = Expression::new_sort(&mut db, Universe(3));
    let rec_name = db.intern_str("rec");
    // fix (n : Sort 0) -> Sort 0 with rec ; n: the body is the subject, #1.
    let one = Expression::new_local(&mut db, kernel::de_bruijn::DeBruijnIndex::new(1));
    let b = binder(&mut db, "n", sort0, sort0);
    let fix = Expression::new_fix(&mut db, b, rec_name, one);
    let applied = Expression::new_apply(&mut db, fix, sort3);
    assert_eq!(applied.weak_head_normal_form(&mut db), Ok(sort3));
    // fix ... with rec ; rec: the body is the fixed point itself, #0.
    let zero = Expression::new_local(&mut db, kernel::de_bruijn::DeBruijnIndex::new(0));
    let itself = Expression::new_fix(&mut db, b, rec_name, zero);
    let applied = Expression::new_apply(&mut db, itself, sort3);
    assert_eq!(applied.weak_head_normal_form(&mut db), Ok(itself));
    // fix ... with rec ; rec n: the body calls the fixed point again.
    let again = Expression::new_apply(&mut db, zero, one);
    let looping = Expression::new_fix(&mut db, b, rec_name, again);
    let applied = Expression::new_apply(&mut db, looping, sort3);
    assert_eq!(
        applied.weak_head_normal_form(&mut db),
        Err(KernelError::ReductionLimit)
    );
}

#[test]
fn an_application_of_something_else_keeps_its_argument() {
    let mut db = Database::new();
    let sort0 = Expression::new_sort(&mut db, Universe(0));
    let sort5 = Expression::new_sort(&mut db, Universe(5));
    let x = Expression::new_local(&mut db, kernel::de_bruijn::DeBruijnIndex::zero());
    let b = binder(&mut db, "x", sort0, x);
    let identity = Expression::new_lambda(&mut db, b);
    // (id #3) (id #4) reduces at the head only.
    let three = Expression::new_local(&mut db, kernel::de_bruijn::DeBruijnIndex::new(3));
    let head = Expression::new_apply(&mut db, identity, three);
    let argument = Expression::new_apply(&mut db, identity, sort5);
    let term = Expression::new_apply(&mut db, head, argument);
    let expected = Expression::new_apply(&mut db, three, argument);
    assert_eq!(term.weak_head_normal_form(&mut db), Ok(expected));
    assert_eq!(expected.weak_head_normal_form(&mut db), Ok(expected));
}

#[test]
fn reduction_fails_when_an_index_does_not_fit() {
    let mut db = Database::new();
    let sort0 = Expression::new_sort(&mut db, Universe(0));
    // fun x -> fun y -> x, applied to the greatest index: under `y` the
    // argument would have to be raised.
    let one = Expression::new_local(&mut db, kernel::de_bruijn::DeBruijnIndex::new(1));
    let inner = binder(&mut db, "y", sort0, one);
    let inner = Expression::new_lambda(&mut db, inner);
    let outer = binder(&mut db, "x", sort0, inner);
    let constant = Expression::new_lambda(&mut db, outer);
    let greatest = Expression::new_local(&mut db, kernel::de_bruijn::DeBruijnIndex::new(u32::MAX));
    let term = Expression::new_apply(&mut db, constant, greatest);
    assert_eq!(
        term.weak_head_normal_form(&mut db),
        Err(KernelError::IndexOverflow)
    );
}

#[test]
fn the_limit_counts_nested_steps() {
    let mut db = Database::new();
    let sort0 = Expression::new_sort(&mut db, Universe(0));
    let sort5 = Expression::new_sort(&mut db, Universe(5));
    let x = Expression::new_local(&mut db, kernel::de_bruijn::DeBruijnIndex::zero());
    let b = binder(&mut db, "x", sort0, x);
    let identity = Expression::new_lambda(&mut db, b);
    let once = Expression::new_apply(&mut db, identity, sort5);
    let twice = Expression::new_apply(&mut db, identity, once);
    assert_eq!(sort5.whnf(&mut db, 0), Ok(sort5));
    assert_eq!(once.whnf(&mut db, 0), Err(KernelError::ReductionLimit));
    assert_eq!(once.whnf(&mut db, 1), Ok(sort5));
    assert_eq!(twice.whnf(&mut db, 1), Err(KernelError::ReductionLimit));
    assert_eq!(twice.whnf(&mut db, 2), Ok(sort5));
    assert_eq!(twice.whnf_core(&mut db, 2), Ok(sort5));
}
