use kernel::database::Database;
use kernel::de_bruijn::DeBruijnIndex;
use kernel::definition::Definition;
use kernel::expr::{
    ArgumentStyle, Binder, BinderStructure, BoundVariable, Expression, InvocationStyle, Universe,
    Usage,
};
use kernel::files::{Path, WithProvenance};
use kernel::type_check::{definition_height, Reducibility, TypeError};
use kernel::{certify_definition, get_certified_definition, get_definition};

fn binder(db: &mut Database, name: &str, ty: Expression, body: Expression) -> Binder {
    let name = db.intern_str(name);
    Binder {
        structure: BinderStructure {
            bound: BoundVariable {
                name,
                ty,
                usage: Usage::Present,
            },
            argument_style: ArgumentStyle::Explicit,
            invocation_style: InvocationStyle::Once,
        },
        body,
    }
}

fn path(db: &mut Database, name: &str) -> Path {
    let segment = db.intern_str(name);
    db.intern_path(vec![segment])
}

fn define(db: &mut Database, name: &str, ty: Expression, body: Option<Expression>) -> Path {
    let at = path(db, name);
    let name = db.intern_str(name);
    let def = Definition {
        name: WithProvenance::new(None, name),
        usage: Usage::Present,
        ty,
        body,
    };
    assert!(db.define(at, def));
    at
}

/// `(A : Sort 0) -> (x : A) -> A`
fn identity_type(db: &mut Database) -> Expression {
    let sort0 = Expression::new_sort(db, Universe(0));
    let a = Expression::new_local(db, DeBruijnIndex::new(0));
    let a_under_x = Expression::new_local(db, DeBruijnIndex::new(1));
    let inner = binder(db, "x", a, a_under_x);
    let inner = Expression::new_pi(db, inner);
    let outer = binder(db, "A", sort0, inner);
    Expression::new_pi(db, outer)
}

/// `fun (A : Sort 0) -> fun (x : A) -> x`
fn identity_body(db: &mut Database) -> Expression {
    let sort0 = Expression::new_sort(db, Universe(0));
    let a = Expression::new_local(db, DeBruijnIndex::new(0));
    let x = Expression::new_local(db, DeBruijnIndex::new(0));
    let inner = binder(db, "x", a, x);
    let inner = Expression::new_lambda(db, inner);
    let outer = binder(db, "A", sort0, inner);
    Expression::new_lambda(db, outer)
}

#[test]
fn certifies_the_identity_function() {
    let mut db = Database::new();
    let ty = identity_type(&mut db);
    let body = identity_body(&mut db);
    let id = define(&mut db, "id", ty, Some(body));
    let result = certify_definition(&mut db, id);
    let certified = *result.value().expect("the identity function is well typed");
    assert_eq!(certified.universe(), Universe(1));
    assert_eq!(
        certified.reducibility(),
        Reducibility::Reducible { height: 0 }
    );
    assert_eq!(certified.def().ty, ty);
    assert_eq!(certified.def().body, Some(body));
    assert_eq!(definition_height(&db, id), Some(0));
}

#[test]
fn certification_is_remembered() {
    let mut db = Database::new();
    let ty = identity_type(&mut db);
    let body = identity_body(&mut db);
    let id = define(&mut db, "id", ty, Some(body));
    let first = get_certified_definition(&mut db, id);
    let second = get_certified_definition(&mut db, id);
    assert!(first.is_some());
    assert_eq!(first, second);
    assert_eq!(db.get_certified(id), first.as_ref());
}

#[test]
fn height_is_one_more_than_that_of_the_definitions_mentioned() {
    let mut db = Database::new();
    let ty = identity_type(&mut db);
    let body = identity_body(&mut db);
    let id = define(&mut db, "id", ty, Some(body));
    let inst = Expression::new_inst(&mut db, id);
    let again = define(&mut db, "again", ty, Some(inst));
    let inst_again = Expression::new_inst(&mut db, again);
    let third = define(&mut db, "third", ty, Some(inst_again));
    assert!(get_certified_definition(&mut db, id).is_some());
    let certified = get_certified_definition(&mut db, again).expect("well typed");
    assert_eq!(
        certified.reducibility(),
        Reducibility::Reducible { height: 1 }
    );
    assert_eq!(inst.get_max_height(&db), 0);
    let certified = get_certified_definition(&mut db, third).expect("well typed");
    assert_eq!(
        certified.reducibility(),
        Reducibility::Reducible { height: 2 }
    );
    assert_eq!(inst_again.get_max_height(&db), 1);
    assert_eq!(inst_again.head_definition_height(&db), Some(1));
}

#[test]
fn a_definition_without_a_body_is_irreducible() {
    let mut db = Database::new();
    let ty = identity_type(&mut db);
    let postulate = define(&mut db, "postulate", ty, None);
    let certified = get_certified_definition(&mut db, postulate).expect("the type is a type");
    assert_eq!(certified.reducibility(), Reducibility::Irreducible);
    assert_eq!(certified.universe(), Universe(1));
    assert_eq!(definition_height(&db, postulate), None);
    let inst = Expression::new_inst(&mut db, postulate);
    assert_eq!(inst.unfold_definition(&mut db), None);
}

#[test]
fn a_missing_dependency_fails_the_certification() {
    let mut db = Database::new();
    let ty = identity_type(&mut db);
    let missing = path(&mut db, "missing");
    let inst = Expression::new_inst(&mut db, missing);
    let user = define(&mut db, "user", ty, Some(inst));
    let result = certify_definition(&mut db, user);
    let error = result.error().expect("the dependency is not certified");
    assert_eq!(error.path, user);
    assert_eq!(error.error, TypeError::NotCertified { path: missing });
    assert_eq!(get_certified_definition(&mut db, user), None);
    assert_eq!(db.get_certified(user), None);
}

#[test]
fn a_failed_dependency_fails_the_dependent_definition() {
    let mut db = Database::new();
    let ty = identity_type(&mut db);
    let sort0 = Expression::new_sort(&mut db, Universe(0));
    // `Sort 0` does not have the type of the identity function.
    let broken = define(&mut db, "broken", ty, Some(sort0));
    let inst = Expression::new_inst(&mut db, broken);
    let user = define(&mut db, "user", ty, Some(inst));
    let result = certify_definition(&mut db, broken);
    let sort1 = Expression::new_sort(&mut db, Universe(1));
    assert_eq!(
        result.error().map(|error| error.error),
        Some(TypeError::Mismatch {
            term: sort0,
            expected: ty,
            actual: sort1
        })
    );
    let result = certify_definition(&mut db, user);
    assert_eq!(
        result.error().map(|error| error.error),
        Some(TypeError::NotCertified { path: broken })
    );
}

#[test]
fn an_undefined_path_cannot_be_certified() {
    let mut db = Database::new();
    let nowhere = path(&mut db, "nowhere");
    assert!(get_definition(&db, nowhere).is_err());
    let result = certify_definition(&mut db, nowhere);
    assert_eq!(
        result.error().map(|error| error.error),
        Some(TypeError::Undefined { path: nowhere })
    );
}

#[test]
fn a_definition_is_given_only_once() {
    let mut db = Database::new();
    let ty = identity_type(&mut db);
    let body = identity_body(&mut db);
    let id = define(&mut db, "id", ty, Some(body));
    let name = db.intern_str("id");
    let other = Definition {
        name: WithProvenance::new(None, name),
        usage: Usage::Erased,
        ty,
        body: None,
    };
    assert!(!db.define(id, other));
    assert_eq!(db.get_definition(id).map(|def| def.body), Some(Some(body)));
}

#[test]
fn a_definition_that_mentions_itself_is_irreducible() {
    let mut db = Database::new();
    let ty = identity_type(&mut db);
    let own = path(&mut db, "loop");
    let inst = Expression::new_inst(&mut db, own);
    let name = db.intern_str("loop");
    let def = Definition {
        name: WithProvenance::new(None, name),
        usage: Usage::Present,
        ty,
        body: Some(inst),
    };
    assert!(db.define(own, def));
    let certified = get_certified_definition(&mut db, own).expect("typed by its own type");
    assert_eq!(certified.reducibility(), Reducibility::Irreducible);
    assert_eq!(inst.unfold_definition(&mut db), None);
}

#[test]
fn delta_reduction_unfolds_the_head() {
    let mut db = Database::new();
    let ty = identity_type(&mut db);
    let body = identity_body(&mut db);
    let id = define(&mut db, "id", ty, Some(body));
    assert!(get_certified_definition(&mut db, id).is_some());
    // `id (Sort 0) (Sort 0)` is not well typed, but reduces all the same.
    let inst = Expression::new_inst(&mut db, id);
    let sort0 = Expression::new_sort(&mut db, Universe(0));
    let sort4 = Expression::new_sort(&mut db, Universe(4));
    let first = Expression::new_apply(&mut db, inst, sort0);
    let second = Expression::new_apply(&mut db, first, sort4);
    assert_eq!(second.head_definition_height(&db), Some(0));
    assert_eq!(second.weak_head_normal_form(&mut db), Ok(sort4));
}

fn certify(db: &mut Database, ty: Expression, body: Expression) -> Option<TypeError<Expression>> {
    let at = define(db, "checked", ty, Some(body));
    let result = certify_definition(db, at);
    result.error().map(|error| error.error)
}

#[test]
fn a_free_variable_is_not_well_typed() {
    let mut db = Database::new();
    let ty = identity_type(&mut db);
    let free = Expression::new_local(&mut db, DeBruijnIndex::new(0));
    assert_eq!(
        certify(&mut db, ty, free),
        Some(TypeError::UnboundVariable { term: free })
    );
}

#[test]
fn the_type_of_a_definition_must_be_a_type() {
    let mut db = Database::new();
    let body = identity_body(&mut db);
    let ty = identity_type(&mut db);
    // The identity function is not a type: its type is a function type.
    assert_eq!(
        certify(&mut db, body, body),
        Some(TypeError::ExpectedSort {
            term: body,
            actual: ty
        })
    );
}

#[test]
fn only_functions_are_applied() {
    let mut db = Database::new();
    let ty = identity_type(&mut db);
    let sort0 = Expression::new_sort(&mut db, Universe(0));
    let sort1 = Expression::new_sort(&mut db, Universe(1));
    let applied = Expression::new_apply(&mut db, sort0, sort0);
    assert_eq!(
        certify(&mut db, ty, applied),
        Some(TypeError::ExpectedFunction {
            term: sort0,
            actual: sort1
        })
    );
}

#[test]
fn an_argument_must_have_the_type_of_the_parameter() {
    let mut db = Database::new();
    let ty = identity_type(&mut db);
    let body = identity_body(&mut db);
    let sort0 = Expression::new_sort(&mut db, Universe(0));
    let sort1 = Expression::new_sort(&mut db, Universe(1));
    let sort2 = Expression::new_sort(&mut db, Universe(2));
    // The identity function takes a type in `Sort 0`; `Sort 1` lives in `Sort 2`.
    let applied = Expression::new_apply(&mut db, body, sort1);
    assert_eq!(
        certify(&mut db, ty, applied),
        Some(TypeError::Mismatch {
            term: sort1,
            expected: sort0,
            actual: sort2
        })
    );
}

#[test]
fn an_application_has_the_result_type_with_the_argument_put_in() {
    let mut db = Database::new();
    let body = identity_body(&mut db);
    // A type in `Sort 0`: `(A : Sort 0) -> A`... is too big; take a variable
    // through a definition without a body instead.
    let sort0 = Expression::new_sort(&mut db, Universe(0));
    let unit = define(&mut db, "Unit", sort0, None);
    assert!(get_certified_definition(&mut db, unit).is_some());
    let unit = Expression::new_inst(&mut db, unit);
    // `id Unit : (x : Unit) -> Unit`
    let applied = Expression::new_apply(&mut db, body, unit);
    let expected = binder(&mut db, "x", unit, unit);
    let expected = Expression::new_pi(&mut db, expected);
    let at = define(&mut db, "id_unit", expected, Some(applied));
    let certified = get_certified_definition(&mut db, at).expect("well typed");
    assert_eq!(certified.universe(), Universe(0));
    assert_eq!(
        applied.infer_type(&mut db, None, &Vec::new(), 16),
        Ok(expected)
    );
    assert_eq!(expected.infer_sort(&mut db, None, &Vec::new(), 16), Ok(Universe(0)));
}

#[test]
fn a_local_definition_has_the_type_of_its_body() {
    let mut db = Database::new();
    let sort0 = Expression::new_sort(&mut db, Universe(0));
    let sort1 = Expression::new_sort(&mut db, Universe(1));
    let sort2 = Expression::new_sort(&mut db, Universe(2));
    let zero = Expression::new_local(&mut db, DeBruijnIndex::new(0));
    let name = db.intern_str("t");
    // let t = Sort 0 ; t
    let bound = Expression::new_let(&mut db, name, sort0, zero);
    assert_eq!(bound.infer_type(&mut db, None, &Vec::new(), 16), Ok(sort1));
    assert_eq!(certify(&mut db, sort1, bound), None);
    let at = define(&mut db, "wrong", sort2, Some(bound));
    let result = certify_definition(&mut db, at);
    assert_eq!(
        result.error().map(|error| error.error),
        Some(TypeError::Mismatch {
            term: bound,
            expected: sort2,
            actual: sort1
        })
    );
}

#[test]
fn the_borrowing_forms_have_no_typing_rule() {
    let mut db = Database::new();
    let sort0 = Expression::new_sort(&mut db, Universe(0));
    let sort1 = Expression::new_sort(&mut db, Universe(1));
    let reference = Expression::new_ref(&mut db, sort0);
    assert_eq!(
        certify(&mut db, sort1, reference),
        Some(TypeError::Unsupported { term: reference })
    );
}

#[test]
fn the_greatest_universe_lives_nowhere() {
    let mut db = Database::new();
    let greatest = Expression::new_sort(&mut db, Universe(u32::MAX));
    let below = Expression::new_sort(&mut db, Universe(u32::MAX - 1));
    assert_eq!(
        certify(&mut db, greatest, below),
        Some(TypeError::UniverseOverflow { term: greatest })
    );
}

#[test]
fn type_checking_gives_up_at_the_limit() {
    let mut db = Database::new();
    db.set_reduction_limit(1);
    let ty = identity_type(&mut db);
    let body = identity_body(&mut db);
    assert_eq!(
        certify(&mut db, ty, body),
        Some(TypeError::Kernel {
            error: kernel::error::KernelError::ReductionLimit
        })
    );
}

#[test]
fn certification_attaches_the_place_of_the_definition() {
    let mut db = Database::new();
    let at = path(&mut db, "somewhere");
    let name = db.intern_str("somewhere");
    let source = kernel::files::Source::new(at, kernel::files::SourceType::Feather);
    let provenance = Some(kernel::files::SourceSpan::new(
        source,
        kernel::files::Span::new(4, 13),
    ));
    let free = Expression::new_local(&mut db, DeBruijnIndex::new(0));
    let def = Definition {
        name: WithProvenance::new(provenance, name),
        usage: Usage::Present,
        ty: free,
        body: None,
    };
    assert!(db.define(at, def));
    let result = certify_definition(&mut db, at);
    let error = *result.error().expect("a free variable is no type");
    assert_eq!(error.path, at);
    assert_eq!(error.provenance, provenance);
    assert_eq!(error.error, TypeError::UnboundVariable { term: free });
    assert!(result.non_fatal().is_empty());
}

#[test]
fn the_kernel_certifies_with_any_origin() {
    let mut db = Database::new();
    let ty = identity_type(&mut db);
    let body = identity_body(&mut db);
    let at = path(&mut db, "List");
    let name = db.intern_str("List");
    let def = Definition {
        name: WithProvenance::new(None, name),
        usage: Usage::Present,
        ty,
        body: Some(body),
    };
    let origin = kernel::type_check::DefinitionOrigin::TypeDeclaration { inductive: at };
    let first = kernel::type_check::certify_definition(&mut db, at, &def, origin);
    let first = *first.value().expect("well typed");
    assert_eq!(first.origin(), origin);
    assert_eq!(first.def(), &def);
    let second = kernel::type_check::certify_definition(
        &mut db,
        at,
        &def,
        kernel::type_check::DefinitionOrigin::Feather,
    );
    let second = *second.value().expect("well typed");
    assert_eq!(first.universe(), second.universe());
    assert_eq!(first.reducibility(), second.reducibility());
    // Nothing was recorded.
    assert_eq!(db.get_certified(at), None);
}

#[test]
fn reducibility_is_written_in_words() {
    assert_eq!(
        Reducibility::Reducible { height: 12 }.to_string(),
        "reducible definition with height 12"
    );
    assert_eq!(Reducibility::Irreducible.to_string(), "irreducible definition");
}
