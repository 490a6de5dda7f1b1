use kernel::database::Database;
use kernel::de_bruijn::DeBruijnIndex;
use kernel::expr::{Expression, ExpressionData, Universe};
use kernel::files::{Path, Str};
use kernel::vec_map::VecMap;

#[test]
fn the_same_data_twice_is_the_same_expression() {
    let mut db = Database::new();
    let first = Expression::new_sort(&mut db, Universe(3));
    let second = Expression::new_sort(&mut db, Universe(3));
    assert_eq!(first, second);
    assert_eq!(db.expression_count(), 1);

    let local = Expression::new_local(&mut db, DeBruijnIndex::new(2));
    let one = Expression::new_apply(&mut db, first, local);
    let other = Expression::new_apply(&mut db, second, local);
    assert_eq!(one, other);
    assert_eq!(db.expression_count(), 3);
}

#[test]
fn different_data_are_different_expressions() {
    let mut db = Database::new();
    let sort3 = Expression::new_sort(&mut db, Universe(3));
    let sort4 = Expression::new_sort(&mut db, Universe(4));
    let local = Expression::new_local(&mut db, DeBruijnIndex::new(3));
    assert_ne!(sort3, sort4);
    assert_ne!(sort3, local);
    let left = Expression::new_apply(&mut db, sort3, sort4);
    let right = Expression::new_apply(&mut db, sort4, sort3);
    assert_ne!(left, right);
    let reference = Expression::new_ref(&mut db, sort3);
    let dereference = Expression::new_deref(&mut db, sort3);
    assert_ne!(reference, dereference);
}

#[test]
fn an_expression_gives_its_data_back() {
    let mut db = Database::new();
    let sort = Expression::new_sort(&mut db, Universe(1));
    let local = Expression::new_local(&mut db, DeBruijnIndex::new(0));
    let apply = Expression::new(
        &mut db,
        ExpressionData::Apply {
            left: sort,
            right: local,
        },
    );
    assert_eq!(
        apply.data(&db),
        &ExpressionData::Apply {
            left: sort,
            right: local
        }
    );
    assert_eq!(apply, Expression::new_apply(&mut db, sort, local));
    assert_eq!(sort.data(&db), &ExpressionData::Sort(Universe(1)));
    assert!(db.has_expression(apply));
}

#[test]
fn lists_are_compared_entry_by_entry() {
    let mut db = Database::new();
    let ty = Str::new(&mut db, "Pair");
    let path = Path::new(&mut db, vec![ty]);
    let make = Str::new(&mut db, "make");
    let first = Str::new(&mut db, "first");
    let second = Str::new(&mut db, "second");
    let a = Expression::new_sort(&mut db, Universe(0));
    let b = Expression::new_sort(&mut db, Universe(1));
    let one = Expression::new_intro(
        &mut db,
        path,
        vec![a],
        make,
        VecMap::from(vec![(first, a), (second, b)]),
    );
    let same = Expression::new_intro(
        &mut db,
        path,
        vec![a],
        make,
        VecMap::from(vec![(first, a), (second, b)]),
    );
    let swapped = Expression::new_intro(
        &mut db,
        path,
        vec![a],
        make,
        VecMap::from(vec![(second, a), (first, b)]),
    );
    let moved = Expression::new_intro(
        &mut db,
        path,
        vec![a, a],
        make,
        VecMap::from(vec![(second, b)]),
    );
    assert_eq!(one, same);
    assert_ne!(one, swapped);
    assert_ne!(one, moved);
    let cases = Expression::new_match(&mut db, a, b, VecMap::from(vec![(first, a), (second, b)]));
    let other_cases =
        Expression::new_match(&mut db, a, b, VecMap::from(vec![(first, a), (first, b)]));
    assert_ne!(cases, other_cases);
    let take = Expression::new_take(
        &mut db,
        DeBruijnIndex::new(0),
        VecMap::from(vec![(DeBruijnIndex::new(1), a)]),
        b,
    );
    let other_take = Expression::new_take(
        &mut db,
        DeBruijnIndex::new(0),
        VecMap::from(vec![(DeBruijnIndex::new(2), a)]),
        b,
    );
    assert_ne!(take, other_take);
}

#[test]
fn strings_are_interned() {
    let mut db = Database::new();
    let a = Str::new(&mut db, "alpha");
    let b = Str::new(&mut db, "beta");
    let again = Str::new(&mut db, "alpha");
    assert_eq!(a, again);
    assert_ne!(a, b);
    assert_eq!(a.text(&db), "alpha");
    assert_eq!(b.text(&db), "beta");
    assert!(db.has_str(a));
}

#[test]
fn paths_are_interned() {
    let mut db = Database::new();
    let a = Str::new(&mut db, "a");
    let b = Str::new(&mut db, "b");
    let ab = Path::new(&mut db, vec![a, b]);
    let ba = Path::new(&mut db, vec![b, a]);
    let again = Path::new(&mut db, vec![a, b]);
    assert_eq!(ab, again);
    assert_ne!(ab, ba);
    assert_eq!(ab.segments(&db), &vec![a, b]);
    assert!(db.has_path(ab));
}

#[test]
fn a_new_database_is_empty() {
    let db = Database::new();
    assert_eq!(db.expression_count(), 0);
    assert_eq!(db.reduction_limit(), 512);
}

#[test]
fn the_reduction_limit_can_be_set() {
    let mut db = Database::new();
    db.set_reduction_limit(7);
    assert_eq!(db.reduction_limit(), 7);
}

#[test]
fn vec_map_keeps_the_order_of_its_entries() {
    let mut map: VecMap<u32, u32> = VecMap::new();
    assert_eq!(map.len(), 0);
    map.push(3, 30);
    map.push(1, 10);
    assert_eq!(map.len(), 2);
    assert_eq!(map.get(0), &(3, 30));
    assert_eq!(map.get(1), &(1, 10));
    assert_eq!(map.iter(), &vec![(3, 30), (1, 10)]);
    assert_eq!(map, VecMap::from(vec![(3, 30), (1, 10)]));
    let empty: VecMap<u32, u32> = VecMap::default();
    assert_eq!(empty.len(), 0);
}

#[test]
fn many_expressions_are_found_again() {
    let mut db = Database::new();
    let mut made = Vec::new();
    let mut previous = Expression::new_sort(&mut db, Universe(0));
    for i in 0..3000u32 {
        let local = Expression::new_local(&mut db, DeBruijnIndex::new(i));
        previous = Expression::new_apply(&mut db, previous, local);
        made.push((i, local, previous));
    }
    let count = db.expression_count();
    assert_eq!(count, 6001);
    let mut previous = Expression::new_sort(&mut db, Universe(0));
    for (i, local, applied) in made {
        assert_eq!(Expression::new_local(&mut db, DeBruijnIndex::new(i)), local);
        previous = Expression::new_apply(&mut db, previous, local);
        assert_eq!(previous, applied);
    }
    assert_eq!(db.expression_count(), count);
}

#[test]
fn many_strings_and_paths_are_found_again() {
    let mut db = Database::new();
    let mut strings = Vec::new();
    for i in 0..500u32 {
        let text = format!("name{}", i);
        let s = Str::new(&mut db, &text);
        let p = Path::new(&mut db, vec![s, s]);
        strings.push((text, s, p));
    }
    for (text, s, p) in strings {
        assert_eq!(Str::new(&mut db, &text), s);
        assert_eq!(Path::new(&mut db, vec![s, s]), p);
        assert_ne!(Path::new(&mut db, vec![s]), p);
        assert_eq!(s.text(&db), &text);
    }
}
