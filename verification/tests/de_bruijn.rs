use kernel::de_bruijn::{DeBruijnIndex, DeBruijnOffset};

#[test]
fn indices_count_from_zero() {
    assert_eq!(DeBruijnIndex::zero(), DeBruijnIndex::new(0));
    assert_eq!(DeBruijnIndex::new(7).value(), 7);
    assert_eq!(DeBruijnIndex::new(7).succ(), Some(DeBruijnIndex::new(8)));
    assert_eq!(DeBruijnIndex::new(7).pred(), Some(DeBruijnIndex::new(6)));
}

#[test]
fn the_innermost_index_has_no_predecessor() {
    assert_eq!(DeBruijnIndex::zero().pred(), None);
}

#[test]
fn the_greatest_index_has_no_successor() {
    assert_eq!(DeBruijnIndex::new(u32::MAX).succ(), None);
}

#[test]
fn an_index_plus_an_offset() {
    let index = DeBruijnIndex::new(3);
    assert_eq!(
        index.checked_add(DeBruijnOffset::new(4)),
        Some(DeBruijnIndex::new(7))
    );
    assert_eq!(
        index.checked_add(DeBruijnOffset::new(u32::MAX - 3)),
        Some(DeBruijnIndex::new(u32::MAX))
    );
    assert_eq!(index.checked_add(DeBruijnOffset::new(u32::MAX - 2)), None);
    let wide = DeBruijnOffset::new(u32::MAX).succ();
    assert_eq!(DeBruijnIndex::zero().checked_add(wide), None);
}

#[test]
fn an_index_against_an_offset() {
    let index = DeBruijnIndex::new(3);
    assert!(index.is_below(DeBruijnOffset::new(4)));
    assert!(!index.is_below(DeBruijnOffset::new(3)));
    assert!(index.is_at(DeBruijnOffset::new(3)));
    assert!(!index.is_at(DeBruijnOffset::new(2)));
    let wide = DeBruijnOffset::new(u32::MAX).succ();
    assert!(DeBruijnIndex::new(u32::MAX).is_below(wide));
}

#[test]
fn offsets_add_up() {
    assert_eq!(DeBruijnOffset::zero(), DeBruijnOffset::new(0));
    assert_eq!(DeBruijnOffset::new(2).succ(), DeBruijnOffset::new(3));
    assert_eq!(DeBruijnOffset::new(2).add_binders(2), DeBruijnOffset::new(4));
    assert_eq!(
        DeBruijnOffset::new(2).checked_add(DeBruijnOffset::new(5)),
        Some(DeBruijnOffset::new(7))
    );
    assert_eq!(DeBruijnOffset::new(9).value(), Some(9));
    assert_eq!(DeBruijnOffset::new(u32::MAX).succ().value(), None);
}

#[test]
fn indices_are_ordered_by_position() {
    assert!(DeBruijnIndex::new(1) < DeBruijnIndex::new(2));
    assert!(DeBruijnOffset::new(1) < DeBruijnOffset::new(2));
}
