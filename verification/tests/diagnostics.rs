use kernel::diagnostic::Dr;

type Result3 = Dr<u32, &'static str, &'static str>;

#[test]
fn a_new_result_holds_its_value() {
    let dr: Result3 = Dr::new(3);
    assert!(dr.is_ok());
    assert!(!dr.is_err());
    assert_eq!(dr.value(), Some(&3));
    assert_eq!(dr.error(), None);
    assert!(dr.non_fatal().is_empty());
}

#[test]
fn a_new_error_holds_its_error() {
    let dr: Result3 = Dr::new_err("bad");
    assert!(dr.is_err());
    assert!(!dr.is_ok());
    assert_eq!(dr.value(), None);
    assert_eq!(dr.error(), Some(&"bad"));
    assert_eq!(dr.into_parts(), (Err("bad"), Vec::new()));
}

#[test]
fn with_adds_a_note_to_a_value_only() {
    let dr: Result3 = Dr::new(3).with("careful").with("really");
    assert_eq!(dr.non_fatal(), &vec!["careful", "really"]);
    let failed: Result3 = Dr::new_err("bad").with("careful");
    assert!(failed.non_fatal().is_empty());
}

#[test]
fn map_changes_the_value() {
    let dr: Result3 = Dr::new(3).with("note");
    let mapped = dr.map(|value| value + 1);
    assert_eq!(mapped.into_parts(), (Ok(4), vec!["note"]));
    let failed: Result3 = Dr::new_err("bad");
    assert_eq!(failed.map(|value| value + 1).into_parts(), (Err("bad"), vec![]));
}

#[test]
fn map_err_changes_the_error() {
    let failed: Result3 = Dr::new_err("bad");
    let mapped = failed.map_err(|error| error.len());
    assert_eq!(mapped.into_parts(), (Err(3), vec![]));
    let dr: Result3 = Dr::new(3).with("note");
    assert_eq!(dr.map_err(|error| error.len()).into_parts(), (Ok(3), vec!["note"]));
}

#[test]
fn map_errs_changes_the_notes_in_order() {
    let dr: Result3 = Dr::new(3).with("a").with("bb").with("ccc");
    let mapped = dr.map_errs(|note| note.len());
    assert_eq!(mapped.into_parts(), (Ok(3), vec![1, 2, 3]));
}

#[test]
fn bind_joins_the_notes() {
    let dr: Result3 = Dr::new(3).with("first");
    let bound = dr.bind(|value| Dr::<u32, &str, &str>::new(value * 2).with("second"));
    assert_eq!(bound.into_parts(), (Ok(6), vec!["first", "second"]));

    let dr: Result3 = Dr::new(3).with("first");
    let failed = dr.bind(|_| Dr::<u32, &str, &str>::new_err("bad"));
    assert_eq!(failed.into_parts(), (Err("bad"), vec!["first"]));

    let failed: Result3 = Dr::new_err("bad");
    let bound = failed.bind(|value| Dr::<u32, &str, &str>::new(value * 2).with("second"));
    assert_eq!(bound.into_parts(), (Err("bad"), vec![]));
}

#[test]
fn sequence_stops_at_the_first_error() {
    let all: Vec<Result3> = vec![Dr::new(1).with("a"), Dr::new(2), Dr::new(3).with("b")];
    assert_eq!(
        Dr::sequence(all).into_parts(),
        (Ok(vec![1, 2, 3]), vec!["a", "b"])
    );
    let some: Vec<Result3> = vec![
        Dr::new(1).with("a"),
        Dr::new_err("bad"),
        Dr::new(3).with("b"),
        Dr::new_err("worse"),
    ];
    assert_eq!(Dr::sequence(some).into_parts(), (Err("bad"), vec!["a"]));
    let none: Vec<Result3> = Vec::new();
    assert_eq!(Dr::sequence(none).into_parts(), (Ok(vec![]), vec![]));
}

#[test]
fn new_err_many_takes_the_last_error_as_fatal() {
    let dr: Result3 = Dr::new_err_many(vec!["a", "b", "c"]);
    assert_eq!(dr.into_parts(), (Err("c"), vec!["a", "b"]));
    let dr: Result3 = Dr::new_err_many(vec!["only"]);
    assert_eq!(dr.into_parts(), (Err("only"), vec![]));
}

#[test]
fn unfail_turns_the_error_into_a_note() {
    let dr: Result3 = Dr::new(3).with("a");
    assert_eq!(dr.unfail().into_parts(), (Ok(Some(3)), vec!["a"]));
    let failed: Result3 = Dr::new_err("bad");
    assert_eq!(failed.unfail().into_parts(), (Ok(None), vec!["bad"]));
}

#[test]
fn sequence_unfail_keeps_the_values_and_all_diagnostics() {
    let some: Vec<Result3> = vec![
        Dr::new(1).with("a"),
        Dr::new_err("bad"),
        Dr::new(3).with("b"),
        Dr::new_err("worse"),
    ];
    assert_eq!(
        Dr::sequence_unfail(some).into_parts(),
        (Ok(vec![1, 3]), vec!["a", "bad", "b", "worse"])
    );
}
