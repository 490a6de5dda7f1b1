use kernel::database::Database;
use kernel::files::{
    Path, Source, SourceSpan, SourceType, Span, Spanned, Str, StrGenerator, WithProvenance,
};
use kernel::text::decimal_string;

#[test]
fn a_path_is_displayed_with_colons() {
    let mut db = Database::new();
    let a = Str::new(&mut db, "a");
    let b = Str::new(&mut db, "bee");
    let c = Str::new(&mut db, "c");
    let path = Path::new(&mut db, vec![a, b, c]);
    assert_eq!(path.display(&db), "a::bee::c");
    assert_eq!(path.to_string(&db), "a::bee::c");
    let single = Path::new(&mut db, vec![b]);
    assert_eq!(single.display(&db), "bee");
    let empty = Path::new(&mut db, Vec::new());
    assert_eq!(empty.display(&db), "");
}

#[test]
fn split_last_gives_the_module_and_the_name() {
    let mut db = Database::new();
    let a = Str::new(&mut db, "a");
    let b = Str::new(&mut db, "b");
    let c = Str::new(&mut db, "c");
    let path = Path::new(&mut db, vec![a, b, c]);
    let module = Path::new(&mut db, vec![a, b]);
    assert_eq!(path.split_last(&mut db), (module, c));
    let single = Path::new(&mut db, vec![a]);
    let empty = Path::new(&mut db, Vec::new());
    assert_eq!(single.split_last(&mut db), (empty, a));
}

#[test]
fn with_and_append_add_segments() {
    let mut db = Database::new();
    let a = Str::new(&mut db, "a");
    let b = Str::new(&mut db, "b");
    let c = Str::new(&mut db, "c");
    let path = Path::new(&mut db, vec![a]);
    let longer = path.with(&mut db, b);
    assert_eq!(longer.segments(&db), &vec![a, b]);
    let longest = path.append(&mut db, vec![b, c]);
    assert_eq!(longest.segments(&db), &vec![a, b, c]);
    assert_eq!(longer.with(&mut db, c), longest);
    assert_eq!(path.append(&mut db, Vec::new()), path);
}

#[test]
fn the_generator_makes_distinct_strings() {
    let mut db = Database::new();
    let mut generator = StrGenerator::new("x");
    assert!(generator.has_next());
    let first = generator.generate(&mut db);
    let second = generator.generate(&mut db);
    let third = generator.generate(&mut db);
    assert_eq!(first.text(&db), "x");
    assert_eq!(second.text(&db), "x_1");
    assert_eq!(third.text(&db), "x_2");
    assert_ne!(first, second);
    assert_ne!(second, third);
    for _ in 3..12 {
        generator.generate(&mut db);
    }
    assert_eq!(generator.generate(&mut db).text(&db), "x_12");
}

#[test]
fn numbers_are_written_in_decimal() {
    assert_eq!(decimal_string(0), "0");
    assert_eq!(decimal_string(7), "7");
    assert_eq!(decimal_string(10), "10");
    assert_eq!(decimal_string(1234567890), "1234567890");
    assert_eq!(decimal_string(u64::MAX), "18446744073709551615");
}

#[test]
fn source_types_have_extensions() {
    assert_eq!(SourceType::Feather.extension(), "ftr");
    assert_eq!(SourceType::Quill.extension(), "qll");
}

#[test]
fn spans_and_provenance() {
    assert_eq!(Span::default(), Span { start: 0, end: 0 });
    let span = Span::new(3, 8);
    assert_eq!(span, Span { start: 3, end: 8 });
    assert_eq!(span.len(), 5);
    assert_eq!(Span::new(8, 3).len(), 0);
    assert_eq!(span.span(), span);

    let mut db = Database::new();
    let name = Str::new(&mut db, "main");
    let path = Path::new(&mut db, vec![name]);
    let source = Source::new(path, SourceType::Feather);
    assert_eq!(source.path, path);
    assert_eq!(source.ty, SourceType::Feather);
    let source_span = SourceSpan::new(source, span);
    assert_eq!(source_span.source, source);
    assert_eq!(source_span.span, span);
    let with = WithProvenance::new(Some(source_span), name);
    assert_eq!(with.provenance, Some(source_span));
    assert_eq!(with.contents, name);
    let synthetic = WithProvenance::new(None, 5u32);
    assert_eq!(synthetic.provenance, None);
    assert_eq!(synthetic.contents, 5);
}

#[test]
fn spans_convert_to_ranges_and_back() {
    assert_eq!(Span::from(3..8), Span::new(3, 8));
    assert_eq!(std::ops::Range::from(Span::new(3, 8)), 3..8);
    assert_eq!(Span::new(3, 8).to_string(), "3..8");
    assert_eq!(Span::default().to_string(), "0..0");
}
