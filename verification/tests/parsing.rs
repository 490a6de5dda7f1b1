use kernel::database::Database;
use kernel::de_bruijn::DeBruijnIndex;
use kernel::definition::Definition;
use kernel::expr::{
    ArgumentStyle, Binder, BinderStructure, BoundVariable, Expression, InvocationStyle, Universe,
    Usage,
};
use kernel::files::{Path, Source, SourceSpan, SourceType, Span, Str, WithProvenance};
use kernel::parser::{
    parse_module, process_de_bruijn_index, process_definition, process_expr, process_identifier,
    process_module, process_path, process_universe, ParseError,
};
use kernel::syntax::{
    BinderStructureSyntax, BinderSyntax, DefinitionSyntax, ExprSyntax, Identifier, ModuleSyntax,
    PathSyntax, UniverseSyntax,
};
use kernel::vec_map::VecMap;

fn source(db: &mut Database) -> Source {
    let name = Str::new(db, "test");
    let path = Path::new(db, vec![name]);
    Source::new(path, SourceType::Feather)
}

fn identifier(db: &mut Database, name: &str, start: usize) -> Identifier {
    Identifier {
        span: Span::new(start, start + name.len()),
        name: Str::new(db, name),
    }
}

fn variable(db: &mut Database, name: &str, start: usize) -> ExprSyntax {
    ExprSyntax::Local(identifier(db, name, start))
}

fn sort(universe: u32) -> ExprSyntax {
    ExprSyntax::Sort(UniverseSyntax {
        span: Span::new(0, 1),
        universe: Universe(universe),
    })
}

fn binder(db: &mut Database, name: &str, ty: ExprSyntax, body: ExprSyntax) -> BinderSyntax {
    BinderSyntax {
        structure: BinderStructureSyntax {
            name: identifier(db, name, 0),
            erased: false,
            ty: Box::new(ty),
            argument_style: ArgumentStyle::Explicit,
        },
        invocation_style: InvocationStyle::Once,
        body: Box::new(body),
    }
}

fn structure(db: &mut Database, name: &str, ty: Expression) -> BinderStructure {
    BinderStructure {
        bound: BoundVariable {
            name: Str::new(db, name),
            ty,
            usage: Usage::Present,
        },
        argument_style: ArgumentStyle::Explicit,
        invocation_style: InvocationStyle::Once,
    }
}

fn local(db: &mut Database, index: u32) -> Expression {
    Expression::new_local(db, DeBruijnIndex::new(index))
}

#[test]
fn a_name_refers_to_the_innermost_binder_of_that_name() {
    let mut db = Database::new();
    let src = source(&mut db);
    let x = Str::new(&mut db, "x");
    let y = Str::new(&mut db, "y");
    let locals = vec![x, y, x];
    let use_x = identifier(&mut db, "x", 4);
    let use_y = identifier(&mut db, "y", 4);
    assert_eq!(
        process_de_bruijn_index(src, &use_x, &locals).into_parts(),
        (Ok(DeBruijnIndex::new(0)), vec![])
    );
    assert_eq!(
        process_de_bruijn_index(src, &use_y, &locals).into_parts(),
        (Ok(DeBruijnIndex::new(1)), vec![])
    );
    assert_eq!(
        process_de_bruijn_index(src, &use_x, &vec![x, y]).into_parts(),
        (Ok(DeBruijnIndex::new(1)), vec![])
    );
}

#[test]
fn an_unknown_name_is_reported() {
    let mut db = Database::new();
    let src = source(&mut db);
    let x = Str::new(&mut db, "x");
    let use_z = identifier(&mut db, "z", 4);
    assert_eq!(
        process_de_bruijn_index(src, &use_z, &vec![x]).into_parts(),
        (
            Ok(DeBruijnIndex::new(0)),
            vec![ParseError::UnknownVariable {
                src,
                label_span: Span::new(4, 5)
            }]
        )
    );
}

#[test]
fn functions_bind_their_parameter_in_the_body() {
    let mut db = Database::new();
    let src = source(&mut db);
    // fun (x : Sort 0) -> fun (y : x) -> x
    let use_x = variable(&mut db, "x", 20);
    let ty_x = variable(&mut db, "x", 10);
    let inner = binder(&mut db, "y", ty_x, use_x);
    let outer = binder(&mut db, "x", sort(0), ExprSyntax::Fun(inner));
    let syntax = ExprSyntax::Fun(outer);
    let result = process_expr(&mut db, src, &syntax, &Vec::new());

    let sort0 = Expression::new_sort(&mut db, Universe(0));
    let zero = local(&mut db, 0);
    let one = local(&mut db, 1);
    let y = structure(&mut db, "y", zero);
    let inner = Expression::new_lambda(
        &mut db,
        Binder {
            structure: y,
            body: one,
        },
    );
    let x = structure(&mut db, "x", sort0);
    let expected = Expression::new_lambda(
        &mut db,
        Binder {
            structure: x,
            body: inner,
        },
    );
    assert_eq!(result.into_parts(), (Ok(expected), vec![]));
}

#[test]
fn unknown_names_are_reported_in_the_order_of_the_source() {
    let mut db = Database::new();
    let src = source(&mut db);
    // (a b) in `let b = c ; b`
    let a = variable(&mut db, "a", 1);
    let b = variable(&mut db, "b", 3);
    let c = variable(&mut db, "c", 5);
    let b_again = variable(&mut db, "b", 7);
    let name = identifier(&mut db, "b", 2);
    let syntax = ExprSyntax::In {
        reference: Box::new(ExprSyntax::App {
            left: Box::new(a),
            right: Box::new(b),
        }),
        target: Box::new(ExprSyntax::Let {
            name,
            to_assign: Box::new(c),
            body: Box::new(b_again),
        }),
    };
    let (value, notes) = process_expr(&mut db, src, &syntax, &Vec::new()).into_parts();
    let zero = local(&mut db, 0);
    let apply = Expression::new_apply(&mut db, zero, zero);
    let bound = Expression::new_let(&mut db, name.name, zero, zero);
    let expected = Expression::new_in(&mut db, apply, bound);
    assert_eq!(value, Ok(expected));
    assert_eq!(
        notes,
        vec![
            ParseError::UnknownVariable {
                src,
                label_span: Span::new(1, 2)
            },
            ParseError::UnknownVariable {
                src,
                label_span: Span::new(3, 4)
            },
            ParseError::UnknownVariable {
                src,
                label_span: Span::new(5, 6)
            },
        ]
    );
}

#[test]
fn a_fixed_point_binds_the_subject_and_itself() {
    let mut db = Database::new();
    let src = source(&mut db);
    // fix (n : Sort 0) -> n with rec ; rec n
    let use_n = variable(&mut db, "n", 1);
    let rec = variable(&mut db, "rec", 2);
    let n = variable(&mut db, "n", 3);
    let rec_name = identifier(&mut db, "rec", 4);
    let syntax = ExprSyntax::Fix {
        structure: BinderStructureSyntax {
            name: identifier(&mut db, "n", 0),
            erased: true,
            ty: Box::new(sort(0)),
            argument_style: ArgumentStyle::ImplicitEager,
        },
        return_ty: Box::new(use_n),
        rec_name,
        body: Box::new(ExprSyntax::App {
            left: Box::new(rec),
            right: Box::new(n),
        }),
    };
    let result = process_expr(&mut db, src, &syntax, &Vec::new());

    let sort0 = Expression::new_sort(&mut db, Universe(0));
    let zero = local(&mut db, 0);
    let one = local(&mut db, 1);
    let body = Expression::new_apply(&mut db, zero, one);
    let n = Str::new(&mut db, "n");
    let expected = Expression::new_fix(
        &mut db,
        Binder {
            structure: BinderStructure {
                bound: BoundVariable {
                    name: n,
                    ty: sort0,
                    usage: Usage::Erased,
                },
                argument_style: ArgumentStyle::ImplicitEager,
                invocation_style: InvocationStyle::Many,
            },
            body: zero,
        },
        rec_name.name,
        body,
    );
    assert_eq!(result.into_parts(), (Ok(expected), vec![]));
}

#[test]
fn a_loan_binds_the_reference_and_the_proof() {
    let mut db = Database::new();
    let src = source(&mut db);
    let v = Str::new(&mut db, "v");
    // loan v as r with p ; p (r v)
    let p = variable(&mut db, "p", 1);
    let r = variable(&mut db, "r", 2);
    let use_v = variable(&mut db, "v", 3);
    let loan_as = identifier(&mut db, "r", 4);
    let with = identifier(&mut db, "p", 5);
    let syntax = ExprSyntax::Loan {
        local: identifier(&mut db, "v", 0),
        loan_as,
        with,
        body: Box::new(ExprSyntax::App {
            left: Box::new(p),
            right: Box::new(ExprSyntax::App {
                left: Box::new(r),
                right: Box::new(use_v),
            }),
        }),
    };
    let result = process_expr(&mut db, src, &syntax, &vec![v]);
    let zero = local(&mut db, 0);
    let one = local(&mut db, 1);
    let two = local(&mut db, 2);
    let inner = Expression::new_apply(&mut db, one, two);
    let body = Expression::new_apply(&mut db, zero, inner);
    let expected = Expression::new_loan(&mut db, DeBruijnIndex::new(0), loan_as.name, with.name, body);
    assert_eq!(result.into_parts(), (Ok(expected), vec![]));
}

#[test]
fn lists_keep_their_order() {
    let mut db = Database::new();
    let src = source(&mut db);
    let x = Str::new(&mut db, "x");
    let pair = Str::new(&mut db, "Pair");
    let path = Path::new(&mut db, vec![pair]);
    let first = identifier(&mut db, "first", 1);
    let second = identifier(&mut db, "second", 2);
    let make = identifier(&mut db, "make", 3);
    let use_x = variable(&mut db, "x", 4);
    let use_y = variable(&mut db, "y", 5);
    let intro = ExprSyntax::Intro {
        path: PathSyntax {
            span: Span::new(0, 4),
            path,
        },
        params: vec![sort(1), use_y],
        variant: make,
        fields: vec![(first, use_x), (second, sort(2))],
    };
    let (value, notes) = process_expr(&mut db, src, &intro, &vec![x]).into_parts();
    let sort1 = Expression::new_sort(&mut db, Universe(1));
    let sort2 = Expression::new_sort(&mut db, Universe(2));
    let zero = local(&mut db, 0);
    let expected = Expression::new_intro(
        &mut db,
        path,
        vec![sort1, zero],
        make.name,
        VecMap::from(vec![(first.name, zero), (second.name, sort2)]),
    );
    assert_eq!(value, Ok(expected));
    assert_eq!(
        notes,
        vec![ParseError::UnknownVariable {
            src,
            label_span: Span::new(5, 6)
        }]
    );

    let use_x = variable(&mut db, "x", 4);
    let matching = ExprSyntax::Match {
        subject: Box::new(intro),
        return_ty: Box::new(sort(0)),
        cases: vec![(make, use_x), (first, sort(1))],
    };
    let (value, _) = process_expr(&mut db, src, &matching, &vec![x]).into_parts();
    let sort0 = Expression::new_sort(&mut db, Universe(0));
    let expected = Expression::new_match(
        &mut db,
        expected,
        sort0,
        VecMap::from(vec![(make.name, zero), (first.name, sort1)]),
    );
    assert_eq!(value, Ok(expected));

    let use_x = variable(&mut db, "x", 4);
    let take = ExprSyntax::Take {
        local: identifier(&mut db, "x", 0),
        proofs: vec![
            (identifier(&mut db, "x", 1), sort(1)),
            (identifier(&mut db, "w", 2), use_x),
        ],
        body: Box::new(sort(2)),
    };
    let (value, notes) = process_expr(&mut db, src, &take, &vec![x]).into_parts();
    let expected = Expression::new_take(
        &mut db,
        DeBruijnIndex::new(0),
        VecMap::from(vec![
            (DeBruijnIndex::new(0), sort1),
            (DeBruijnIndex::new(0), zero),
        ]),
        sort2,
    );
    assert_eq!(value, Ok(expected));
    assert_eq!(
        notes,
        vec![ParseError::UnknownVariable {
            src,
            label_span: Span::new(2, 3)
        }]
    );
}

#[test]
fn the_other_forms_are_turned_into_expressions() {
    let mut db = Database::new();
    let src = source(&mut db);
    let nat = Str::new(&mut db, "nat");
    let path = Path::new(&mut db, vec![nat]);
    let inst = ExprSyntax::Inst(PathSyntax {
        span: Span::new(0, 3),
        path,
    });
    let for_all = ExprSyntax::For(binder(&mut db, "x", inst, sort(3)));
    let syntax = ExprSyntax::Deref(Box::new(ExprSyntax::Ref(Box::new(for_all))));
    let (value, notes) = process_expr(&mut db, src, &syntax, &Vec::new()).into_parts();
    let inst = Expression::new_inst(&mut db, path);
    let sort3 = Expression::new_sort(&mut db, Universe(3));
    let x = structure(&mut db, "x", inst);
    let pi = Expression::new_pi(
        &mut db,
        Binder {
            structure: x,
            body: sort3,
        },
    );
    let reference = Expression::new_ref(&mut db, pi);
    let expected = Expression::new_deref(&mut db, reference);
    assert_eq!(value, Ok(expected));
    assert!(notes.is_empty());
}

#[test]
fn names_paths_and_universes_keep_their_place_in_the_source() {
    let mut db = Database::new();
    let src = source(&mut db);
    let name = identifier(&mut db, "abc", 7);
    assert_eq!(
        process_identifier(src, &name),
        WithProvenance::new(Some(SourceSpan::new(src, Span::new(7, 10))), name.name)
    );
    let path = Path::new(&mut db, vec![name.name]);
    let syntax = PathSyntax {
        span: Span::new(1, 2),
        path,
    };
    assert_eq!(
        process_path(src, &syntax),
        WithProvenance::new(Some(SourceSpan::new(src, Span::new(1, 2))), path)
    );
    let universe = UniverseSyntax {
        span: Span::new(3, 4),
        universe: Universe(4),
    };
    assert_eq!(
        process_universe(src, &universe),
        WithProvenance::new(Some(SourceSpan::new(src, Span::new(3, 4))), Universe(4))
    );
}

fn identity_definition(db: &mut Database, erased: bool) -> DefinitionSyntax {
    let use_x = variable(db, "x", 30);
    let body = binder(db, "x", sort(0), use_x);
    let ty = binder(db, "x", sort(0), sort(0));
    DefinitionSyntax {
        span: Span::new(0, 40),
        name: identifier(db, "id", 4),
        erased,
        ty: ExprSyntax::For(ty),
        body: ExprSyntax::Fun(body),
    }
}

#[test]
fn a_definition_has_nothing_in_scope() {
    let mut db = Database::new();
    let src = source(&mut db);
    let syntax = identity_definition(&mut db, true);
    let (value, notes) = process_definition(&mut db, src, &syntax).into_parts();

    let sort0 = Expression::new_sort(&mut db, Universe(0));
    let zero = local(&mut db, 0);
    let x = structure(&mut db, "x", sort0);
    let ty = Expression::new_pi(
        &mut db,
        Binder {
            structure: x,
            body: sort0,
        },
    );
    let body = Expression::new_lambda(
        &mut db,
        Binder {
            structure: x,
            body: zero,
        },
    );
    let expected = WithProvenance::new(
        Some(SourceSpan::new(src, Span::new(0, 40))),
        Definition {
            name: WithProvenance::new(
                Some(SourceSpan::new(src, Span::new(4, 6))),
                syntax.name.name,
            ),
            usage: Usage::Erased,
            ty,
            body: Some(body),
        },
    );
    assert_eq!(value, Ok(expected));
    assert!(notes.is_empty());
}

#[test]
fn a_module_holds_its_definitions_in_order() {
    let mut db = Database::new();
    let src = source(&mut db);
    let first = identity_definition(&mut db, false);
    let unknown = variable(&mut db, "nowhere", 50);
    let second = DefinitionSyntax {
        span: Span::new(41, 60),
        name: identifier(&mut db, "other", 45),
        erased: false,
        ty: sort(1),
        body: unknown,
    };
    let name = Str::new(&mut db, "main");
    let path = Path::new(&mut db, vec![name]);
    let module = ModuleSyntax {
        path: PathSyntax {
            span: Span::new(0, 4),
            path,
        },
        definitions: vec![first, second],
    };
    assert!(module.is_known(&db));
    let (value, notes) = parse_module(&mut db, src, &module).into_parts();
    let made = value.expect("the names are interned");
    assert_eq!(made.path.contents, path);
    assert_eq!(made.definitions.len(), 2);
    assert_eq!(made.definitions[0].contents.name.contents, module.definitions[0].name.name);
    assert_eq!(made.definitions[1].contents.name.contents, module.definitions[1].name.name);
    assert_eq!(made.definitions[1].contents.body, Some(local(&mut db, 0)));
    assert_eq!(
        notes,
        vec![ParseError::UnknownVariable {
            src,
            label_span: Span::new(50, 57)
        }]
    );
    let again = process_module(&mut db, src, &module).into_parts().0;
    assert_eq!(again, Ok(made));
}

#[test]
fn a_module_with_names_of_another_database_is_refused() {
    let mut other = Database::new();
    let src = source(&mut other);
    let definition = identity_definition(&mut other, false);
    let name = Str::new(&mut other, "main");
    let path = Path::new(&mut other, vec![name]);
    let module = ModuleSyntax {
        path: PathSyntax {
            span: Span::new(0, 4),
            path,
        },
        definitions: vec![definition],
    };
    let mut db = Database::new();
    assert!(!module.is_known(&db));
    assert!(!module.definitions[0].body.is_known(&db));
    let (value, notes) = parse_module(&mut db, src, &module).into_parts();
    assert_eq!(
        value,
        Err(ParseError::parser_bug(src, "a name is not interned"))
    );
    assert!(notes.is_empty());
    assert_eq!(
        ParseError::parser_bug(src, "oops"),
        ParseError::ParserBug {
            src,
            message: "oops".to_string(),
            label_message: "error occurred here".to_string(),
            label_span: Span::default(),
        }
    );
}

#[test]
fn universes_and_references_are_turned_into_expressions() {
    let mut db = Database::new();
    let src = source(&mut db);
    let universe = UniverseSyntax {
        span: Span::new(5, 6),
        universe: Universe(7),
    };
    let sort7 = Expression::new_sort(&mut db, Universe(7));
    assert_eq!(kernel::parser::process_sort(&mut db, src, &universe), sort7);
    let nat = Str::new(&mut db, "nat");
    let path = Path::new(&mut db, vec![nat]);
    let syntax = PathSyntax {
        span: Span::new(0, 3),
        path,
    };
    let inst = Expression::new_inst(&mut db, path);
    assert_eq!(kernel::parser::process_inst(&mut db, src, &syntax), inst);
}
