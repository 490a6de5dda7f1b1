//! Turns the syntax of Feather into expressions.
//!
//! The syntax names its variables; expressions count binders. A name refers
//! to the innermost binder of that name, and a name that no binder declares
//! is reported and taken for the innermost variable.

use vstd::prelude::*;
use crate::database::Database;
use crate::de_bruijn::DeBruijnIndex;
use crate::definition::Definition;
use crate::diagnostic::Dr;
use crate::expr::{
    Binder,
    BinderStructure,
    BoundVariable,
    Expression,
    Universe,
    Usage,
};
use crate::files::{Path, Source, SourceSpan, Span, Str, WithProvenance};
use crate::syntax::{
    BinderStructureSyntax,
    BinderSyntax,
    DefinitionSyntax,
    ExprSyntax,
    Identifier,
    ModuleSyntax,
    PathSyntax,
    UniverseSyntax,
};
use crate::term::{BinderLabel, Term};
use crate::vec_map::VecMap;

verus! {

/// What is wrong with a source file.
#[derive(Clone, Debug, PartialEq, Eq, Hash)]
pub enum ParseError {
    /// The parser met something that it is not prepared for. This is a bug
    /// in the compiler.
    ParserBug { src: Source, message: String, label_message: String, label_span: Span },
    /// The source does not follow the grammar.
    ParseError { src: Source, label_span: Span },
    /// A name is used that no binder declares.
    UnknownVariable { src: Source, label_span: Span },
}

/// The position of the innermost variable named `name` among `locals`, which
/// holds the names of the bound variables with the innermost last, looking
/// at the first `n` of them only: the number of variables that lie further
/// in.
pub open spec fn position(locals: Seq<Str>, name: Str, n: nat) -> Option<nat>
    decreases n,
{
    if n == 0 || n > locals.len() {
        None
    } else if locals[n - 1] == name {
        Some((locals.len() - n) as nat)
    } else {
        position(locals, name, (n - 1) as nat)
    }
}

/// The variable that the name `name` refers to: the innermost variable of
/// that name, if there is one and its position fits in 32 bits.
pub open spec fn resolve(locals: Seq<Str>, name: Str) -> Option<nat> {
    match position(locals, name, locals.len()) {
        Some(index) => if index <= u32::MAX {
            Some(index)
        } else {
            None
        },
        None => None,
    }
}

/// The index that the name `name` stands for: that of the variable that it
/// refers to, and zero if it refers to none.
pub open spec fn index_of(locals: Seq<Str>, name: Str) -> nat {
    match resolve(locals, name) {
        Some(index) => index,
        None => 0,
    }
}

/// What is reported for a use of the name `name`: nothing if it refers to a
/// variable, and otherwise that the variable is unknown.
pub open spec fn unknown(source: Source, locals: Seq<Str>, name: Identifier) -> Seq<ParseError> {
    match resolve(locals, name.name) {
        Some(_) => Seq::empty(),
        None => seq![ParseError::UnknownVariable { src: source, label_span: name.span }],
    }
}

/// What a binder declares besides the type of its variable.
pub open spec fn structure_label(
    structure: BinderStructureSyntax,
    invocation_style: crate::expr::InvocationStyle,
) -> BinderLabel {
    BinderLabel {
        name: structure.name.name,
        usage: if structure.erased {
            Usage::Erased
        } else {
            Usage::Present
        },
        argument_style: structure.argument_style,
        invocation_style,
    }
}

/// The terms that the parameters of the value `syntax` of an inductive type
/// stand for.
pub open spec fn parameter_terms(syntax: ExprSyntax, locals: Seq<Str>) -> Seq<Term>
    decreases syntax, 0nat,
{
    match syntax {
        ExprSyntax::Intro { params, .. } => Seq::new(
            params@.len(),
            |i: int|
                if 0 <= i < params@.len() {
                    elaborate(params@[i], locals)
                } else {
                    Term::local(0)
                },
        ),
        _ => Seq::empty(),
    }
}

/// The named entries of `syntax`: the fields of a value of an inductive
/// type, or the cases of a case distinction.
pub open spec fn entries(syntax: ExprSyntax) -> Seq<(Identifier, ExprSyntax)> {
    match syntax {
        ExprSyntax::Intro { fields, .. } => fields@,
        ExprSyntax::Match { cases, .. } => cases@,
        ExprSyntax::Take { proofs, .. } => proofs@,
        _ => Seq::empty(),
    }
}

/// The terms that the fields or the cases of `syntax` stand for, each with
/// its name.
pub open spec fn entry_terms(syntax: ExprSyntax, locals: Seq<Str>) -> Seq<(Str, Term)>
    decreases syntax, 0nat,
{
    Seq::new(
        entries(syntax).len(),
        |i: int|
            if 0 <= i < entries(syntax).len() {
                (entries(syntax)[i].0.name, elaborate(entries(syntax)[i].1, locals))
            } else {
                (entries(syntax)[i].0.name, Term::local(0))
            },
    )
}

/// The terms that the proofs of the end of a loan `syntax` stand for, each
/// with the index of the variable that it speaks of.
pub open spec fn proof_terms(syntax: ExprSyntax, locals: Seq<Str>) -> Seq<(nat, Term)>
    decreases syntax, 0nat,
{
    Seq::new(
        entries(syntax).len(),
        |i: int|
            if 0 <= i < entries(syntax).len() {
                (
                    index_of(locals, entries(syntax)[i].0.name),
                    elaborate(entries(syntax)[i].1, locals),
                )
            } else {
                (0nat, Term::local(0))
            },
    )
}

/// The term that the syntax `syntax` stands for, where `locals` holds the
/// names of the bound variables around it, with the innermost last.
pub open spec fn elaborate(syntax: ExprSyntax, locals: Seq<Str>) -> Term
    decreases syntax, 1nat,
{
    match syntax {
        ExprSyntax::Local(name) => Term::local(index_of(locals, name.name)),
        ExprSyntax::App { left, right } => Term::apply(
            elaborate(*left, locals),
            elaborate(*right, locals),
        ),
        ExprSyntax::For(binder) => Term::pi(
            structure_label(binder.structure, binder.invocation_style),
            elaborate(*binder.structure.ty, locals),
            elaborate(*binder.body, locals.push(binder.structure.name.name)),
        ),
        ExprSyntax::Fun(binder) => Term::lambda(
            structure_label(binder.structure, binder.invocation_style),
            elaborate(*binder.structure.ty, locals),
            elaborate(*binder.body, locals.push(binder.structure.name.name)),
        ),
        ExprSyntax::Let { name, to_assign, body } => Term::let_in(
            name.name,
            elaborate(*to_assign, locals),
            elaborate(*body, locals.push(name.name)),
        ),
        ExprSyntax::Sort(universe) => Term::sort(universe.universe),
        ExprSyntax::Inst(path) => Term::inst(path.path),
        ExprSyntax::Intro { path, variant, .. } => Term::intro(
            path.path,
            parameter_terms(syntax, locals),
            variant.name,
            entry_terms(syntax, locals),
        ),
        ExprSyntax::Match { subject, return_ty, .. } => Term::match_on(
            elaborate(*subject, locals),
            elaborate(*return_ty, locals),
            entry_terms(syntax, locals),
        ),
        ExprSyntax::Fix { structure, return_ty, rec_name, body } => Term::fix(
            structure_label(structure, crate::expr::InvocationStyle::Many),
            elaborate(*structure.ty, locals),
            elaborate(*return_ty, locals.push(structure.name.name)),
            rec_name.name,
            elaborate(*body, locals.push(structure.name.name).push(rec_name.name)),
        ),
        ExprSyntax::Ref(ty) => Term::reference(elaborate(*ty, locals)),
        ExprSyntax::Deref(value) => Term::deref(elaborate(*value, locals)),
        ExprSyntax::Loan { local, loan_as, with, body } => Term::loan(
            index_of(locals, local.name),
            loan_as.name,
            with.name,
            elaborate(*body, locals.push(loan_as.name).push(with.name)),
        ),
        ExprSyntax::Take { local, body, .. } => Term::take(
            index_of(locals, local.name),
            proof_terms(syntax, locals),
            elaborate(*body, locals),
        ),
        ExprSyntax::In { reference, target } => Term::in_target(
            elaborate(*reference, locals),
            elaborate(*target, locals),
        ),
    }
}

/// What is reported for the first `n` parameters of the value `syntax` of an
/// inductive type.
pub open spec fn parameter_unknowns(source: Source, syntax: ExprSyntax, locals: Seq<Str>, n: nat) -> Seq<
    ParseError,
>
    decreases syntax, 0nat, n,
{
    match syntax {
        ExprSyntax::Intro { params, .. } => if n == 0 || n > params@.len() {
            Seq::empty()
        } else {
            parameter_unknowns(source, syntax, locals, (n - 1) as nat) + unknowns(
                source,
                params@[n - 1],
                locals,
            )
        },
        _ => Seq::empty(),
    }
}

/// What is reported for the first `n` fields or cases of `syntax`.
pub open spec fn entry_unknowns(source: Source, syntax: ExprSyntax, locals: Seq<Str>, n: nat) -> Seq<
    ParseError,
>
    decreases syntax, 0nat, n,
{
    if n == 0 || n > entries(syntax).len() {
        Seq::empty()
    } else {
        entry_unknowns(source, syntax, locals, (n - 1) as nat) + unknowns(
            source,
            entries(syntax)[n - 1].1,
            locals,
        )
    }
}

/// What is reported for the first `n` proofs of the end of a loan `syntax`:
/// for each proof, first for the variable that it speaks of and then for the
/// proof itself.
pub open spec fn proof_unknowns(source: Source, syntax: ExprSyntax, locals: Seq<Str>, n: nat) -> Seq<
    ParseError,
>
    decreases syntax, 0nat, n,
{
    if n == 0 || n > entries(syntax).len() {
        Seq::empty()
    } else {
        proof_unknowns(source, syntax, locals, (n - 1) as nat) + unknown(
            source,
            locals,
            entries(syntax)[n - 1].0,
        ) + unknowns(source, entries(syntax)[n - 1].1, locals)
    }
}

/// What is reported for `syntax`: every use of a name that no binder
/// declares, in the order of the source.
pub open spec fn unknowns(source: Source, syntax: ExprSyntax, locals: Seq<Str>) -> Seq<ParseError>
    decreases syntax, 1nat, 0nat,
{
    match syntax {
        ExprSyntax::Local(name) => unknown(source, locals, name),
        ExprSyntax::App { left, right } => unknowns(source, *left, locals) + unknowns(
            source,
            *right,
            locals,
        ),
        ExprSyntax::For(binder) => unknowns(source, *binder.structure.ty, locals) + unknowns(
            source,
            *binder.body,
            locals.push(binder.structure.name.name),
        ),
        ExprSyntax::Fun(binder) => unknowns(source, *binder.structure.ty, locals) + unknowns(
            source,
            *binder.body,
            locals.push(binder.structure.name.name),
        ),
        ExprSyntax::Let { name, to_assign, body } => unknowns(source, *to_assign, locals)
            + unknowns(source, *body, locals.push(name.name)),
        ExprSyntax::Sort(_) => Seq::empty(),
        ExprSyntax::Inst(_) => Seq::empty(),
        ExprSyntax::Intro { params, fields, .. } => parameter_unknowns(
            source,
            syntax,
            locals,
            params@.len(),
        ) + entry_unknowns(source, syntax, locals, fields@.len()),
        ExprSyntax::Match { subject, return_ty, cases } => unknowns(source, *subject, locals)
            + unknowns(source, *return_ty, locals) + entry_unknowns(
            source,
            syntax,
            locals,
            cases@.len(),
        ),
        ExprSyntax::Fix { structure, return_ty, rec_name, body } => unknowns(
            source,
            *structure.ty,
            locals,
        ) + unknowns(source, *return_ty, locals.push(structure.name.name)) + unknowns(
            source,
            *body,
            locals.push(structure.name.name).push(rec_name.name),
        ),
        ExprSyntax::Ref(ty) => unknowns(source, *ty, locals),
        ExprSyntax::Deref(value) => unknowns(source, *value, locals),
        ExprSyntax::Loan { local, loan_as, with, body } => unknown(source, locals, local)
            + unknowns(source, *body, locals.push(loan_as.name).push(with.name)),
        ExprSyntax::Take { local, proofs, body } => unknown(source, locals, local)
            + proof_unknowns(source, syntax, locals, proofs@.len()) + unknowns(
            source,
            *body,
            locals,
        ),
        ExprSyntax::In { reference, target } => unknowns(source, *reference, locals) + unknowns(
            source,
            *target,
            locals,
        ),
    }
}

/// Whether the names and paths of `syntax` are strings and paths of the
/// database, and no node of it has more sub-expressions than can be counted.
pub open spec fn known(db: &Database, syntax: ExprSyntax) -> bool
    decreases syntax,
{
    match syntax {
        ExprSyntax::Local(_) => true,
        ExprSyntax::App { left, right } => known(db, *left) && known(db, *right),
        ExprSyntax::For(binder) => db.contains_str(binder.structure.name.name) && known(
            db,
            *binder.structure.ty,
        ) && known(db, *binder.body),
        ExprSyntax::Fun(binder) => db.contains_str(binder.structure.name.name) && known(
            db,
            *binder.structure.ty,
        ) && known(db, *binder.body),
        ExprSyntax::Let { name, to_assign, body } => db.contains_str(name.name) && known(
            db,
            *to_assign,
        ) && known(db, *body),
        ExprSyntax::Sort(_) => true,
        ExprSyntax::Inst(path) => db.contains_path(path.path),
        ExprSyntax::Intro { path, params, variant, fields } => db.contains_path(path.path)
            && db.contains_str(variant.name) && params@.len() + fields@.len() <= usize::MAX
            && (forall|i: int|
            0 <= i < params@.len() ==> known(db, #[trigger] params@[i])) && (forall|i: int|
            0 <= i < fields@.len() ==> db.contains_str((#[trigger] fields@[i]).0.name) && known(
                db,
                fields@[i].1,
            )),
        ExprSyntax::Match { subject, return_ty, cases } => known(db, *subject) && known(
            db,
            *return_ty,
        ) && cases@.len() + 2 <= usize::MAX && (forall|i: int|
            0 <= i < cases@.len() ==> db.contains_str((#[trigger] cases@[i]).0.name) && known(
                db,
                cases@[i].1,
            )),
        ExprSyntax::Fix { structure, return_ty, rec_name, body } => db.contains_str(
            structure.name.name,
        ) && db.contains_str(rec_name.name) && known(db, *structure.ty) && known(db, *return_ty)
            && known(db, *body),
        ExprSyntax::Ref(ty) => known(db, *ty),
        ExprSyntax::Deref(value) => known(db, *value),
        ExprSyntax::Loan { loan_as, with, body, .. } => db.contains_str(loan_as.name)
            && db.contains_str(with.name) && known(db, *body),
        ExprSyntax::Take { proofs, body, .. } => known(db, *body) && proofs@.len() + 1
            <= usize::MAX && (forall|i: int|
            0 <= i < proofs@.len() ==> known(db, (#[trigger] proofs@[i]).1)),
        ExprSyntax::In { reference, target } => known(db, *reference) && known(db, *target),
    }
}

/// Names and paths that a database knows are known to every later state of
/// it.
pub proof fn lemma_known_preserved(before: &Database, after: &Database, syntax: ExprSyntax)
    requires
        after.preserves(before),
        known(before, syntax),
    ensures
        known(after, syntax),
    decreases syntax,
{
    match syntax {
        ExprSyntax::Local(_) => {},
        ExprSyntax::App { left, right } => {
            lemma_known_preserved(before, after, *left);
            lemma_known_preserved(before, after, *right);
        },
        ExprSyntax::For(binder) => {
            lemma_known_preserved(before, after, *binder.structure.ty);
            lemma_known_preserved(before, after, *binder.body);
        },
        ExprSyntax::Fun(binder) => {
            lemma_known_preserved(before, after, *binder.structure.ty);
            lemma_known_preserved(before, after, *binder.body);
        },
        ExprSyntax::Let { to_assign, body, .. } => {
            lemma_known_preserved(before, after, *to_assign);
            lemma_known_preserved(before, after, *body);
        },
        ExprSyntax::Sort(_) => {},
        ExprSyntax::Inst(_) => {},
        ExprSyntax::Intro { params, fields, .. } => {
            assert forall|i: int| 0 <= i < params@.len() implies known(
                after,
                #[trigger] params@[i],
            ) by {
                lemma_known_preserved(before, after, params@[i]);
            }
            assert forall|i: int| 0 <= i < fields@.len() implies after.contains_str(
                (#[trigger] fields@[i]).0.name,
            ) && known(after, fields@[i].1) by {
                lemma_known_preserved(before, after, fields@[i].1);
            }
        },
        ExprSyntax::Match { subject, return_ty, cases } => {
            lemma_known_preserved(before, after, *subject);
            lemma_known_preserved(before, after, *return_ty);
            assert forall|i: int| 0 <= i < cases@.len() implies after.contains_str(
                (#[trigger] cases@[i]).0.name,
            ) && known(after, cases@[i].1) by {
                lemma_known_preserved(before, after, cases@[i].1);
            }
        },
        ExprSyntax::Fix { structure, return_ty, body, .. } => {
            lemma_known_preserved(before, after, *structure.ty);
            lemma_known_preserved(before, after, *return_ty);
            lemma_known_preserved(before, after, *body);
        },
        ExprSyntax::Ref(ty) => {
            lemma_known_preserved(before, after, *ty);
        },
        ExprSyntax::Deref(value) => {
            lemma_known_preserved(before, after, *value);
        },
        ExprSyntax::Loan { body, .. } => {
            lemma_known_preserved(before, after, *body);
        },
        ExprSyntax::Take { proofs, body, .. } => {
            lemma_known_preserved(before, after, *body);
            assert forall|i: int| 0 <= i < proofs@.len() implies known(
                after,
                (#[trigger] proofs@[i]).1,
            ) by {
                lemma_known_preserved(before, after, proofs@[i].1);
            }
        },
        ExprSyntax::In { reference, target } => {
            lemma_known_preserved(before, after, *reference);
            lemma_known_preserved(before, after, *target);
        },
    }
}

/// A result of the parser: fatal and non-fatal diagnostics are both parse
/// errors.
pub type ParseDr<T> = Dr<T, ParseError, ParseError>;

/// A source file, turned into definitions.
#[derive(Debug, PartialEq, Eq, Hash)]
pub struct Module {
    pub path: WithProvenance<Path>,
    pub definitions: Vec<WithProvenance<Definition>>,
}

impl ParseError {
    /// The error that reports a bug in the parser.
    pub fn parser_bug(source: Source, message: &str) -> (r: ParseError)
        ensures
            r matches ParseError::ParserBug { src, message: text, label_message, label_span }
                && src == source && text@ == message@ && label_message@
                == "error occurred here"@ && label_span == (Span { start: 0, end: 0 }),
    {
        ParseError::ParserBug {
            src: source,
            message: message.to_owned(),
            label_message: "error occurred here".to_owned(),
            label_span: Span { start: 0, end: 0 },
        }
    }
}

/// Whether `r` holds an expression that stands for what `syntax` says,
/// together with a report of every name in `syntax` that no binder declares.
pub open spec fn elaborated(
    db: &Database,
    r: ParseDr<Expression>,
    source: Source,
    syntax: ExprSyntax,
    locals: Seq<Str>,
) -> bool {
    &&& r.outcome() matches Ok(e) && db.contains(e) && db.term(e) == elaborate(syntax, locals)
    &&& r.notes() == unknowns(source, syntax, locals)
}

/// Whether the binder `made` stands for what `binder` says.
pub open spec fn binder_elaborated(
    db: &Database,
    made: Binder,
    binder: BinderSyntax,
    locals: Seq<Str>,
) -> bool {
    &&& db.contains(made.structure.bound.ty)
    &&& db.term(made.structure.bound.ty) == elaborate(*binder.structure.ty, locals)
    &&& made.structure.label() == structure_label(binder.structure, binder.invocation_style)
    &&& db.contains(made.body)
    &&& db.term(made.body) == elaborate(*binder.body, locals.push(binder.structure.name.name))
}

/// Takes the value out of `dr`, and puts its diagnostics behind `notes`.
fn take_value<T>(dr: ParseDr<T>, notes: &mut Vec<ParseError>) -> (value: T)
    requires
        dr.outcome() is Ok,
    ensures
        dr.outcome() == Ok::<T, ParseError>(value),
        final(notes)@ == old(notes)@ + dr.notes(),
{
    let (value, more) = dr.into_parts();
    let mut more = more;
    notes.append(&mut more);
    value.unwrap()
}

/// `locals` with the name of one more bound variable.
fn bind(locals: &Vec<Str>, name: Str) -> (r: Vec<Str>)
    ensures
        r@ == locals@.push(name),
{
    let mut result: Vec<Str> = Vec::new();
    let n = locals.len();
    let mut i: usize = 0;
    while i < n
        invariant
            n == locals@.len(),
            i <= n,
            result@ == locals@.take(i as int),
        decreases n - i,
    {
        result.push(locals[i]);
        assert(locals@.take(i + 1) =~= locals@.take(i as int).push(locals@[i as int]));
        i += 1;
    }
    assert(locals@.take(n as int) =~= locals@);
    result.push(name);
    result
}

/// The path with its place in the source.
pub fn process_path(source: Source, path: &PathSyntax) -> (r: WithProvenance<Path>)
    ensures
        r.provenance == Some(SourceSpan { source, span: path.span }),
        r.contents == path.path,
{
    WithProvenance::new(Some(SourceSpan::new(source, path.span)), path.path)
}

/// The name with its place in the source.
pub fn process_identifier(source: Source, identifier: &Identifier) -> (r: WithProvenance<Str>)
    ensures
        r.provenance == Some(SourceSpan { source, span: identifier.span }),
        r.contents == identifier.name,
{
    WithProvenance::new(Some(SourceSpan::new(source, identifier.span)), identifier.name)
}

/// The universe with its place in the source.
pub fn process_universe(source: Source, universe: &UniverseSyntax) -> (r: WithProvenance<Universe>)
    ensures
        r.provenance == Some(SourceSpan { source, span: universe.span }),
        r.contents == universe.universe,
{
    WithProvenance::new(Some(SourceSpan::new(source, universe.span)), universe.universe)
}

/// The index of the variable that `name` refers to. A name that refers to
/// no variable is reported, and zero stands in for its index.
pub fn process_de_bruijn_index(source: Source, name: &Identifier, locals: &Vec<Str>) -> (r: ParseDr<
    DeBruijnIndex,
>)
    ensures
        r.outcome() matches Ok(index) && index@ == index_of(locals@, name.name),
        r.notes() == unknown(source, locals@, *name),
{
    let n = locals.len();
    let mut i: usize = n;
    while i > 0
        invariant
            n == locals@.len(),
            i <= n,
            position(locals@, name.name, n as nat) == position(locals@, name.name, i as nat),
        decreases i,
    {
        if locals[i - 1] == name.name {
            let index = n - i;
            if index <= u32::MAX as usize {
                return Dr::new(DeBruijnIndex::new(index as u32));
            } else {
                return Dr::new(DeBruijnIndex::zero()).with(
                    ParseError::UnknownVariable { src: source, label_span: name.span },
                );
            }
        }
        i -= 1;
    }
    let r = Dr::new(DeBruijnIndex::zero()).with(
        ParseError::UnknownVariable { src: source, label_span: name.span },
    );
    assert(r.notes() =~= unknown(source, locals@, *name));
    r
}

/// Turns the syntax of an expression into an expression, where `locals`
/// holds the names of the bound variables around it, with the innermost
/// last.
pub fn process_expr(db: &mut Database, source: Source, syntax: &ExprSyntax, locals: &Vec<Str>) -> (r:
    ParseDr<Expression>)
    requires
        old(db).wf(),
        known(old(db), *syntax),
    ensures
        final(db).wf(),
        final(db).extends(old(db)),
        elaborated(final(db), r, source, *syntax, locals@),
    decreases syntax, 2nat,
{
    match syntax {
        ExprSyntax::Local(_) => process_local(db, source, syntax, locals),
        ExprSyntax::App { .. } => process_app(db, source, syntax, locals),
        ExprSyntax::For(_) => process_for(db, source, syntax, locals),
        ExprSyntax::Fun(_) => process_fun(db, source, syntax, locals),
        ExprSyntax::Let { .. } => process_let(db, source, syntax, locals),
        ExprSyntax::Sort(universe) => Dr::new(process_sort(db, source, universe)),
        ExprSyntax::Inst(path) => Dr::new(process_inst(db, source, path)),
        ExprSyntax::Intro { .. } => process_intro(db, source, syntax, locals),
        ExprSyntax::Match { .. } => process_match(db, source, syntax, locals),
        ExprSyntax::Fix { .. } => process_fix(db, source, syntax, locals),
        ExprSyntax::Ref(_) => process_ref(db, source, syntax, locals),
        ExprSyntax::Deref(_) => process_deref(db, source, syntax, locals),
        ExprSyntax::Loan { .. } => process_loan(db, source, syntax, locals),
        ExprSyntax::Take { .. } => process_take(db, source, syntax, locals),
        ExprSyntax::In { .. } => process_in(db, source, syntax, locals),
    }
}

/// Turns a universe into an expression.
pub fn process_sort(db: &mut Database, source: Source, universe: &UniverseSyntax) -> (e: Expression)
    requires
        old(db).wf(),
    ensures
        final(db).wf(),
        final(db).extends(old(db)),
        final(db).contains(e),
        final(db).term(e) == Term::sort(universe.universe),
{
    Expression::new_sort(db, process_universe(source, universe).contents)
}

/// Turns a reference to a definition into an expression.
pub fn process_inst(db: &mut Database, source: Source, path: &PathSyntax) -> (e: Expression)
    requires
        old(db).wf(),
        old(db).contains_path(path.path),
    ensures
        final(db).wf(),
        final(db).extends(old(db)),
        final(db).contains(e),
        final(db).term(e) == Term::inst(path.path),
{
    Expression::new_inst(db, process_path(source, path).contents)
}

/// Turns the use of a variable into an expression.
pub fn process_local(db: &mut Database, source: Source, syntax: &ExprSyntax, locals: &Vec<Str>) -> (r:
    ParseDr<Expression>)
    requires
        old(db).wf(),
        known(old(db), *syntax),
        syntax is Local,
    ensures
        final(db).wf(),
        final(db).extends(old(db)),
        elaborated(final(db), r, source, *syntax, locals@),
    decreases syntax, 1nat,
{
    let mut notes: Vec<ParseError> = Vec::new();
    match syntax {
        ExprSyntax::Local(name) => {
            let index = take_value(process_de_bruijn_index(source, name, locals), &mut notes);
            let e = Expression::new_local(db, index);
            assert(notes@ =~= unknowns(source, *syntax, locals@));
            Dr::from_parts(Ok(e), notes)
        },
        _ => Dr::from_parts(Err(ParseError::parser_bug(source, "not a variable")), notes),
    }
}

/// Turns an application into an expression.
pub fn process_app(db: &mut Database, source: Source, syntax: &ExprSyntax, locals: &Vec<Str>) -> (r:
    ParseDr<Expression>)
    requires
        old(db).wf(),
        known(old(db), *syntax),
        syntax is App,
    ensures
        final(db).wf(),
        final(db).extends(old(db)),
        elaborated(final(db), r, source, *syntax, locals@),
    decreases syntax, 1nat,
{
    let mut notes: Vec<ParseError> = Vec::new();
    match syntax {
        ExprSyntax::App { left, right } => {
            let left = take_value(process_expr(db, source, left, locals), &mut notes);
            proof {
                lemma_known_preserved(old(db), db, *syntax);
            }
            let right = take_value(process_expr(db, source, right, locals), &mut notes);
            let e = Expression::new_apply(db, left, right);
            assert(notes@ =~= unknowns(source, *syntax, locals@));
            Dr::from_parts(Ok(e), notes)
        },
        _ => Dr::from_parts(Err(ParseError::parser_bug(source, "not an application")), notes),
    }
}

/// Turns the declaration of a bound variable into the structure of a
/// binder.
pub fn process_binder_structure(
    db: &mut Database,
    source: Source,
    structure: &BinderStructureSyntax,
    locals: &Vec<Str>,
    invocation_style: crate::expr::InvocationStyle,
) -> (r: ParseDr<BinderStructure>)
    requires
        old(db).wf(),
        known(old(db), *structure.ty),
    ensures
        final(db).wf(),
        final(db).extends(old(db)),
        r.outcome() matches Ok(made) && final(db).contains(made.bound.ty) && final(db).term(
            made.bound.ty,
        ) == elaborate(*structure.ty, locals@) && made.label() == structure_label(
            *structure,
            invocation_style,
        ),
        r.notes() == unknowns(source, *structure.ty, locals@),
    decreases structure, 0nat,
{
    let mut notes: Vec<ParseError> = Vec::new();
    let name = process_identifier(source, &structure.name);
    let ty = take_value(process_expr(db, source, &structure.ty, locals), &mut notes);
    assert(notes@ =~= unknowns(source, *structure.ty, locals@));
    Dr::from_parts(
        Ok(
            BinderStructure {
                bound: BoundVariable {
                    name: name.contents,
                    ty,
                    usage: if structure.erased {
                        Usage::Erased
                    } else {
                        Usage::Present
                    },
                },
                argument_style: structure.argument_style,
                invocation_style,
            },
        ),
        notes,
    )
}

/// Turns a binder and the body that it binds in into a binder.
pub fn process_binder(db: &mut Database, source: Source, binder: &BinderSyntax, locals: &Vec<Str>) -> (r:
    ParseDr<Binder>)
    requires
        old(db).wf(),
        known(old(db), *binder.structure.ty),
        known(old(db), *binder.body),
    ensures
        final(db).wf(),
        final(db).extends(old(db)),
        r.outcome() matches Ok(made) && binder_elaborated(final(db), made, *binder, locals@),
        r.notes() == unknowns(source, *binder.structure.ty, locals@) + unknowns(
            source,
            *binder.body,
            locals@.push(binder.structure.name.name),
        ),
    decreases binder, 0nat,
{
    let mut notes: Vec<ParseError> = Vec::new();
    let structure = take_value(
        process_binder_structure(db, source, &binder.structure, locals, binder.invocation_style),
        &mut notes,
    );
    proof {
        lemma_known_preserved(old(db), db, *binder.body);
    }
    let new_locals = bind(locals, structure.bound.name);
    let body = take_value(process_expr(db, source, &binder.body, &new_locals), &mut notes);
    assert(notes@ =~= unknowns(source, *binder.structure.ty, locals@) + unknowns(
        source,
        *binder.body,
        locals@.push(binder.structure.name.name),
    ));
    Dr::from_parts(Ok(Binder { structure, body }), notes)
}

/// Turns a function type into an expression.
pub fn process_for(db: &mut Database, source: Source, syntax: &ExprSyntax, locals: &Vec<Str>) -> (r:
    ParseDr<Expression>)
    requires
        old(db).wf(),
        known(old(db), *syntax),
        syntax is For,
    ensures
        final(db).wf(),
        final(db).extends(old(db)),
        elaborated(final(db), r, source, *syntax, locals@),
    decreases syntax, 1nat,
{
    let mut notes: Vec<ParseError> = Vec::new();
    match syntax {
        ExprSyntax::For(binder) => {
            let binder = take_value(process_binder(db, source, binder, locals), &mut notes);
            let e = Expression::new_pi(db, binder);
            assert(notes@ =~= unknowns(source, *syntax, locals@));
            Dr::from_parts(Ok(e), notes)
        },
        _ => Dr::from_parts(Err(ParseError::parser_bug(source, "not a function type")), notes),
    }
}

/// Turns a function into an expression.
pub fn process_fun(db: &mut Database, source: Source, syntax: &ExprSyntax, locals: &Vec<Str>) -> (r:
    ParseDr<Expression>)
    requires
        old(db).wf(),
        known(old(db), *syntax),
        syntax is Fun,
    ensures
        final(db).wf(),
        final(db).extends(old(db)),
        elaborated(final(db), r, source, *syntax, locals@),
    decreases syntax, 1nat,
{
    let mut notes: Vec<ParseError> = Vec::new();
    match syntax {
        ExprSyntax::Fun(binder) => {
            let binder = take_value(process_binder(db, source, binder, locals), &mut notes);
            let e = Expression::new_lambda(db, binder);
            assert(notes@ =~= unknowns(source, *syntax, locals@));
            Dr::from_parts(Ok(e), notes)
        },
        _ => Dr::from_parts(Err(ParseError::parser_bug(source, "not a function")), notes),
    }
}

/// Turns a local definition into an expression.
pub fn process_let(db: &mut Database, source: Source, syntax: &ExprSyntax, locals: &Vec<Str>) -> (r:
    ParseDr<Expression>)
    requires
        old(db).wf(),
        known(old(db), *syntax),
        syntax is Let,
    ensures
        final(db).wf(),
        final(db).extends(old(db)),
        elaborated(final(db), r, source, *syntax, locals@),
    decreases syntax, 1nat,
{
    let mut notes: Vec<ParseError> = Vec::new();
    match syntax {
        ExprSyntax::Let { name, to_assign, body } => {
            let name = process_identifier(source, name);
            let to_assign = take_value(process_expr(db, source, to_assign, locals), &mut notes);
            proof {
                lemma_known_preserved(old(db), db, *syntax);
            }
            let new_locals = bind(locals, name.contents);
            let body = take_value(process_expr(db, source, body, &new_locals), &mut notes);
            let e = Expression::new_let(db, name.contents, to_assign, body);
            assert(notes@ =~= unknowns(source, *syntax, locals@));
            Dr::from_parts(Ok(e), notes)
        },
        _ => Dr::from_parts(Err(ParseError::parser_bug(source, "not a local definition")), notes),
    }
}

/// Turns a type of references into an expression.
pub fn process_ref(db: &mut Database, source: Source, syntax: &ExprSyntax, locals: &Vec<Str>) -> (r:
    ParseDr<Expression>)
    requires
        old(db).wf(),
        known(old(db), *syntax),
        syntax is Ref,
    ensures
        final(db).wf(),
        final(db).extends(old(db)),
        elaborated(final(db), r, source, *syntax, locals@),
    decreases syntax, 1nat,
{
    let mut notes: Vec<ParseError> = Vec::new();
    match syntax {
        ExprSyntax::Ref(ty) => {
            let ty = take_value(process_expr(db, source, ty, locals), &mut notes);
            let e = Expression::new_ref(db, ty);
            assert(notes@ =~= unknowns(source, *syntax, locals@));
            Dr::from_parts(Ok(e), notes)
        },
        _ => Dr::from_parts(Err(ParseError::parser_bug(source, "not a reference type")), notes),
    }
}

/// Turns a dereference into an expression.
pub fn process_deref(db: &mut Database, source: Source, syntax: &ExprSyntax, locals: &Vec<Str>) -> (r:
    ParseDr<Expression>)
    requires
        old(db).wf(),
        known(old(db), *syntax),
        syntax is Deref,
    ensures
        final(db).wf(),
        final(db).extends(old(db)),
        elaborated(final(db), r, source, *syntax, locals@),
    decreases syntax, 1nat,
{
    let mut notes: Vec<ParseError> = Vec::new();
    match syntax {
        ExprSyntax::Deref(value) => {
            let value = take_value(process_expr(db, source, value, locals), &mut notes);
            let e = Expression::new_deref(db, value);
            assert(notes@ =~= unknowns(source, *syntax, locals@));
            Dr::from_parts(Ok(e), notes)
        },
        _ => Dr::from_parts(Err(ParseError::parser_bug(source, "not a dereference")), notes),
    }
}

/// Turns a reference stored in a value into an expression.
pub fn process_in(db: &mut Database, source: Source, syntax: &ExprSyntax, locals: &Vec<Str>) -> (r:
    ParseDr<Expression>)
    requires
        old(db).wf(),
        known(old(db), *syntax),
        syntax is In,
    ensures
        final(db).wf(),
        final(db).extends(old(db)),
        elaborated(final(db), r, source, *syntax, locals@),
    decreases syntax, 1nat,
{
    let mut notes: Vec<ParseError> = Vec::new();
    match syntax {
        ExprSyntax::In { reference, target } => {
            let reference = take_value(process_expr(db, source, reference, locals), &mut notes);
            proof {
                lemma_known_preserved(old(db), db, *syntax);
            }
            let target = take_value(process_expr(db, source, target, locals), &mut notes);
            let e = Expression::new_in(db, reference, target);
            assert(notes@ =~= unknowns(source, *syntax, locals@));
            Dr::from_parts(Ok(e), notes)
        },
        _ => Dr::from_parts(Err(ParseError::parser_bug(source, "not an `in` expression")), notes),
    }
}

/// Turns a fixed point into an expression.
pub fn process_fix(db: &mut Database, source: Source, syntax: &ExprSyntax, locals: &Vec<Str>) -> (r:
    ParseDr<Expression>)
    requires
        old(db).wf(),
        known(old(db), *syntax),
        syntax is Fix,
    ensures
        final(db).wf(),
        final(db).extends(old(db)),
        elaborated(final(db), r, source, *syntax, locals@),
    decreases syntax, 1nat,
{
    let mut notes: Vec<ParseError> = Vec::new();
    match syntax {
        ExprSyntax::Fix { structure, return_ty, rec_name, body } => {
            let binder_structure = take_value(
                process_binder_structure(
                    db,
                    source,
                    structure,
                    locals,
                    crate::expr::InvocationStyle::Many,
                ),
                &mut notes,
            );
            proof {
                lemma_known_preserved(old(db), db, *syntax);
            }
            let mut new_locals = bind(locals, binder_structure.bound.name);
            let return_ty = take_value(
                process_expr(db, source, return_ty, &new_locals),
                &mut notes,
            );
            proof {
                lemma_known_preserved(old(db), db, *syntax);
            }
            let rec_name = process_identifier(source, rec_name);
            new_locals.push(rec_name.contents);
            let body = take_value(process_expr(db, source, body, &new_locals), &mut notes);
            let e = Expression::new_fix(
                db,
                Binder { structure: binder_structure, body: return_ty },
                rec_name.contents,
                body,
            );
            assert(notes@ =~= unknowns(source, *syntax, locals@));
            Dr::from_parts(Ok(e), notes)
        },
        _ => Dr::from_parts(Err(ParseError::parser_bug(source, "not a fixed point")), notes),
    }
}

/// Turns a loan into an expression.
pub fn process_loan(db: &mut Database, source: Source, syntax: &ExprSyntax, locals: &Vec<Str>) -> (r:
    ParseDr<Expression>)
    requires
        old(db).wf(),
        known(old(db), *syntax),
        syntax is Loan,
    ensures
        final(db).wf(),
        final(db).extends(old(db)),
        elaborated(final(db), r, source, *syntax, locals@),
    decreases syntax, 1nat,
{
    let mut notes: Vec<ParseError> = Vec::new();
    match syntax {
        ExprSyntax::Loan { local, loan_as, with, body } => {
            let local = take_value(process_de_bruijn_index(source, local, locals), &mut notes);
            let loan_as = process_identifier(source, loan_as);
            let with = process_identifier(source, with);
            let mut new_locals = bind(locals, loan_as.contents);
            new_locals.push(with.contents);
            let body = take_value(process_expr(db, source, body, &new_locals), &mut notes);
            let e = Expression::new_loan(db, local, loan_as.contents, with.contents, body);
            assert(notes@ =~= unknowns(source, *syntax, locals@));
            Dr::from_parts(Ok(e), notes)
        },
        _ => Dr::from_parts(Err(ParseError::parser_bug(source, "not a loan")), notes),
    }
}

/// Turns a value of an inductive type into an expression.
pub fn process_intro(db: &mut Database, source: Source, syntax: &ExprSyntax, locals: &Vec<Str>) -> (r:
    ParseDr<Expression>)
    requires
        old(db).wf(),
        known(old(db), *syntax),
        syntax is Intro,
    ensures
        final(db).wf(),
        final(db).extends(old(db)),
        elaborated(final(db), r, source, *syntax, locals@),
    decreases syntax, 1nat,
{
    let mut notes: Vec<ParseError> = Vec::new();
    match syntax {
        ExprSyntax::Intro { path, params, variant, fields } => {
            let path = process_path(source, path);
            let mut parameters: Vec<Expression> = Vec::new();
            let count = params.len();
            let mut i: usize = 0;
            while i < count
                invariant
                    old(db).wf(),
                    known(old(db), *syntax),
                    *syntax == (ExprSyntax::Intro {
                        path: syntax->Intro_path,
                        params: *params,
                        variant: *variant,
                        fields: *fields,
                    }),
                    db.wf(),
                    db.extends(old(db)),
                    count == params@.len(),
                    i <= count,
                    parameters@.len() == i,
                    db.contains_all(parameters@),
                    forall|k: int|
                        0 <= k < i ==> db.term(#[trigger] parameters@[k]) == elaborate(
                            params@[k],
                            locals@,
                        ),
                    notes@ == parameter_unknowns(source, *syntax, locals@, i as nat),
                decreases count - i,
            {
                proof {
                    lemma_known_preserved(old(db), db, *syntax);
                }
                let ghost before = *db;
                let parameter = take_value(process_expr(db, source, &params[i], locals), &mut notes);
                proof {
                    assert forall|k: int| 0 <= k < i implies db.contains(#[trigger] parameters@[k])
                        && db.term(parameters@[k]) == elaborate(params@[k], locals@) by {
                        assert(before.contains(parameters@[k]));
                    }
                }
                parameters.push(parameter);
                i += 1;
            }
            let variant = process_identifier(source, variant);
            proof {
                lemma_known_preserved(old(db), db, *syntax);
                assert(db.terms(parameters@) =~= parameter_terms(*syntax, locals@));
            }
            let ghost before = *db;
            let values = process_entries(db, source, syntax, fields, locals, &mut notes);
            proof {
                db.lemma_terms_preserved(&before, parameters@);
            }
            let e = Expression::new_intro(db, path.contents, parameters, variant.contents, values);
            assert(notes@ =~= unknowns(source, *syntax, locals@));
            Dr::from_parts(Ok(e), notes)
        },
        _ => Dr::from_parts(Err(ParseError::parser_bug(source, "not a value")), notes),
    }
}

/// Turns the fields of a value of an inductive type, or the cases of a case
/// distinction, into expressions.
fn process_entries(
    db: &mut Database,
    source: Source,
    syntax: &ExprSyntax,
    list: &Vec<(Identifier, ExprSyntax)>,
    locals: &Vec<Str>,
    notes: &mut Vec<ParseError>,
) -> (values: VecMap<Str, Expression>)
    requires
        old(db).wf(),
        known(old(db), *syntax),
        syntax is Intro || syntax is Match,
        list@ == entries(*syntax),
    ensures
        final(db).wf(),
        final(db).extends(old(db)),
        values@.len() == list@.len(),
        final(db).contains_all(values.values()),
        final(db).contains_strs(values.keys()),
        final(db).named_terms(values@) == entry_terms(*syntax, locals@),
        final(notes)@ == old(notes)@ + entry_unknowns(source, *syntax, locals@, list@.len()),
    decreases syntax, 0nat,
{
    let ghost start = notes@;
    let mut values: VecMap<Str, Expression> = VecMap::new();
    let n = list.len();
    let mut j: usize = 0;
    assert(notes@ =~= start + entry_unknowns(source, *syntax, locals@, 0));
    while j < n
        invariant
            old(db).wf(),
            known(old(db), *syntax),
            syntax is Intro || syntax is Match,
            list@ == entries(*syntax),
            db.wf(),
            db.extends(old(db)),
            n == list@.len(),
            j <= n,
            values@.len() == j,
            forall|k: int|
                0 <= k < j ==> db.contains((#[trigger] values@[k]).1) && values@[k].0
                    == list@[k].0.name && db.term(values@[k].1) == elaborate(list@[k].1, locals@),
            notes@ == start + entry_unknowns(source, *syntax, locals@, j as nat),
        decreases n - j,
    {
        proof {
            lemma_known_preserved(old(db), db, *syntax);
        }
        let ghost before = *db;
        let ghost earlier = values@;
        let name = process_identifier(source, &list[j].0);
        let value = take_value(process_expr(db, source, &list[j].1, locals), notes);
        values.push(name.contents, value);
        proof {
            assert forall|k: int| 0 <= k < j + 1 implies db.contains((#[trigger] values@[k]).1)
                && values@[k].0 == list@[k].0.name && db.term(values@[k].1) == elaborate(
                list@[k].1,
                locals@,
            ) by {
                if k < j {
                    assert(values@[k] == earlier[k]);
                    assert(before.contains(earlier[k].1));
                }
            }
            assert(notes@ =~= start + entry_unknowns(source, *syntax, locals@, (j + 1) as nat));
        }
        j += 1;
    }
    proof {
        lemma_known_preserved(old(db), db, *syntax);
        assert forall|k: int| 0 <= k < values.keys().len() implies db.contains_str(
            #[trigger] values.keys()[k],
        ) by {
            assert(values.keys()[k] == list@[k].0.name);
        }
        assert forall|k: int| 0 <= k < values.values().len() implies db.contains(
            #[trigger] values.values()[k],
        ) by {
            assert(values.values()[k] == values@[k].1);
        }
        assert(db.named_terms(values@) =~= entry_terms(*syntax, locals@));
    }
    values
}

/// Turns a case distinction into an expression.
pub fn process_match(db: &mut Database, source: Source, syntax: &ExprSyntax, locals: &Vec<Str>) -> (r:
    ParseDr<Expression>)
    requires
        old(db).wf(),
        known(old(db), *syntax),
        syntax is Match,
    ensures
        final(db).wf(),
        final(db).extends(old(db)),
        elaborated(final(db), r, source, *syntax, locals@),
    decreases syntax, 1nat,
{
    let mut notes: Vec<ParseError> = Vec::new();
    match syntax {
        ExprSyntax::Match { subject, return_ty, cases } => {
            let subject = take_value(process_expr(db, source, subject, locals), &mut notes);
            proof {
                lemma_known_preserved(old(db), db, *syntax);
            }
            let return_ty = take_value(process_expr(db, source, return_ty, locals), &mut notes);
            proof {
                lemma_known_preserved(old(db), db, *syntax);
            }
            let cases = process_entries(db, source, syntax, cases, locals, &mut notes);
            let e = Expression::new_match(db, subject, return_ty, cases);
            assert(notes@ =~= unknowns(source, *syntax, locals@));
            Dr::from_parts(Ok(e), notes)
        },
        _ => Dr::from_parts(Err(ParseError::parser_bug(source, "not a case distinction")), notes),
    }
}

/// Turns the end of a loan into an expression.
pub fn process_take(db: &mut Database, source: Source, syntax: &ExprSyntax, locals: &Vec<Str>) -> (r:
    ParseDr<Expression>)
    requires
        old(db).wf(),
        known(old(db), *syntax),
        syntax is Take,
    ensures
        final(db).wf(),
        final(db).extends(old(db)),
        elaborated(final(db), r, source, *syntax, locals@),
    decreases syntax, 1nat,
{
    let mut notes: Vec<ParseError> = Vec::new();
    match syntax {
        ExprSyntax::Take { local, proofs, body } => {
            let local = take_value(process_de_bruijn_index(source, local, locals), &mut notes);
            let ghost start = notes@;
            let mut values: VecMap<DeBruijnIndex, Expression> = VecMap::new();
            let n = proofs.len();
            let mut j: usize = 0;
            assert(notes@ =~= start + proof_unknowns(source, *syntax, locals@, 0));
            while j < n
                invariant
                    old(db).wf(),
                    known(old(db), *syntax),
                    *syntax == (ExprSyntax::Take {
                        local: syntax->Take_local,
                        proofs: *proofs,
                        body: syntax->Take_body,
                    }),
                    db.wf(),
                    db.extends(old(db)),
                    n == proofs@.len(),
                    j <= n,
                    values@.len() == j,
                    forall|k: int|
                        0 <= k < j ==> db.contains((#[trigger] values@[k]).1) && values@[k].0@
                            == index_of(locals@, proofs@[k].0.name) && db.term(values@[k].1)
                            == elaborate(proofs@[k].1, locals@),
                    notes@ == start + proof_unknowns(source, *syntax, locals@, j as nat),
                decreases n - j,
            {
                proof {
                    lemma_known_preserved(old(db), db, *syntax);
                }
                let ghost before = *db;
                let ghost earlier = values@;
                let index = take_value(
                    process_de_bruijn_index(source, &proofs[j].0, locals),
                    &mut notes,
                );
                let proof_term = take_value(
                    process_expr(db, source, &proofs[j].1, locals),
                    &mut notes,
                );
                values.push(index, proof_term);
                proof {
                    assert forall|k: int| 0 <= k < j + 1 implies db.contains(
                        (#[trigger] values@[k]).1,
                    ) && values@[k].0@ == index_of(locals@, proofs@[k].0.name) && db.term(
                        values@[k].1,
                    ) == elaborate(proofs@[k].1, locals@) by {
                        if k < j {
                            assert(values@[k] == earlier[k]);
                            assert(before.contains(earlier[k].1));
                        }
                    }
                    assert(notes@ =~= start + proof_unknowns(
                        source,
                        *syntax,
                        locals@,
                        (j + 1) as nat,
                    ));
                }
                j += 1;
            }
            proof {
                lemma_known_preserved(old(db), db, *syntax);
            }
            let ghost before = *db;
            let body = take_value(process_expr(db, source, body, locals), &mut notes);
            proof {
                assert forall|k: int| 0 <= k < values.values().len() implies db.contains(
                    #[trigger] values.values()[k],
                ) by {
                    assert(values.values()[k] == values@[k].1);
                    assert(before.contains(values@[k].1));
                }
                assert(db.proof_terms(values@) =~= proof_terms(*syntax, locals@)) by {
                    assert forall|k: int| 0 <= k < values@.len() implies db.proof_terms(
                        values@,
                    )[k] == proof_terms(*syntax, locals@)[k] by {
                        assert(before.contains(values@[k].1));
                    }
                }
            }
            let e = Expression::new_take(db, local, values, body);
            assert(notes@ =~= unknowns(source, *syntax, locals@));
            Dr::from_parts(Ok(e), notes)
        },
        _ => Dr::from_parts(Err(ParseError::parser_bug(source, "not the end of a loan")), notes),
    }
}

/// Whether the names and paths of `definition` are strings and paths of the
/// database.
pub open spec fn definition_known(db: &Database, definition: DefinitionSyntax) -> bool {
    &&& db.contains_str(definition.name.name)
    &&& known(db, definition.ty)
    &&& known(db, definition.body)
}

/// Whether the names and paths of `module` are strings and paths of the
/// database.
pub open spec fn module_known(db: &Database, module: ModuleSyntax) -> bool {
    &&& db.contains_path(module.path.path)
    &&& forall|i: int|
        0 <= i < module.definitions@.len() ==> definition_known(
            db,
            #[trigger] module.definitions@[i],
        )
}

/// Whether `made` is the definition that `definition` stands for.
pub open spec fn definition_elaborated(
    db: &Database,
    made: WithProvenance<Definition>,
    source: Source,
    definition: DefinitionSyntax,
) -> bool {
    &&& made.provenance == Some(SourceSpan { source, span: definition.span })
    &&& made.contents.name.provenance == Some(SourceSpan { source, span: definition.name.span })
    &&& made.contents.name.contents == definition.name.name
    &&& made.contents.usage == if definition.erased {
        Usage::Erased
    } else {
        Usage::Present
    }
    &&& db.contains(made.contents.ty)
    &&& db.term(made.contents.ty) == elaborate(definition.ty, Seq::empty())
    &&& made.contents.body matches Some(body) && db.contains(body) && db.term(body) == elaborate(
        definition.body,
        Seq::empty(),
    )
}

/// What is reported for `definition`: first for its type, then for its
/// body.
pub open spec fn definition_unknowns(source: Source, definition: DefinitionSyntax) -> Seq<
    ParseError,
> {
    unknowns(source, definition.ty, Seq::empty()) + unknowns(
        source,
        definition.body,
        Seq::empty(),
    )
}

/// What is reported for the first `n` definitions of `module`.
pub open spec fn module_unknowns(source: Source, module: ModuleSyntax, n: nat) -> Seq<ParseError>
    decreases n,
{
    if n == 0 || n > module.definitions@.len() {
        Seq::empty()
    } else {
        module_unknowns(source, module, (n - 1) as nat) + definition_unknowns(
            source,
            module.definitions@[n - 1],
        )
    }
}

/// Whether `made` is the module that `module` stands for.
pub open spec fn module_elaborated(
    db: &Database,
    made: Module,
    source: Source,
    module: ModuleSyntax,
) -> bool {
    &&& made.path.provenance == Some(SourceSpan { source, span: module.path.span })
    &&& made.path.contents == module.path.path
    &&& made.definitions@.len() == module.definitions@.len()
    &&& forall|i: int|
        0 <= i < made.definitions@.len() ==> definition_elaborated(
            db,
            #[trigger] made.definitions@[i],
            source,
            module.definitions@[i],
        )
}

/// Turns the syntax of a definition into a definition. Nothing is in scope
/// in its type and its body.
pub fn process_definition(db: &mut Database, source: Source, definition: &DefinitionSyntax) -> (r:
    ParseDr<WithProvenance<Definition>>)
    requires
        old(db).wf(),
        definition_known(old(db), *definition),
    ensures
        final(db).wf(),
        final(db).extends(old(db)),
        r.outcome() matches Ok(made) && definition_elaborated(final(db), made, source, *definition),
        r.notes() == definition_unknowns(source, *definition),
{
    let mut notes: Vec<ParseError> = Vec::new();
    let locals: Vec<Str> = Vec::new();
    assert(locals@ =~= Seq::<Str>::empty());
    let ty = take_value(process_expr(db, source, &definition.ty, &locals), &mut notes);
    proof {
        lemma_known_preserved(old(db), db, definition.body);
    }
    let body = take_value(process_expr(db, source, &definition.body, &locals), &mut notes);
    assert(notes@ =~= definition_unknowns(source, *definition));
    Dr::from_parts(
        Ok(
            WithProvenance::new(
                Some(SourceSpan::new(source, definition.span)),
                Definition {
                    name: process_identifier(source, &definition.name),
                    usage: if definition.erased {
                        Usage::Erased
                    } else {
                        Usage::Present
                    },
                    ty,
                    body: Some(body),
                },
            ),
        ),
        notes,
    )
}

/// Turns the syntax of a source file into a [`Module`].
pub fn process_module(db: &mut Database, source: Source, module: &ModuleSyntax) -> (r: ParseDr<
    Module,
>)
    requires
        old(db).wf(),
        module_known(old(db), *module),
    ensures
        final(db).wf(),
        final(db).extends(old(db)),
        r.outcome() matches Ok(made) && module_elaborated(final(db), made, source, *module),
        r.notes() == module_unknowns(source, *module, module.definitions@.len()),
{
    let mut notes: Vec<ParseError> = Vec::new();
    // Process the module's name.
    let path = process_path(source, &module.path);
    // Process all of the definitions.
    let mut definitions: Vec<WithProvenance<Definition>> = Vec::new();
    let n = module.definitions.len();
    let mut i: usize = 0;
    while i < n
        invariant
            old(db).wf(),
            module_known(old(db), *module),
            db.wf(),
            db.extends(old(db)),
            n == module.definitions@.len(),
            i <= n,
            definitions@.len() == i,
            forall|k: int|
                0 <= k < i ==> definition_elaborated(
                    db,
                    #[trigger] definitions@[k],
                    source,
                    module.definitions@[k],
                ),
            notes@ == module_unknowns(source, *module, i as nat),
        decreases n - i,
    {
        let ghost before = *db;
        let ghost earlier = definitions@;
        proof {
            let next = module.definitions@[i as int];
            assert(definition_known(old(db), next));
            lemma_known_preserved(old(db), db, next.ty);
            lemma_known_preserved(old(db), db, next.body);
        }
        let definition = take_value(
            process_definition(db, source, &module.definitions[i]),
            &mut notes,
        );
        definitions.push(definition);
        proof {
            assert forall|k: int| 0 <= k < i + 1 implies definition_elaborated(
                db,
                #[trigger] definitions@[k],
                source,
                module.definitions@[k],
            ) by {
                if k < i {
                    assert(definitions@[k] == earlier[k]);
                    assert(definition_elaborated(&before, earlier[k], source, module.definitions@[k]));
                    assert(before.contains(earlier[k].contents.ty));
                    assert(before.contains(earlier[k].contents.body->0));
                }
            }
        }
        i += 1;
    }
    Dr::from_parts(Ok(Module { path, definitions }), notes)
}

impl ExprSyntax {
    /// Whether the names and paths of this syntax are strings and paths of
    /// the database, and no node of it has more sub-expressions than can be
    /// counted.
    pub fn is_known(&self, db: &Database) -> (r: bool)
        ensures
            r == known(db, *self),
        decreases self, 1nat,
    {
        match self {
            ExprSyntax::Local(_) => true,
            ExprSyntax::App { left, right } => left.is_known(db) && right.is_known(db),
            ExprSyntax::For(binder) => db.has_str(binder.structure.name.name)
                && binder.structure.ty.is_known(db) && binder.body.is_known(db),
            ExprSyntax::Fun(binder) => db.has_str(binder.structure.name.name)
                && binder.structure.ty.is_known(db) && binder.body.is_known(db),
            ExprSyntax::Let { name, to_assign, body } => db.has_str(name.name)
                && to_assign.is_known(db) && body.is_known(db),
            ExprSyntax::Sort(_) => true,
            ExprSyntax::Inst(path) => db.has_path(path.path),
            ExprSyntax::Intro { path, params, variant, fields } => {
                if !db.has_path(path.path) || !db.has_str(variant.name) {
                    return false;
                }
                if params.len() > usize::MAX - fields.len() {
                    return false;
                }
                let count = params.len();
                let mut i: usize = 0;
                while i < count
                    invariant
                        self is Intro,
                        self->Intro_params == *params,
                        self->Intro_fields == *fields,
                        count == params@.len(),
                        i <= count,
                        forall|k: int| 0 <= k < i ==> known(db, #[trigger] params@[k]),
                    decreases count - i,
                {
                    let parameter = &params[i];
                    assert(*parameter == params@[i as int]);
                    if !parameter.is_known(db) {
                        return false;
                    }
                    i += 1;
                }
                entries_known(db, self, fields, true)
            },
            ExprSyntax::Match { subject, return_ty, cases } => {
                if !subject.is_known(db) || !return_ty.is_known(db) {
                    return false;
                }
                if cases.len() > usize::MAX - 2 {
                    return false;
                }
                entries_known(db, self, cases, true)
            },
            ExprSyntax::Fix { structure, return_ty, rec_name, body } => db.has_str(
                structure.name.name,
            ) && db.has_str(rec_name.name) && structure.ty.is_known(db) && return_ty.is_known(db)
                && body.is_known(db),
            ExprSyntax::Ref(ty) => ty.is_known(db),
            ExprSyntax::Deref(value) => value.is_known(db),
            ExprSyntax::Loan { loan_as, with, body, .. } => db.has_str(loan_as.name) && db.has_str(
                with.name,
            ) && body.is_known(db),
            ExprSyntax::Take { proofs, body, .. } => {
                if !body.is_known(db) {
                    return false;
                }
                if proofs.len() > usize::MAX - 1 {
                    return false;
                }
                entries_known(db, self, proofs, false)
            },
            ExprSyntax::In { reference, target } => reference.is_known(db) && target.is_known(db),
        }
    }
}

/// Whether the values of the entries `list` of `syntax` are known to the
/// database, and their names too if `names` says that names count.
fn entries_known(
    db: &Database,
    syntax: &ExprSyntax,
    list: &Vec<(Identifier, ExprSyntax)>,
    names: bool,
) -> (r: bool)
    requires
        list@ == entries(*syntax),
        syntax is Intro || syntax is Match || syntax is Take,
    ensures
        r == forall|i: int|
            0 <= i < list@.len() ==> (names ==> db.contains_str((#[trigger] list@[i]).0.name))
                && known(db, list@[i].1),
    decreases syntax, 0nat,
{
    let n = list.len();
    let mut j: usize = 0;
    while j < n
        invariant
            list@ == entries(*syntax),
            syntax is Intro || syntax is Match || syntax is Take,
            n == list@.len(),
            j <= n,
            forall|i: int|
                0 <= i < j ==> (names ==> db.contains_str((#[trigger] list@[i]).0.name)) && known(
                    db,
                    list@[i].1,
                ),
        decreases n - j,
    {
        if names && !db.has_str(list[j].0.name) {
            return false;
        }
        if !list[j].1.is_known(db) {
            return false;
        }
        j += 1;
    }
    true
}

impl ModuleSyntax {
    /// Whether the names and paths of this module are strings and paths of
    /// the database.
    pub fn is_known(&self, db: &Database) -> (r: bool)
        ensures
            r == module_known(db, *self),
    {
        if !db.has_path(self.path.path) {
            return false;
        }
        let n = self.definitions.len();
        let mut i: usize = 0;
        while i < n
            invariant
                n == self.definitions@.len(),
                i <= n,
                forall|k: int| 0 <= k < i ==> definition_known(db, #[trigger] self.definitions@[k]),
            decreases n - i,
        {
            let definition = &self.definitions[i];
            if !db.has_str(definition.name.name) || !definition.ty.is_known(db)
                || !definition.body.is_known(db) {
                return false;
            }
            i += 1;
        }
        true
    }
}

/// Turns the syntax of a source file into a [`Module`], if its names and
/// paths are strings and paths of the database. A module that holds a name
/// of some other database is refused as a bug of the parser that made it.
pub fn parse_module(db: &mut Database, source: Source, module: &ModuleSyntax) -> (r: ParseDr<Module>)
    requires
        old(db).wf(),
    ensures
        final(db).wf(),
        final(db).extends(old(db)),
        r.outcome() is Ok <==> module_known(old(db), *module),
        r.outcome() matches Ok(made) ==> module_elaborated(final(db), made, source, *module)
            && r.notes() == module_unknowns(source, *module, module.definitions@.len()),
        r.outcome() matches Err(error) ==> error is ParserBug && r.notes() == Seq::<
            ParseError,
        >::empty(),
{
    if module.is_known(db) {
        process_module(db, source, module)
    } else {
        Dr::new_err(ParseError::parser_bug(source, "a name is not interned"))
    }
}

} // verus!
