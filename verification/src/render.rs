//! Writes expressions as text.
//!
//! The text is badly formatted but clear and unambiguous: every application
//! argument stands in brackets, and every list has one entry per line. Bound
//! variables are written by the names of their binders.

use vstd::prelude::*;
use vstd::string::StringExecFns;
use crate::database::Database;
use crate::de_bruijn::DeBruijnIndex;
use crate::expr::{
    ArgumentStyle,
    BinderStructure,
    Expression,
    ExpressionData,
    InvocationStyle,
    Usage,
};
use crate::files::{path_text, Str};
use crate::term::{BinderLabel, Label, Term};
use crate::text::{decimal, write_decimal};

verus! {

broadcast use {Expression::lemma_index, DeBruijnIndex::lemma_bounded};

/// How the variable with the given index is written: by the name that
/// `locals`, which holds the names of the bound variables with the innermost
/// last, gives it, or by its index if no binder is known for it.
pub open spec fn local_text(db: &Database, locals: Seq<Str>, index: nat) -> Seq<char> {
    if index < locals.len() {
        db.text(locals[locals.len() - 1 - index])
    } else {
        "<local "@ + decimal(index) + ">"@
    }
}

/// How a binder is written in front of the body that it binds in, given the
/// text of the type of its variable.
pub open spec fn structure_text(db: &Database, structure: BinderLabel, ty: Seq<char>) -> Seq<char> {
    let open = match structure.argument_style {
        ArgumentStyle::Explicit => "( "@,
        ArgumentStyle::ImplicitEager => "{ "@,
        ArgumentStyle::ImplicitWeak => "{{ "@,
    };
    let usage = match structure.usage {
        Usage::Erased => "0 "@,
        Usage::Present => Seq::empty(),
    };
    let close = match structure.argument_style {
        ArgumentStyle::Explicit => " )"@,
        ArgumentStyle::ImplicitEager => " }"@,
        ArgumentStyle::ImplicitWeak => " }}"@,
    };
    let arrow = match structure.invocation_style {
        InvocationStyle::Once => " -> "@,
        InvocationStyle::Many => " => "@,
    };
    open + db.text(structure.name) + " : "@ + usage + ty + close + arrow
}

/// What stands in front of each of `n` parameters.
pub open spec fn parameter_heads(n: nat) -> Seq<Seq<char>> {
    Seq::new(n, |i: int| " ( "@)
}

/// What stands in front of the value of each of the fields `names`.
pub open spec fn field_heads(db: &Database, names: Seq<Str>) -> Seq<Seq<char>> {
    Seq::new(names.len(), |i: int| "\n"@ + db.text(names[i]) + " = "@)
}

/// What stands in front of each of the cases `names`.
pub open spec fn case_heads(db: &Database, names: Seq<Str>) -> Seq<Seq<char>> {
    Seq::new(names.len(), |i: int| "\n"@ + db.text(names[i]) + " -> "@)
}

/// What stands in front of the proof for each of the variables `proofs`.
pub open spec fn proof_heads(db: &Database, locals: Seq<Str>, proofs: Seq<nat>) -> Seq<Seq<char>> {
    Seq::new(proofs.len(), |i: int| "\n"@ + local_text(db, locals, proofs[i]) + " -> "@)
}

/// The text of the expression that `t` stands for, where `locals` holds the
/// names of the bound variables around it, with the innermost last.
pub open spec fn render(db: &Database, t: Term, locals: Seq<Str>) -> Seq<char>
    decreases t, t.children.len() + 1,
{
    match t.label {
        Label::Local(index) => local_text(db, locals, index),
        Label::Apply => if t.children.len() == 2 {
            render(db, t.children[0], locals) + " ( "@ + render(db, t.children[1], locals) + " )"@
        } else {
            Seq::empty()
        },
        Label::Lambda(structure) => if t.children.len() == 2 {
            "fun "@ + structure_text(db, structure, render(db, t.children[0], locals)) + render(
                db,
                t.children[1],
                locals.push(structure.name),
            )
        } else {
            Seq::empty()
        },
        Label::Pi(structure) => if t.children.len() == 2 {
            "for "@ + structure_text(db, structure, render(db, t.children[0], locals)) + render(
                db,
                t.children[1],
                locals.push(structure.name),
            )
        } else {
            Seq::empty()
        },
        Label::Let(name) => if t.children.len() == 2 {
            "let "@ + db.text(name) + " = "@ + render(db, t.children[0], locals) + " ;\n"@ + render(
                db,
                t.children[1],
                locals.push(name),
            )
        } else {
            Seq::empty()
        },
        Label::Sort(universe) => "Sort "@ + decimal(universe.0 as nat),
        Label::Inst(path) => "inst "@ + path_text(db, path),
        Label::Intro { path, variant, parameters, fields } => if t.children.len() == parameters
            + fields.len() {
            "intro "@ + path_text(db, path) + render_entries(
                db,
                t,
                locals,
                parameter_heads(parameters),
                " )"@,
                0,
                parameters,
            ) + " / "@ + db.text(variant) + " {"@ + render_entries(
                db,
                t,
                locals,
                field_heads(db, fields),
                " , "@,
                parameters,
                fields.len(),
            ) + "\n}"@
        } else {
            Seq::empty()
        },
        Label::Match { cases } => if t.children.len() == 2 + cases.len() {
            "match "@ + render(db, t.children[0], locals) + " return "@ + render(
                db,
                t.children[1],
                locals,
            ) + " {"@ + render_entries(
                db,
                t,
                locals,
                case_heads(db, cases),
                " ,"@,
                2,
                cases.len(),
            ) + "\n}"@
        } else {
            Seq::empty()
        },
        Label::Fix { structure, rec_name } => if t.children.len() == 3 {
            "fix "@ + structure_text(db, structure, render(db, t.children[0], locals)) + render(
                db,
                t.children[1],
                locals.push(structure.name),
            ) + " with "@ + db.text(rec_name) + " ; "@ + render(
                db,
                t.children[2],
                locals.push(structure.name).push(rec_name),
            )
        } else {
            Seq::empty()
        },
        Label::Ref => if t.children.len() == 1 {
            "ref "@ + render(db, t.children[0], locals)
        } else {
            Seq::empty()
        },
        Label::Deref => if t.children.len() == 1 {
            "* "@ + render(db, t.children[0], locals)
        } else {
            Seq::empty()
        },
        Label::Loan { local, loan_as, with } => if t.children.len() == 1 {
            "loan "@ + local_text(db, locals, local) + " as "@ + db.text(loan_as) + " with "@
                + db.text(with) + " ; "@ + render(
                db,
                t.children[0],
                locals.push(loan_as).push(with),
            )
        } else {
            Seq::empty()
        },
        Label::Take { local, proofs } => if t.children.len() == proofs.len() + 1 {
            "take "@ + local_text(db, locals, local) + " {"@ + render_entries(
                db,
                t,
                locals,
                proof_heads(db, locals, proofs),
                " ,"@,
                0,
                proofs.len(),
            ) + "\n} ;\n"@ + render(db, t.children[proofs.len() as int], locals)
        } else {
            Seq::empty()
        },
        Label::In => if t.children.len() == 2 {
            render(db, t.children[0], locals) + " in "@ + render(db, t.children[1], locals)
        } else {
            Seq::empty()
        },
        Label::LocalConstant { structure, .. } => db.text(structure.name),
        Label::Hole { hole } => "<hole "@ + decimal(hole.0 as nat) + ">"@,
    }
}

/// The text of the first `n` entries of a list: the `k`-th entry is
/// `before[k]`, the text of the sub-term of `t` at position `start + k`, and
/// `after`.
pub open spec fn render_entries(
    db: &Database,
    t: Term,
    locals: Seq<Str>,
    before: Seq<Seq<char>>,
    after: Seq<char>,
    start: nat,
    n: nat,
) -> Seq<char>
    decreases t, n,
{
    if n == 0 || start + n > t.children.len() || n > before.len() {
        Seq::empty()
    } else {
        render_entries(db, t, locals, before, after, start, (n - 1) as nat) + before[n - 1]
            + render(db, t.children[start + n - 1], locals) + after
    }
}

/// `locals` with the name of one more bound variable.
fn bind(locals: &Vec<Str>, name: Str) -> (r: Vec<Str>)
    ensures
        r@ == locals@.push(name),
{
    let mut result: Vec<Str> = Vec::new();
    let n = locals.len();
    let mut i: usize = 0;
    while i < n
        invariant
            n == locals@.len(),
            i <= n,
            result@ == locals@.take(i as int),
        decreases n - i,
    {
        result.push(locals[i]);
        assert(locals@.take(i + 1) =~= locals@.take(i as int).push(locals@[i as int]));
        i += 1;
    }
    assert(locals@.take(n as int) =~= locals@);
    result.push(name);
    result
}

/// Writes the variable with the given index behind `out`.
fn write_local(db: &Database, locals: &Vec<Str>, index: DeBruijnIndex, out: &mut String)
    requires
        db.contains_strs(locals@),
    ensures
        final(out)@ == old(out)@ + local_text(db, locals@, index@),
{
    let position = index.value() as usize;
    if position < locals.len() {
        let name = locals[locals.len() - 1 - position];
        assert(db.contains_str(name));
        out.append(db.str_text(name).as_str());
    } else {
        out.append("<local ");
        write_decimal(out, index.value() as u64);
        out.append(">");
        assert(out@ =~= old(out)@ + local_text(db, locals@, index@));
    }
}

/// Writes the binder `structure` behind `out`, as it stands in front of the
/// body that it binds in.
fn write_binder_structure(
    db: &Database,
    structure: BinderStructure,
    locals: &Vec<Str>,
    out: &mut String,
)
    requires
        db.wf(),
        db.contains(structure.bound.ty),
        db.contains_str(structure.bound.name),
        db.contains_strs(locals@),
    ensures
        final(out)@ == old(out)@ + structure_text(
            db,
            structure.label(),
            render(db, db.term(structure.bound.ty), locals@),
        ),
    decreases structure.bound.ty.index(), 2nat,
{
    match structure.argument_style {
        ArgumentStyle::Explicit => out.append("( "),
        ArgumentStyle::ImplicitEager => out.append("{ "),
        ArgumentStyle::ImplicitWeak => out.append("{{ "),
    }
    out.append(db.str_text(structure.bound.name).as_str());
    out.append(" : ");
    match structure.bound.usage {
        Usage::Erased => out.append("0 "),
        Usage::Present => {},
    }
    write_expression(db, structure.bound.ty, locals, out);
    match structure.argument_style {
        ArgumentStyle::Explicit => out.append(" )"),
        ArgumentStyle::ImplicitEager => out.append(" }"),
        ArgumentStyle::ImplicitWeak => out.append(" }}"),
    }
    match structure.invocation_style {
        InvocationStyle::Once => out.append(" -> "),
        InvocationStyle::Many => out.append(" => "),
    }
    assert(out@ =~= old(out)@ + structure_text(
        db,
        structure.label(),
        render(db, db.term(structure.bound.ty), locals@),
    ));
}

/// Writes the function `expr` behind `out`.
fn write_lambda(db: &Database, expr: Expression, locals: &Vec<Str>, out: &mut String)
    requires
        db.wf(),
        db.contains(expr),
        db.contains_strs(locals@),
        db.data_of(expr) is Lambda,
    ensures
        final(out)@ == old(out)@ + render(db, db.term(expr), locals@),
    decreases expr.index(), 0nat,
{
    let ghost start = out@;
    let ghost t = db.term(expr);
    proof {
        db.lemma_term(expr);
        db.data_of(expr).lemma_arity();
    }
    match db.data(expr) {
        ExpressionData::Lambda(binder) => {
            assert(db.data_of(expr).children()[0] == binder.structure.bound.ty);
            assert(db.data_of(expr).children()[1] == binder.body);
            out.append("fun ");
            write_binder_structure(db, binder.structure, locals, out);
            let inner = bind(locals, binder.structure.bound.name);
            write_expression(db, binder.body, &inner, out);
            assert(out@ =~= start + render(db, t, locals@));
        },
        _ => {},
    }
}

/// Writes the function type `expr` behind `out`.
fn write_pi(db: &Database, expr: Expression, locals: &Vec<Str>, out: &mut String)
    requires
        db.wf(),
        db.contains(expr),
        db.contains_strs(locals@),
        db.data_of(expr) is Pi,
    ensures
        final(out)@ == old(out)@ + render(db, db.term(expr), locals@),
    decreases expr.index(), 0nat,
{
    let ghost start = out@;
    let ghost t = db.term(expr);
    proof {
        db.lemma_term(expr);
        db.data_of(expr).lemma_arity();
    }
    match db.data(expr) {
        ExpressionData::Pi(binder) => {
            assert(db.data_of(expr).children()[0] == binder.structure.bound.ty);
            assert(db.data_of(expr).children()[1] == binder.body);
            out.append("for ");
            write_binder_structure(db, binder.structure, locals, out);
            let inner = bind(locals, binder.structure.bound.name);
            write_expression(db, binder.body, &inner, out);
            assert(out@ =~= start + render(db, t, locals@));
        },
        _ => {},
    }
}

/// Writes the local definition `expr` behind `out`.
fn write_let(db: &Database, expr: Expression, locals: &Vec<Str>, out: &mut String)
    requires
        db.wf(),
        db.contains(expr),
        db.contains_strs(locals@),
        db.data_of(expr) is Let,
    ensures
        final(out)@ == old(out)@ + render(db, db.term(expr), locals@),
    decreases expr.index(), 0nat,
{
    let ghost start = out@;
    let ghost t = db.term(expr);
    proof {
        db.lemma_term(expr);
        db.data_of(expr).lemma_arity();
    }
    match db.data(expr) {
        ExpressionData::Let { name, to_assign, body } => {
            assert(db.data_of(expr).children()[0] == *to_assign);
            assert(db.data_of(expr).children()[1] == *body);
            out.append("let ");
            out.append(db.str_text(*name).as_str());
            out.append(" = ");
            write_expression(db, *to_assign, locals, out);
            out.append(" ;\n");
            let inner = bind(locals, *name);
            write_expression(db, *body, &inner, out);
            assert(out@ =~= start + render(db, t, locals@));
        },
        _ => {},
    }
}

/// Writes the value of an inductive type `expr` behind `out`.
fn write_intro(db: &Database, expr: Expression, locals: &Vec<Str>, out: &mut String)
    requires
        db.wf(),
        db.contains(expr),
        db.contains_strs(locals@),
        db.data_of(expr) is Intro,
    ensures
        final(out)@ == old(out)@ + render(db, db.term(expr), locals@),
    decreases expr.index(), 0nat,
{
    let ghost start = out@;
    let ghost t = db.term(expr);
    proof {
        db.lemma_term(expr);
        db.data_of(expr).lemma_arity();
    }
    match db.data(expr) {
        ExpressionData::Intro { path, parameters, variant, fields } => {
            out.append("intro ");
            out.append(path.display(db).as_str());
            let ghost head = out@;
            let ghost names = fields.keys();
            let count = parameters.len();
            let mut i: usize = 0;
            while i < count
                invariant
                    db.wf(),
                    db.contains(expr),
                    db.contains_strs(locals@),
                    t == db.term(expr),
                    db.data_of(expr) == (ExpressionData::Intro {
                        path: *path,
                        parameters: *parameters,
                        variant: *variant,
                        fields: *fields,
                    }),
                    count == parameters@.len(),
                    t.children.len() == count + fields@.len(),
                    i <= count,
                    out@ == head + render_entries(
                        db,
                        t,
                        locals@,
                        parameter_heads(count as nat),
                        " )"@,
                        0,
                        i as nat,
                    ),
                decreases count - i,
            {
                proof {
                    db.lemma_term(expr);
                }
                assert(db.data_of(expr).children()[i as int] == parameters@[i as int]);
                out.append(" ( ");
                write_expression(db, parameters[i], locals, out);
                out.append(" )");
                assert(out@ =~= head + render_entries(
                    db,
                    t,
                    locals@,
                    parameter_heads(count as nat),
                    " )"@,
                    0,
                    (i + 1) as nat,
                ));
                i += 1;
            }
            out.append(" / ");
            out.append(db.str_text(*variant).as_str());
            out.append(" {");
            let ghost middle = out@;
            let n = fields.len();
            let mut j: usize = 0;
            while j < n
                invariant
                    db.wf(),
                    db.contains(expr),
                    db.contains_strs(locals@),
                    t == db.term(expr),
                    db.data_of(expr) == (ExpressionData::Intro {
                        path: *path,
                        parameters: *parameters,
                        variant: *variant,
                        fields: *fields,
                    }),
                    count == parameters@.len(),
                    n == fields@.len(),
                    names == fields.keys(),
                    db.contains_strs(names),
                    t.children.len() == count + n,
                    j <= n,
                    out@ == middle + render_entries(
                        db,
                        t,
                        locals@,
                        field_heads(db, names),
                        " , "@,
                        count as nat,
                        j as nat,
                    ),
                decreases n - j,
            {
                proof {
                    db.lemma_term(expr);
                }
                let entry = fields.get(j);
                assert(db.data_of(expr).children()[count + j] == entry.1);
                assert(names[j as int] == entry.0);
                assert(db.contains_str(names[j as int]));
                out.append("\n");
                out.append(db.str_text(entry.0).as_str());
                out.append(" = ");
                write_expression(db, entry.1, locals, out);
                out.append(" , ");
                assert(out@ =~= middle + render_entries(
                    db,
                    t,
                    locals@,
                    field_heads(db, names),
                    " , "@,
                    count as nat,
                    (j + 1) as nat,
                ));
                j += 1;
            }
            out.append("\n}");
            assert(out@ =~= start + render(db, t, locals@));
        },
        _ => {},
    }
}

/// Writes the case distinction `expr` behind `out`.
fn write_match(db: &Database, expr: Expression, locals: &Vec<Str>, out: &mut String)
    requires
        db.wf(),
        db.contains(expr),
        db.contains_strs(locals@),
        db.data_of(expr) is Match,
    ensures
        final(out)@ == old(out)@ + render(db, db.term(expr), locals@),
    decreases expr.index(), 0nat,
{
    let ghost start = out@;
    let ghost t = db.term(expr);
    proof {
        db.lemma_term(expr);
        db.data_of(expr).lemma_arity();
    }
    match db.data(expr) {
        ExpressionData::Match { subject, return_ty, cases } => {
            assert(db.data_of(expr).children()[0] == *subject);
            assert(db.data_of(expr).children()[1] == *return_ty);
            out.append("match ");
            write_expression(db, *subject, locals, out);
            out.append(" return ");
            write_expression(db, *return_ty, locals, out);
            out.append(" {");
            let ghost middle = out@;
            let ghost names = cases.keys();
            let n = cases.len();
            let mut j: usize = 0;
            while j < n
                invariant
                    db.wf(),
                    db.contains(expr),
                    db.contains_strs(locals@),
                    t == db.term(expr),
                    db.data_of(expr) == (ExpressionData::Match {
                        subject: *subject,
                        return_ty: *return_ty,
                        cases: *cases,
                    }),
                    n == cases@.len(),
                    names == cases.keys(),
                    db.contains_strs(names),
                    t.children.len() == 2 + n,
                    j <= n,
                    out@ == middle + render_entries(
                        db,
                        t,
                        locals@,
                        case_heads(db, names),
                        " ,"@,
                        2,
                        j as nat,
                    ),
                decreases n - j,
            {
                proof {
                    db.lemma_term(expr);
                }
                let entry = cases.get(j);
                assert(db.data_of(expr).children()[2 + j] == entry.1);
                assert(names[j as int] == entry.0);
                assert(db.contains_str(names[j as int]));
                out.append("\n");
                out.append(db.str_text(entry.0).as_str());
                out.append(" -> ");
                write_expression(db, entry.1, locals, out);
                out.append(" ,");
                assert(out@ =~= middle + render_entries(
                    db,
                    t,
                    locals@,
                    case_heads(db, names),
                    " ,"@,
                    2,
                    (j + 1) as nat,
                ));
                j += 1;
            }
            out.append("\n}");
            assert(out@ =~= start + render(db, t, locals@));
        },
        _ => {},
    }
}

/// Writes the fixed point `expr` behind `out`.
fn write_fix(db: &Database, expr: Expression, locals: &Vec<Str>, out: &mut String)
    requires
        db.wf(),
        db.contains(expr),
        db.contains_strs(locals@),
        db.data_of(expr) is Fix,
    ensures
        final(out)@ == old(out)@ + render(db, db.term(expr), locals@),
    decreases expr.index(), 0nat,
{
    let ghost start = out@;
    let ghost t = db.term(expr);
    proof {
        db.lemma_term(expr);
        db.data_of(expr).lemma_arity();
    }
    match db.data(expr) {
        ExpressionData::Fix { binder, rec_name, body } => {
            assert(db.data_of(expr).children()[0] == binder.structure.bound.ty);
            assert(db.data_of(expr).children()[1] == binder.body);
            assert(db.data_of(expr).children()[2] == *body);
            out.append("fix ");
            write_binder_structure(db, binder.structure, locals, out);
            let inner = bind(locals, binder.structure.bound.name);
            write_expression(db, binder.body, &inner, out);
            out.append(" with ");
            out.append(db.str_text(*rec_name).as_str());
            out.append(" ; ");
            let innermost = bind(&inner, *rec_name);
            write_expression(db, *body, &innermost, out);
            assert(out@ =~= start + render(db, t, locals@));
        },
        _ => {},
    }
}

/// Writes the loan `expr` behind `out`.
fn write_loan(db: &Database, expr: Expression, locals: &Vec<Str>, out: &mut String)
    requires
        db.wf(),
        db.contains(expr),
        db.contains_strs(locals@),
        db.data_of(expr) is Loan,
    ensures
        final(out)@ == old(out)@ + render(db, db.term(expr), locals@),
    decreases expr.index(), 0nat,
{
    let ghost start = out@;
    let ghost t = db.term(expr);
    proof {
        db.lemma_term(expr);
        db.data_of(expr).lemma_arity();
    }
    match db.data(expr) {
        ExpressionData::Loan { local, loan_as, with, body } => {
            assert(db.data_of(expr).children()[0] == *body);
            out.append("loan ");
            write_local(db, locals, *local, out);
            out.append(" as ");
            out.append(db.str_text(*loan_as).as_str());
            out.append(" with ");
            out.append(db.str_text(*with).as_str());
            out.append(" ; ");
            let inner = bind(locals, *loan_as);
            let innermost = bind(&inner, *with);
            write_expression(db, *body, &innermost, out);
            assert(out@ =~= start + render(db, t, locals@));
        },
        _ => {},
    }
}

/// Writes the end of a loan `expr` behind `out`.
fn write_take(db: &Database, expr: Expression, locals: &Vec<Str>, out: &mut String)
    requires
        db.wf(),
        db.contains(expr),
        db.contains_strs(locals@),
        db.data_of(expr) is Take,
    ensures
        final(out)@ == old(out)@ + render(db, db.term(expr), locals@),
    decreases expr.index(), 0nat,
{
    let ghost start = out@;
    let ghost t = db.term(expr);
    proof {
        db.lemma_term(expr);
        db.data_of(expr).lemma_arity();
    }
    match db.data(expr) {
        ExpressionData::Take { local, proofs, body } => {
            out.append("take ");
            write_local(db, locals, *local, out);
            out.append(" {");
            let ghost middle = out@;
            let ghost indices = crate::expr::proof_locals(proofs@);
            let n = proofs.len();
            let mut j: usize = 0;
            while j < n
                invariant
                    db.wf(),
                    db.contains(expr),
                    db.contains_strs(locals@),
                    t == db.term(expr),
                    db.data_of(expr) == (ExpressionData::Take {
                        local: *local,
                        proofs: *proofs,
                        body: *body,
                    }),
                    n == proofs@.len(),
                    indices == crate::expr::proof_locals(proofs@),
                    t.children.len() == n + 1,
                    j <= n,
                    out@ == middle + render_entries(
                        db,
                        t,
                        locals@,
                        proof_heads(db, locals@, indices),
                        " ,"@,
                        0,
                        j as nat,
                    ),
                decreases n - j,
            {
                proof {
                    db.lemma_term(expr);
                }
                let entry = proofs.get(j);
                assert(db.data_of(expr).children()[j as int] == entry.1);
                assert(indices[j as int] == entry.0@);
                out.append("\n");
                write_local(db, locals, entry.0, out);
                out.append(" -> ");
                write_expression(db, entry.1, locals, out);
                out.append(" ,");
                assert(out@ =~= middle + render_entries(
                    db,
                    t,
                    locals@,
                    proof_heads(db, locals@, indices),
                    " ,"@,
                    0,
                    (j + 1) as nat,
                ));
                j += 1;
            }
            out.append("\n} ;\n");
            assert(db.data_of(expr).children()[n as int] == *body);
            write_expression(db, *body, locals, out);
            assert(out@ =~= start + render(db, t, locals@));
        },
        _ => {},
    }
}

/// Writes the expression `expr` behind `out`, where `locals` holds the names
/// of the bound variables around it, with the innermost last.
pub fn write_expression(db: &Database, expr: Expression, locals: &Vec<Str>, out: &mut String)
    requires
        db.wf(),
        db.contains(expr),
        db.contains_strs(locals@),
    ensures
        final(out)@ == old(out)@ + render(db, db.term(expr), locals@),
    decreases expr.index(), 1nat,
{
    let ghost start = out@;
    let ghost t = db.term(expr);
    proof {
        db.lemma_term(expr);
        db.data_of(expr).lemma_arity();
    }
    match db.data(expr) {
        ExpressionData::Local(index) => {
            write_local(db, locals, *index, out);
        },
        ExpressionData::Apply { left, right } => {
            assert(db.data_of(expr).children()[0] == *left);
            assert(db.data_of(expr).children()[1] == *right);
            write_expression(db, *left, locals, out);
            out.append(" ( ");
            write_expression(db, *right, locals, out);
            out.append(" )");
            assert(out@ =~= start + render(db, t, locals@));
        },
        ExpressionData::Lambda(_) => write_lambda(db, expr, locals, out),
        ExpressionData::Pi(_) => write_pi(db, expr, locals, out),
        ExpressionData::Let { .. } => write_let(db, expr, locals, out),
        ExpressionData::Sort(universe) => {
            out.append("Sort ");
            write_decimal(out, universe.0 as u64);
            assert(out@ =~= start + render(db, t, locals@));
        },
        ExpressionData::Inst(path) => {
            out.append("inst ");
            out.append(path.display(db).as_str());
            assert(out@ =~= start + render(db, t, locals@));
        },
        ExpressionData::Intro { .. } => write_intro(db, expr, locals, out),
        ExpressionData::Match { .. } => write_match(db, expr, locals, out),
        ExpressionData::Fix { .. } => write_fix(db, expr, locals, out),
        ExpressionData::Ref(ty) => {
            assert(db.data_of(expr).children()[0] == *ty);
            out.append("ref ");
            write_expression(db, *ty, locals, out);
            assert(out@ =~= start + render(db, t, locals@));
        },
        ExpressionData::Deref(value) => {
            assert(db.data_of(expr).children()[0] == *value);
            out.append("* ");
            write_expression(db, *value, locals, out);
            assert(out@ =~= start + render(db, t, locals@));
        },
        ExpressionData::Loan { .. } => write_loan(db, expr, locals, out),
        ExpressionData::Take { .. } => write_take(db, expr, locals, out),
        ExpressionData::In { reference, target } => {
            assert(db.data_of(expr).children()[0] == *reference);
            assert(db.data_of(expr).children()[1] == *target);
            write_expression(db, *reference, locals, out);
            out.append(" in ");
            write_expression(db, *target, locals, out);
            assert(out@ =~= start + render(db, t, locals@));
        },
        ExpressionData::LocalConstant(constant) => {
            out.append(db.str_text(constant.structure.bound.name).as_str());
        },
        ExpressionData::Hole(hole) => {
            out.append("<hole ");
            write_decimal(out, hole.id.0 as u64);
            out.append(">");
            assert(out@ =~= start + render(db, t, locals@));
        },
    }
}

impl Database {
    /// The text of the expression `expr`.
    pub fn format_expression(&self, expr: Expression) -> (r: String)
        requires
            self.wf(),
            self.contains(expr),
        ensures
            r@ == render(self, self.term(expr), Seq::empty()),
    {
        let mut out = String::new();
        let locals: Vec<Str> = Vec::new();
        write_expression(self, expr, &locals, &mut out);
        assert(out@ =~= render(self, self.term(expr), Seq::empty()));
        out
    }
}

} // verus!
