//! The database: the tables in which strings, paths and expressions are
//! interned, and the definitions that were given and certified.
//!
//! Every table only ever grows, and an entry, once made, is never changed:
//! whatever a handle stood for, it stands for in every later state of the
//! database. What is interned is found again by its hash.

use vstd::prelude::*;
use crate::de_bruijn::DeBruijnIndex;
use crate::definition::Definition;
use crate::expr::{Expression, ExpressionData};
use crate::files::{Path, Str};
use crate::globals::{env_wf, Global};
use crate::index::{hash_text, mix, mix_in, text_hash, Buckets};
use crate::term::{Label, Term};
use crate::type_check::definition::CertifiedDefinition;

verus! {

broadcast use Expression::lemma_index;

/// What the expression at position `i` of `nodes` stands for.
spec fn term_at(nodes: Seq<ExpressionData>, i: int) -> Term
    decreases i,
{
    let children = nodes[i].children();
    Term {
        label: nodes[i].label(),
        children: Seq::new(
            children.len(),
            |k: int|
                if 0 <= k < children.len() && 0 <= children[k].id < i {
                    term_at(nodes, children[k].id as int)
                } else {
                    Term::local(0)
                },
        ),
    }
}

/// Every node refers only to nodes that were stored before it, and no two
/// nodes hold the same data.
spec fn nodes_wf(nodes: Seq<ExpressionData>) -> bool {
    &&& forall|i: int, k: int|
        0 <= i < nodes.len() && 0 <= k < nodes[i].children().len() ==> (
        #[trigger] nodes[i].children()[k]).id < i
    &&& forall|i: int| 0 <= i < nodes.len() ==> (#[trigger] nodes[i]).children().len() <= usize::MAX
    &&& forall|i: int, j: int|
        0 <= i < nodes.len() && 0 <= j < nodes.len() && (#[trigger] nodes[i]).label() == (
        #[trigger] nodes[j]).label() && nodes[i].children() == nodes[j].children() ==> i == j
}

/// Storing more nodes does not change what the earlier ones stand for.
proof fn lemma_term_at_prefix(before: Seq<ExpressionData>, after: Seq<ExpressionData>, i: int)
    requires
        0 <= i < before.len() <= after.len(),
        forall|j: int| 0 <= j < before.len() ==> before[j] == after[j],
    ensures
        term_at(after, i) == term_at(before, i),
    decreases i,
{
    let children = before[i].children();
    assert forall|k: int| 0 <= k < children.len() && 0 <= children[k].id < i implies term_at(
        after,
        children[k].id as int,
    ) == term_at(before, children[k].id as int) by {
        lemma_term_at_prefix(before, after, children[k].id as int);
    }
    assert(term_at(after, i).children =~= term_at(before, i).children);
}

/// Two positions that stand for the same term are the same position.
proof fn lemma_term_at_injective(nodes: Seq<ExpressionData>, i: int, j: int)
    requires
        nodes_wf(nodes),
        0 <= i < nodes.len(),
        0 <= j < nodes.len(),
        term_at(nodes, i) == term_at(nodes, j),
    ensures
        i == j,
    decreases i,
{
    let ci = nodes[i].children();
    let cj = nodes[j].children();
    assert(term_at(nodes, i).children.len() == ci.len());
    assert(term_at(nodes, j).children.len() == cj.len());
    assert forall|k: int| 0 <= k < ci.len() implies ci[k] == cj[k] by {
        assert(term_at(nodes, i).children[k] == term_at(nodes, ci[k].id as int));
        assert(term_at(nodes, j).children[k] == term_at(nodes, cj[k].id as int));
        lemma_term_at_injective(nodes, ci[k].id as int, cj[k].id as int);
    }
    assert(ci =~= cj);
}

/// The hash of the first `n` of `segments`.
spec fn hash_segments(segments: Seq<Str>, n: nat) -> u64
    decreases n,
{
    if n == 0 || n > segments.len() {
        0
    } else {
        mix(hash_segments(segments, (n - 1) as nat), segments[n - 1].id as u64)
    }
}

/// The hashes of the strings of a table.
spec fn string_hashes(strings: Seq<String>) -> Seq<u64> {
    Seq::new(strings.len(), |i: int| text_hash(strings[i]@))
}

/// The hashes of the paths of a table.
spec fn path_hashes(paths: Seq<Vec<Str>>) -> Seq<u64> {
    Seq::new(paths.len(), |i: int| hash_segments(paths[i]@, paths[i]@.len()))
}

/// The hashes of the nodes of a table.
spec fn node_hashes(nodes: Seq<ExpressionData>) -> Seq<u64> {
    Seq::new(nodes.len(), |i: int| nodes[i].hash_of())
}

/// The number of nested reduction steps that a new database allows.
pub const DEFAULT_REDUCTION_LIMIT: u64 = 512;

/// The tables of one compilation session.
pub struct Database {
    strings: Vec<String>,
    paths: Vec<Vec<Str>>,
    nodes: Vec<ExpressionData>,
    /// Where to look for a string, a path or a node that was stored before.
    strings_index: Buckets,
    paths_index: Buckets,
    nodes_index: Buckets,
    /// The definition at each path, if one was given.
    definitions: Vec<Option<Definition>>,
    /// The certified definition at each path, if it was certified.
    certified: Vec<Option<CertifiedDefinition>>,
    reduction_limit: u64,
}

impl Database {
    /// Whether `s` is a string of this database.
    pub closed spec fn contains_str(&self, s: Str) -> bool {
        s.id < self.strings@.len()
    }

    /// The text that `s` stands for.
    pub closed spec fn text(&self, s: Str) -> Seq<char> {
        self.strings@[s.id as int]@
    }

    /// Whether `p` is a path of this database.
    pub closed spec fn contains_path(&self, p: Path) -> bool {
        p.id < self.paths@.len()
    }

    /// The segments that `p` is made of.
    pub closed spec fn segments(&self, p: Path) -> Seq<Str> {
        self.paths@[p.id as int]@
    }

    /// Whether `e` is an expression of this database.
    pub closed spec fn contains(&self, e: Expression) -> bool {
        e.id < self.nodes@.len()
    }

    /// The node that `e` refers to.
    pub closed spec fn data_of(&self, e: Expression) -> ExpressionData {
        self.nodes@[e.id as int]
    }

    /// The term that `e` stands for.
    pub closed spec fn term(&self, e: Expression) -> Term {
        term_at(self.nodes@, e.id as int)
    }

    /// The definition that was given for `p`, if any.
    pub closed spec fn definition(&self, p: Path) -> Option<Definition> {
        if p.id < self.definitions@.len() {
            self.definitions@[p.id as int]
        } else {
            None
        }
    }

    /// The certified definition at `p`, if there is one.
    pub closed spec fn certified(&self, p: Path) -> Option<CertifiedDefinition> {
        if p.id < self.certified@.len() {
            self.certified@[p.id as int]
        } else {
            None
        }
    }

    /// The number of nested reduction steps after which reduction gives up.
    pub closed spec fn limit(&self) -> u64 {
        self.reduction_limit
    }

    /// What the certified definition `c` stands for.
    pub open spec fn global(&self, c: CertifiedDefinition) -> Global {
        Global {
            ty: self.term(c.definition().ty),
            body: match c.definition().body {
                Some(body) => Some(self.term(body)),
                None => None,
            },
            universe: c.level(),
            reducibility: c.unfolding(),
            origin: c.source(),
        }
    }

    /// What the certified definitions stand for, by path.
    pub open spec fn env(&self) -> Map<Path, Global> {
        Map::new(|p: Path| self.certified(p) is Some, |p: Path| self.global(self.certified(p)->0))
    }

    /// Whether every string in `strs` is a string of this database.
    pub open spec fn contains_strs(&self, strs: Seq<Str>) -> bool {
        forall|k: int| 0 <= k < strs.len() ==> self.contains_str(#[trigger] strs[k])
    }

    /// Whether the names and paths that `label` holds are strings and paths
    /// of this database.
    pub open spec fn knows(&self, label: Label) -> bool {
        match label {
            Label::Lambda(structure) => self.contains_str(structure.name),
            Label::Pi(structure) => self.contains_str(structure.name),
            Label::Let(name) => self.contains_str(name),
            Label::Inst(path) => self.contains_path(path),
            Label::Intro { path, variant, fields, .. } => self.contains_path(path)
                && self.contains_str(variant) && self.contains_strs(fields),
            Label::Match { cases } => self.contains_strs(cases),
            Label::Fix { structure, rec_name } => self.contains_str(structure.name)
                && self.contains_str(rec_name),
            Label::Loan { loan_as, with, .. } => self.contains_str(loan_as) && self.contains_str(
                with,
            ),
            Label::LocalConstant { structure, .. } => self.contains_str(structure.name),
            _ => true,
        }
    }

    /// The terms that the expressions in `es` stand for.
    pub open spec fn terms(&self, es: Seq<Expression>) -> Seq<Term> {
        Seq::new(es.len(), |k: int| self.term(es[k]))
    }

    /// The terms that the values of the named entries `es` stand for, each
    /// with its name.
    pub open spec fn named_terms(&self, es: Seq<(Str, Expression)>) -> Seq<(Str, Term)> {
        Seq::new(es.len(), |k: int| (es[k].0, self.term(es[k].1)))
    }

    /// The terms that the proofs in `es` stand for, each with the position of
    /// the variable it speaks of.
    pub open spec fn proof_terms(&self, es: Seq<(DeBruijnIndex, Expression)>) -> Seq<(nat, Term)> {
        Seq::new(es.len(), |k: int| (es[k].0@, self.term(es[k].1)))
    }

    /// Whether every expression in `es` is an expression of this database.
    pub open spec fn contains_all(&self, es: Seq<Expression>) -> bool {
        forall|k: int| 0 <= k < es.len() ==> self.contains(#[trigger] es[k])
    }

    /// The invariant of the tables: nothing is stored twice, every entry
    /// refers only to entries that were stored before it and is in the
    /// bucket of its hash, and the certified definitions keep the promises
    /// that [`env_wf`] asks of them.
    pub closed spec fn wf(&self) -> bool {
        &&& forall|i: int, j: int|
            0 <= i < self.strings@.len() && 0 <= j < self.strings@.len() && (
            #[trigger] self.strings@[i])@ == (#[trigger] self.strings@[j])@ ==> i == j
        &&& forall|i: int, j: int|
            0 <= i < self.paths@.len() && 0 <= j < self.paths@.len() && (
            #[trigger] self.paths@[i])@ == (#[trigger] self.paths@[j])@ ==> i == j
        &&& forall|i: int, k: int|
            0 <= i < self.paths@.len() && 0 <= k < self.paths@[i]@.len() ==> (
            #[trigger] self.paths@[i]@[k]).id < self.strings@.len()
        &&& nodes_wf(self.nodes@)
        &&& forall|i: int| 0 <= i < self.nodes@.len() ==> self.knows((#[trigger] self.nodes@[i]).label())
        &&& self.strings_index.covers(string_hashes(self.strings@))
        &&& self.paths_index.covers(path_hashes(self.paths@))
        &&& self.nodes_index.covers(node_hashes(self.nodes@))
        &&& self.definitions@.len() == self.paths@.len()
        &&& self.certified@.len() == self.paths@.len()
        &&& forall|i: int, k: int|
            0 <= i < self.definitions@.len() && self.definitions@[i] is Some && 0 <= k < (
            #[trigger] self.definitions@[i])->0.expressions().len() ==> (
            #[trigger] self.definitions@[i]->0.expressions()[k]).id < self.nodes@.len()
        &&& forall|i: int, k: int|
            0 <= i < self.certified@.len() && self.certified@[i] is Some && 0 <= k < (
            #[trigger] self.certified@[i])->0.definition().expressions().len() ==> (
            #[trigger] self.certified@[i]->0.definition().expressions()[k]).id < self.nodes@.len()
        &&& env_wf(self.env())
    }

    /// Whether `e` is an expression that `before` held already, unless
    /// `before` held no expression that stands for the same term.
    pub open spec fn reuses(&self, before: &Database, e: Expression) -> bool {
        before.contains(e) || forall|x: Expression|
            before.contains(x) ==> before.term(x) != self.term(e)
    }

    /// Everything that `before` holds is still here, and stands for what it
    /// stood for.
    pub open spec fn preserves(&self, before: &Database) -> bool {
        &&& forall|s: Str| #[trigger]
            before.contains_str(s) ==> self.contains_str(s) && self.text(s) == before.text(s)
        &&& forall|p: Path| #[trigger]
            before.contains_path(p) ==> self.contains_path(p) && self.segments(p)
                == before.segments(p)
        &&& forall|e: Expression| #[trigger]
            before.contains(e) ==> self.contains(e) && self.term(e) == before.term(e)
                && self.data_of(e) == before.data_of(e)
        &&& self.limit() == before.limit()
    }

    /// This database differs from `before` only by strings, paths and
    /// expressions that were interned since: everything that `before` holds
    /// is still here and stands for what it stood for, and the definitions
    /// are the same.
    pub open spec fn extends(&self, before: &Database) -> bool {
        &&& self.preserves(before)
        &&& self.env() == before.env()
        &&& forall|p: Path| #[trigger] self.definition(p) == before.definition(p)
        &&& forall|p: Path| #[trigger] self.certified(p) == before.certified(p)
    }

    /// A database that holds nothing yet.
    pub fn new() -> (db: Database)
        ensures
            db.wf(),
            forall|s: Str| !db.contains_str(s),
            forall|p: Path| !db.contains_path(p),
            forall|e: Expression| !db.contains(e),
            forall|p: Path| db.definition(p) is None,
            forall|p: Path| db.certified(p) is None,
            db.limit() == DEFAULT_REDUCTION_LIMIT,
    {
        let db = Database {
            strings: Vec::new(),
            paths: Vec::new(),
            nodes: Vec::new(),
            strings_index: Buckets::new(),
            paths_index: Buckets::new(),
            nodes_index: Buckets::new(),
            definitions: Vec::new(),
            certified: Vec::new(),
            reduction_limit: DEFAULT_REDUCTION_LIMIT,
        };
        assert(db.env() =~= Map::empty());
        assert(string_hashes(db.strings@) =~= Seq::empty());
        assert(path_hashes(db.paths@) =~= Seq::empty());
        assert(node_hashes(db.nodes@) =~= Seq::empty());
        db
    }

    /// A definition is only ever given for a path of the database, and the
    /// expressions of a definition, certified or not, are expressions of the
    /// database.
    pub proof fn lemma_definitions(&self, p: Path)
        requires
            self.wf(),
        ensures
            self.definition(p) is Some ==> self.contains_path(p) && self.contains_all(
                self.definition(p)->0.expressions(),
            ),
            self.certified(p) is Some ==> self.contains_path(p) && self.contains_all(
                self.certified(p)->0.definition().expressions(),
            ),
            env_wf(self.env()),
    {
        if self.definition(p) is Some {
            let d = self.definitions@[p.id as int];
            assert forall|k: int| 0 <= k < d->0.expressions().len() implies self.contains(
                #[trigger] d->0.expressions()[k],
            ) by {}
        }
        if self.certified(p) is Some {
            let c = self.certified@[p.id as int];
            assert forall|k: int|
                0 <= k < c->0.definition().expressions().len() implies self.contains(
                #[trigger] c->0.definition().expressions()[k],
            ) by {}
        }
    }

    /// Two strings of one database with the same text are the same string.
    pub proof fn lemma_str_injective(&self, a: Str, b: Str)
        requires
            self.wf(),
            self.contains_str(a),
            self.contains_str(b),
            self.text(a) == self.text(b),
        ensures
            a == b,
    {
    }

    /// Two paths of one database with the same segments are the same path.
    pub proof fn lemma_path_injective(&self, a: Path, b: Path)
        requires
            self.wf(),
            self.contains_path(a),
            self.contains_path(b),
            self.segments(a) == self.segments(b),
        ensures
            a == b,
    {
    }

    /// Two expressions of one database that stand for the same term are the
    /// same expression.
    pub proof fn lemma_term_injective(&self, a: Expression, b: Expression)
        requires
            self.wf(),
            self.contains(a),
            self.contains(b),
            self.term(a) == self.term(b),
        ensures
            a == b,
    {
        lemma_term_at_injective(self.nodes@, a.id as int, b.id as int);
    }

    /// The term of an expression is the label of its node over the terms of
    /// the node's sub-expressions, each of which was stored earlier.
    pub proof fn lemma_term(&self, e: Expression)
        requires
            self.wf(),
            self.contains(e),
        ensures
            self.term(e).label == self.data_of(e).label(),
            self.term(e).children.len() == self.term(e).label.arity(),
            self.knows(self.term(e).label),
            self.term(e).children == self.terms(self.data_of(e).children()),
            self.data_of(e).children().len() <= usize::MAX,
            forall|k: int|
                0 <= k < self.data_of(e).children().len() ==> self.contains(
                    #[trigger] self.data_of(e).children()[k],
                ) && self.data_of(e).children()[k].index() < e.index(),
    {
        assert(self.term(e).children =~= self.terms(self.data_of(e).children()));
        self.data_of(e).lemma_arity();
    }

    /// The term of an expression is well shaped: every node of it has as
    /// many sub-terms as its label asks for.
    pub proof fn lemma_well_shaped(&self, e: Expression)
        requires
            self.wf(),
            self.contains(e),
        ensures
            self.term(e).well_shaped(),
        decreases e.index(),
    {
        self.lemma_term(e);
        let children = self.data_of(e).children();
        assert forall|k: int| 0 <= k < self.term(e).children.len() implies (
        #[trigger] self.term(e).children[k]).well_shaped() by {
            self.lemma_well_shaped(children[k]);
        }
    }

    /// The expressions of an earlier state stand for the same terms now.
    pub proof fn lemma_terms_preserved(&self, before: &Database, es: Seq<Expression>)
        requires
            self.preserves(before),
            before.contains_all(es),
        ensures
            self.contains_all(es),
            self.terms(es) == before.terms(es),
    {
        assert forall|k: int| 0 <= k < es.len() implies self.contains(#[trigger] es[k])
            && self.term(es[k]) == before.term(es[k]) by {
            assert(before.contains(es[k]));
        }
        assert(self.terms(es) =~= before.terms(es));
    }

    /// The segments of a path are strings of the database.
    pub proof fn lemma_segments(&self, p: Path)
        requires
            self.wf(),
            self.contains_path(p),
        ensures
            forall|k: int|
                0 <= k < self.segments(p).len() ==> self.contains_str(
                    #[trigger] self.segments(p)[k],
                ),
    {
    }

    /// Whether `s` is a string of this database.
    pub fn has_str(&self, s: Str) -> (r: bool)
        ensures
            r == self.contains_str(s),
    {
        s.id < self.strings.len()
    }

    /// Whether `p` is a path of this database.
    pub fn has_path(&self, p: Path) -> (r: bool)
        ensures
            r == self.contains_path(p),
    {
        p.id < self.paths.len()
    }

    /// Whether `e` is an expression of this database.
    pub fn has_expression(&self, e: Expression) -> (r: bool)
        ensures
            r == self.contains(e),
    {
        e.id < self.nodes.len()
    }

    /// The number of expressions stored.
    pub fn expression_count(&self) -> (r: usize)
        ensures
            forall|e: Expression| self.contains(e) <==> e.index() < r,
    {
        self.nodes.len()
    }

    /// The text of an interned string.
    pub fn str_text(&self, s: Str) -> (r: &String)
        requires
            self.contains_str(s),
        ensures
            r@ == self.text(s),
    {
        &self.strings[s.id]
    }

    /// The segments of an interned path.
    pub fn path_segments(&self, p: Path) -> (r: &Vec<Str>)
        requires
            self.contains_path(p),
        ensures
            r@ == self.segments(p),
    {
        &self.paths[p.id]
    }

    /// The node that an expression refers to.
    pub fn data(&self, e: Expression) -> (r: &ExpressionData)
        requires
            self.contains(e),
        ensures
            *r == self.data_of(e),
    {
        &self.nodes[e.id]
    }
}

/// The hash of a list of strings.
fn hash_path(segments: &Vec<Str>) -> (r: u64)
    ensures
        r == hash_segments(segments@, segments@.len()),
{
    let n = segments.len();
    let mut hash: u64 = 0;
    let mut i: usize = 0;
    while i < n
        invariant
            n == segments@.len(),
            i <= n,
            hash == hash_segments(segments@, i as nat),
        decreases n - i,
    {
        hash = mix_in(hash, segments[i].id as u64);
        i += 1;
    }
    hash
}

/// Whether two lists of strings are the same list.
fn same_segments(a: &Vec<Str>, b: &Vec<Str>) -> (r: bool)
    ensures
        r == (a@ == b@),
{
    if a.len() != b.len() {
        return false;
    }
    let n = a.len();
    let mut i: usize = 0;
    while i < n
        invariant
            n == a@.len(),
            n == b@.len(),
            i <= n,
            forall|j: int| 0 <= j < i ==> a@[j] == b@[j],
        decreases n - i,
    {
        if a[i] != b[i] {
            return false;
        }
        i += 1;
    }
    assert(a@ =~= b@);
    true
}

impl Database {
    /// The certified definitions stand for the same in two databases that
    /// hold the same certified definitions and agree on their expressions.
    proof fn lemma_same_env(&self, before: &Database)
        requires
            before.wf(),
            forall|p: Path| self.certified(p) == before.certified(p),
            forall|e: Expression| #[trigger]
                before.contains(e) ==> self.term(e) == before.term(e),
        ensures
            self.env() == before.env(),
    {
        assert forall|p: Path| self.certified(p) is Some implies self.global(self.certified(p)->0)
            == before.global(before.certified(p)->0) by {
            before.lemma_definitions(p);
            let d = before.certified(p)->0.definition();
            assert(before.contains(d.expressions()[0]));
            if d.body is Some {
                assert(before.contains(d.expressions()[1]));
            }
        }
        assert(self.env() =~= before.env());
    }

    /// The string with the given text: the one that is stored already, or a
    /// new one.
    pub fn intern_str(&mut self, text: &str) -> (s: Str)
        requires
            old(self).wf(),
        ensures
            final(self).wf(),
            final(self).extends(old(self)),
            final(self).contains_str(s),
            final(self).text(s) == text@,
            forall|p: Path| final(self).contains_path(p) ==> old(self).contains_path(p),
            forall|e: Expression| final(self).contains(e) ==> old(self).contains(e),
    {
        let owned = text.to_owned();
        let n = self.strings.len();
        let hash = hash_text(text);
        let ghost hashes = string_hashes(self.strings@);
        let found = self.strings_index.bucket(hash, Ghost(hashes));
        if let Some(positions) = found {
            let count = positions.len();
            let mut k: usize = 0;
            while k < count
                invariant
                    self.wf(),
                    *self == *old(self),
                    count == positions@.len(),
                    k <= count,
                    owned@ == text@,
                    forall|j: int|
                        0 <= j < count ==> (#[trigger] positions@[j]) < self.strings@.len(),
                    forall|j: int| 0 <= j < k ==> self.strings@[positions@[j] as int]@ != text@,
                decreases count - k,
            {
                let i = positions[k];
                if self.strings[i] == owned {
                    return Str { id: i };
                }
                k += 1;
            }
        }
        proof {
            assert forall|i: int| 0 <= i < n implies (#[trigger] self.strings@[i])@ != text@ by {
                if self.strings@[i]@ == text@ {
                    assert(hashes[i] == hash);
                    let positions = found->0@;
                    assert(positions.contains(i as usize));
                    let k = choose|k: int| 0 <= k < positions.len() && positions[k] == i as usize;
                    assert(self.strings@[positions[k] as int]@ != text@);
                }
            }
        }
        self.strings.push(owned);
        self.strings_index.add(hash, n, Ghost(hashes));
        proof {
            assert(string_hashes(self.strings@) =~= hashes.push(hash));
            self.lemma_same_env(old(self));
        }
        Str { id: n }
    }

    /// The path with the given segments: the one that is stored already, or a
    /// new one.
    pub fn intern_path(&mut self, segments: Vec<Str>) -> (p: Path)
        requires
            old(self).wf(),
            forall|k: int| 0 <= k < segments@.len() ==> old(self).contains_str(#[trigger] segments@[k]),
        ensures
            final(self).wf(),
            final(self).extends(old(self)),
            final(self).contains_path(p),
            final(self).segments(p) == segments@,
            forall|s: Str| final(self).contains_str(s) ==> old(self).contains_str(s),
            forall|e: Expression| final(self).contains(e) ==> old(self).contains(e),
    {
        let n = self.paths.len();
        let hash = hash_path(&segments);
        let ghost hashes = path_hashes(self.paths@);
        let found = self.paths_index.bucket(hash, Ghost(hashes));
        if let Some(positions) = found {
            let count = positions.len();
            let mut k: usize = 0;
            while k < count
                invariant
                    self.wf(),
                    *self == *old(self),
                    count == positions@.len(),
                    k <= count,
                    forall|j: int|
                        0 <= j < count ==> (#[trigger] positions@[j]) < self.paths@.len(),
                    forall|j: int| 0 <= j < k ==> self.paths@[positions@[j] as int]@ != segments@,
                decreases count - k,
            {
                let i = positions[k];
                if same_segments(&self.paths[i], &segments) {
                    return Path { id: i };
                }
                k += 1;
            }
        }
        proof {
            assert forall|i: int| 0 <= i < n implies (#[trigger] self.paths@[i])@ != segments@ by {
                if self.paths@[i]@ == segments@ {
                    assert(hashes[i] == hash);
                    let positions = found->0@;
                    assert(positions.contains(i as usize));
                    let k = choose|k: int| 0 <= k < positions.len() && positions[k] == i as usize;
                    assert(self.paths@[positions[k] as int]@ != segments@);
                }
            }
        }
        self.paths.push(segments);
        self.paths_index.add(hash, n, Ghost(hashes));
        self.definitions.push(None);
        self.certified.push(None);
        proof {
            assert(path_hashes(self.paths@) =~= hashes.push(hash));
            self.lemma_same_env(old(self));
        }
        Path { id: n }
    }

    /// The expression that refers to a node with the given data: the one
    /// that is stored already, or a new one.
    pub fn intern(&mut self, data: ExpressionData) -> (e: Expression)
        requires
            old(self).wf(),
            old(self).contains_all(data.children()),
            old(self).knows(data.label()),
            data.children().len() <= usize::MAX,
        ensures
            final(self).wf(),
            final(self).extends(old(self)),
            final(self).contains(e),
            final(self).data_of(e).label() == data.label(),
            final(self).data_of(e).children() == data.children(),
            final(self).term(e) == (Term {
                label: data.label(),
                children: old(self).terms(data.children()),
            }),
            final(self).reuses(old(self), e),
            forall|s: Str| final(self).contains_str(s) ==> old(self).contains_str(s),
            forall|p: Path| final(self).contains_path(p) ==> old(self).contains_path(p),
    {
        let n = self.nodes.len();
        let hash = data.hash();
        let ghost hashes = node_hashes(self.nodes@);
        let found = self.nodes_index.bucket(hash, Ghost(hashes));
        if let Some(positions) = found {
            let count = positions.len();
            let mut k: usize = 0;
            while k < count
                invariant
                    self.wf(),
                    *self == *old(self),
                    data.children().len() <= usize::MAX,
                    count == positions@.len(),
                    k <= count,
                    forall|j: int|
                        0 <= j < count ==> (#[trigger] positions@[j]) < self.nodes@.len(),
                    forall|j: int|
                        0 <= j < k ==> !(self.nodes@[positions@[j] as int].label() == data.label()
                            && self.nodes@[positions@[j] as int].children() == data.children()),
                decreases count - k,
            {
                let i = positions[k];
                if data.same(&self.nodes[i]) {
                    let e = Expression { id: i };
                    proof {
                        self.lemma_term(e);
                        assert(self.term(e).children =~= self.terms(data.children()));
                    }
                    return e;
                }
                k += 1;
            }
        }
        proof {
            assert forall|i: int| 0 <= i < n implies !((#[trigger] self.nodes@[i]).label()
                == data.label() && self.nodes@[i].children() == data.children()) by {
                if self.nodes@[i].label() == data.label() && self.nodes@[i].children()
                    == data.children() {
                    assert(hashes[i] == hash);
                    let positions = found->0@;
                    assert(positions.contains(i as usize));
                    let k = choose|k: int| 0 <= k < positions.len() && positions[k] == i as usize;
                    assert(self.nodes@[positions[k] as int].label() != data.label()
                        || self.nodes@[positions[k] as int].children() != data.children());
                }
            }
        }
        let ghost before = self.nodes@;
        self.nodes.push(data);
        self.nodes_index.add(hash, n, Ghost(hashes));
        let e = Expression { id: n };
        proof {
            let after = self.nodes@;
            assert(node_hashes(after) =~= hashes.push(hash));
            assert forall|j: int| 0 <= j < before.len() implies term_at(after, j) == term_at(
                before,
                j,
            ) by {
                lemma_term_at_prefix(before, after, j);
            }
            assert(nodes_wf(after)) by {
                assert forall|a: int, k: int|
                    0 <= a < after.len() && 0 <= k < after[a].children().len() implies (
                #[trigger] after[a].children()[k]).id < a by {
                    if a < n {
                        assert(after[a] == before[a]);
                    } else {
                        assert(old(self).contains(data.children()[k]));
                    }
                }
                assert forall|a: int, b: int|
                    0 <= a < after.len() && 0 <= b < after.len() && (#[trigger] after[a]).label()
                        == (#[trigger] after[b]).label() && after[a].children()
                        == after[b].children() implies a == b by {
                    if a < n {
                        assert(after[a] == before[a]);
                    }
                    if b < n {
                        assert(after[b] == before[b]);
                    }
                }
            }
            assert(self.term(e).children =~= old(self).terms(data.children())) by {
                assert forall|k: int| 0 <= k < data.children().len() implies self.term(
                    e,
                ).children[k] == old(self).term(data.children()[k]) by {
                    assert(old(self).contains(data.children()[k]));
                }
            }
            assert forall|x: Expression| old(self).contains(x) implies old(self).term(x)
                != self.term(e) by {
                if old(self).term(x) == self.term(e) {
                    lemma_term_at_injective(after, x.id as int, n as int);
                }
            }
            self.lemma_same_env(old(self));
        }
        e
    }
}

impl Database {
    /// The number of nested reduction steps after which reduction gives up.
    pub fn reduction_limit(&self) -> (r: u64)
        ensures
            r == self.limit(),
    {
        self.reduction_limit
    }

    /// Sets the number of nested reduction steps after which reduction gives
    /// up. Every nested step takes room on the call stack.
    pub fn set_reduction_limit(&mut self, limit: u64)
        requires
            old(self).wf(),
        ensures
            final(self).wf(),
            final(self).limit() == limit,
            final(self).env() == old(self).env(),
            forall|s: Str| #[trigger]
                final(self).contains_str(s) == old(self).contains_str(s) && final(self).text(s)
                    == old(self).text(s),
            forall|p: Path| #[trigger]
                final(self).contains_path(p) == old(self).contains_path(p) && final(self).segments(
                    p,
                ) == old(self).segments(p),
            forall|e: Expression| #[trigger]
                final(self).contains(e) == old(self).contains(e) && final(self).term(e) == old(
                    self,
                ).term(e),
            forall|p: Path| #[trigger] final(self).definition(p) == old(self).definition(p),
            forall|p: Path| #[trigger] final(self).certified(p) == old(self).certified(p),
    {
        self.reduction_limit = limit;
        proof {
            self.lemma_same_env(old(self));
        }
    }

    /// Records `def` as the definition at `path`, unless one was recorded
    /// before: a definition, once given, is never changed. Says whether the
    /// definition was recorded.
    pub fn define(&mut self, path: Path, def: Definition) -> (r: bool)
        requires
            old(self).wf(),
            old(self).contains_path(path),
            old(self).contains_all(def.expressions()),
        ensures
            final(self).wf(),
            final(self).preserves(old(self)),
            final(self).env() == old(self).env(),
            r == (old(self).definition(path) is None),
            final(self).definition(path) == if r {
                Some(def)
            } else {
                old(self).definition(path)
            },
            forall|p: Path| p != path ==> #[trigger] final(self).definition(p) == old(self).definition(p),
            forall|p: Path| #[trigger] final(self).certified(p) == old(self).certified(p),
            forall|s: Str| final(self).contains_str(s) ==> old(self).contains_str(s),
            forall|p: Path| final(self).contains_path(p) ==> old(self).contains_path(p),
            forall|e: Expression| final(self).contains(e) ==> old(self).contains(e),
    {
        if self.definitions[path.id].is_some() {
            return false;
        }
        self.definitions[path.id] = Some(def);
        proof {
            self.lemma_same_env(old(self));
            assert forall|i: int, k: int|
                0 <= i < self.definitions@.len() && self.definitions@[i] is Some && 0 <= k < (
                #[trigger] self.definitions@[i])->0.expressions().len() implies (
            #[trigger] self.definitions@[i]->0.expressions()[k]).id < self.nodes@.len() by {
                if i == path.id {
                    assert(old(self).contains(def.expressions()[k]));
                } else {
                    assert(self.definitions@[i] == old(self).definitions@[i]);
                }
            }
        }
        true
    }

    /// The definition that was given for `path`, if any.
    pub fn get_definition(&self, path: Path) -> (r: Option<&Definition>)
        requires
            self.wf(),
        ensures
            r is Some <==> self.definition(path) is Some,
            r matches Some(def) ==> Some(*def) == self.definition(path),
    {
        if path.id < self.definitions.len() {
            self.definitions[path.id].as_ref()
        } else {
            None
        }
    }

    /// The certified definition at `path`, if there is one.
    pub fn get_certified(&self, path: Path) -> (r: Option<&CertifiedDefinition>)
        requires
            self.wf(),
        ensures
            r is Some <==> self.certified(path) is Some,
            r matches Some(c) ==> Some(*c) == self.certified(path),
    {
        if path.id < self.certified.len() {
            self.certified[path.id].as_ref()
        } else {
            None
        }
    }

    /// Records `certified` as the certified definition at `path`.
    pub(crate) fn store_certified(&mut self, path: Path, certified: CertifiedDefinition)
        requires
            old(self).wf(),
            old(self).contains_path(path),
            old(self).certified(path) is None,
            old(self).contains_all(certified.definition().expressions()),
            env_wf(old(self).env().insert(path, old(self).global(certified))),
        ensures
            final(self).wf(),
            final(self).preserves(old(self)),
            final(self).env() == old(self).env().insert(path, old(self).global(certified)),
            final(self).certified(path) == Some(certified),
            forall|p: Path| p != path ==> #[trigger] final(self).certified(p) == old(self).certified(p),
            forall|p: Path| #[trigger] final(self).definition(p) == old(self).definition(p),
            forall|s: Str| final(self).contains_str(s) ==> old(self).contains_str(s),
            forall|p: Path| final(self).contains_path(p) ==> old(self).contains_path(p),
            forall|e: Expression| final(self).contains(e) ==> old(self).contains(e),
    {
        self.certified[path.id] = Some(certified);
        proof {
            let expected = old(self).env().insert(path, old(self).global(certified));
            assert forall|p: Path| self.certified(p) is Some && p != path implies self.global(
                self.certified(p)->0,
            ) == old(self).global(old(self).certified(p)->0) by {
                old(self).lemma_definitions(p);
            }
            assert(self.env() =~= expected);
            assert forall|i: int, k: int|
                0 <= i < self.certified@.len() && self.certified@[i] is Some && 0 <= k < (
                #[trigger] self.certified@[i])->0.definition().expressions().len() implies (
            #[trigger] self.certified@[i]->0.definition().expressions()[k]).id
                < self.nodes@.len() by {
                if i == path.id {
                    assert(old(self).contains(certified.definition().expressions()[k]));
                } else {
                    assert(self.certified@[i] == old(self).certified@[i]);
                }
            }
        }
    }
}

} // verus!
