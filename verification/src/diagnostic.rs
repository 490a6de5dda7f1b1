//! Results that carry diagnostics.

use vstd::prelude::*;

verus! {

/// A diagnostic result that tracks both fatal and non-fatal diagnostics.
/// Non-fatal diagnostics can represent warnings, or simply advice given to the user.
///
/// This structure has two states, `ok` and `err`.
/// In the `ok` state, there is a value of type `T`, and a list of non-fatal diagnostics of type `N`.
/// In the `err` state, there is a fatal error of type `E`, and a list of non-fatal diagnostics of type `N`.
///
/// We implement various monadic operations to compose diagnostic results.
/// When we hit the first fatal error, we will no longer track any subsequent diagnostics.
#[derive(Debug, PartialEq, Eq, Hash)]
pub struct Dr<T, E, N> {
    value: Result<T, E>,
    non_fatal: Vec<N>,
}

impl<T, E, N> Dr<T, E, N> {
    /// The value or the fatal error.
    pub closed spec fn outcome(&self) -> Result<T, E> {
        self.value
    }

    /// The non-fatal diagnostics, in the order in which they were given.
    pub closed spec fn notes(&self) -> Seq<N> {
        self.non_fatal@
    }

    /// Creates a new diagnostic result containing the given value, and no messages.
    /// The returned message is in the `ok` state.
    pub fn new(value: T) -> (r: Self)
        ensures
            r.outcome() == Ok::<T, E>(value),
            r.notes() == Seq::<N>::empty(),
    {
        Dr { value: Ok(value), non_fatal: Vec::new() }
    }

    /// Creates a new diagnostic result containing the given fatal error.
    /// The returned message is in the `err` state.
    pub fn new_err(error: E) -> (r: Self)
        ensures
            r.outcome() == Err::<T, E>(error),
            r.notes() == Seq::<N>::empty(),
    {
        Dr { value: Err(error), non_fatal: Vec::new() }
    }

    /// Returns true if this diagnostic result is in the `ok` state.
    /// In this case, there is a value of type `T` contained in this struct.
    pub fn is_ok(&self) -> (r: bool)
        ensures
            r == self.outcome() is Ok,
    {
        self.value.is_ok()
    }

    /// Returns true if this diagnostic result is in the `err` state.
    /// In this case, there is a fatal error of type `E` contained in this struct.
    pub fn is_err(&self) -> (r: bool)
        ensures
            r == self.outcome() is Err,
    {
        self.value.is_err()
    }

    /// Retrieves the value inside this diagnostic result if in the `ok` state.
    pub fn value(&self) -> (r: Option<&T>)
        ensures
            r is Some <==> self.outcome() is Ok,
            r matches Some(value) ==> self.outcome() == Ok::<T, E>(*value),
    {
        match &self.value {
            Ok(value) => Some(value),
            Err(_) => None,
        }
    }

    /// Retrieves the fatal error inside this diagnostic result if in the `err` state.
    pub fn error(&self) -> (r: Option<&E>)
        ensures
            r is Some <==> self.outcome() is Err,
            r matches Some(error) ==> self.outcome() == Err::<T, E>(*error),
    {
        match &self.value {
            Ok(_) => None,
            Err(error) => Some(error),
        }
    }

    /// The non-fatal diagnostics, in the order in which they were given.
    pub fn non_fatal(&self) -> (r: &Vec<N>)
        ensures
            r@ == self.notes(),
    {
        &self.non_fatal
    }

    /// Puts a result together: the value or the fatal error, and the
    /// non-fatal diagnostics.
    pub fn from_parts(value: Result<T, E>, non_fatal: Vec<N>) -> (r: Self)
        ensures
            r.outcome() == value,
            r.notes() == non_fatal@,
    {
        Dr { value, non_fatal }
    }

    /// Takes the result apart: the value or the fatal error, and the
    /// non-fatal diagnostics.
    pub fn into_parts(self) -> (r: (Result<T, E>, Vec<N>))
        ensures
            r.0 == self.outcome(),
            r.1@ == self.notes(),
    {
        (self.value, self.non_fatal)
    }

    /// Applies the given operation to the contained value, if it exists.
    /// If this diagnostic result is in the `err` state, no action is performed.
    pub fn map<U, F: FnOnce(T) -> U>(self, op: F) -> (r: Dr<U, E, N>)
        requires
            self.outcome() matches Ok(value) ==> op.requires((value,)),
        ensures
            r.notes() == self.notes(),
            match self.outcome() {
                Ok(value) => r.outcome() is Ok && op.ensures((value,), r.outcome()->Ok_0),
                Err(error) => r.outcome() == Err::<U, E>(error),
            },
    {
        match self.value {
            Ok(value) => Dr { value: Ok(op(value)), non_fatal: self.non_fatal },
            Err(error) => Dr { value: Err(error), non_fatal: self.non_fatal },
        }
    }

    /// Applies the given operation to the contained error, if it exists.
    /// If this diagnostic result is in the `ok` state, no action is performed.
    pub fn map_err<F, O: FnOnce(E) -> F>(self, op: O) -> (r: Dr<T, F, N>)
        requires
            self.outcome() matches Err(error) ==> op.requires((error,)),
        ensures
            r.notes() == self.notes(),
            match self.outcome() {
                Ok(value) => r.outcome() == Ok::<T, F>(value),
                Err(error) => r.outcome() is Err && op.ensures((error,), r.outcome()->Err_0),
            },
    {
        match self.value {
            Ok(value) => Dr { value: Ok(value), non_fatal: self.non_fatal },
            Err(error) => Dr { value: Err(op(error)), non_fatal: self.non_fatal },
        }
    }

    /// Applies the given operation to each non-fatal diagnostic.
    pub fn map_errs<O, F: Fn(N) -> O>(self, op: F) -> (r: Dr<T, E, O>)
        requires
            forall|i: int| 0 <= i < self.notes().len() ==> #[trigger] op.requires((self.notes()[i],)),
        ensures
            r.outcome() == self.outcome(),
            r.notes().len() == self.notes().len(),
            forall|i: int|
                0 <= i < self.notes().len() ==> op.ensures(
                    (self.notes()[i],),
                    #[trigger] r.notes()[i],
                ),
    {
        let ghost notes = self.notes();
        let outcome = self.value;
        let mut rest = self.non_fatal;
        let mut reversed: Vec<O> = Vec::new();
        assert(rest@ =~= notes.take(rest@.len() as int));
        while rest.len() > 0
            invariant
                rest@.len() <= notes.len(),
                rest@ == notes.take(rest@.len() as int),
                reversed@.len() == notes.len() - rest@.len(),
                forall|i: int| 0 <= i < notes.len() ==> #[trigger] op.requires((notes[i],)),
                forall|i: int|
                    0 <= i < reversed@.len() ==> op.ensures(
                        (notes[notes.len() - 1 - i],),
                        #[trigger] reversed@[i],
                    ),
            decreases rest@.len(),
        {
            let ghost before = rest@;
            let note = rest.pop().unwrap();
            assert(note == notes[before.len() - 1]);
            assert(rest@ =~= notes.take(rest@.len() as int));
            reversed.push(op(note));
        }
        let ghost mapped = reversed@;
        let mut non_fatal: Vec<O> = Vec::new();
        while reversed.len() > 0
            invariant
                mapped.len() == notes.len(),
                reversed@.len() <= mapped.len(),
                reversed@ == mapped.take(reversed@.len() as int),
                non_fatal@.len() == mapped.len() - reversed@.len(),
                forall|i: int|
                    0 <= i < non_fatal@.len() ==> #[trigger] non_fatal@[i] == mapped[mapped.len() - 1
                        - i],
            decreases reversed@.len(),
        {
            let ghost before = reversed@;
            let note = reversed.pop().unwrap();
            assert(note == mapped[before.len() - 1]);
            assert(reversed@ =~= mapped.take(reversed@.len() as int));
            non_fatal.push(note);
        }
        assert(non_fatal@.len() == notes.len());
        Dr { value: outcome, non_fatal }
    }

    /// Produces a new diagnostic result by adding the given non-fatal diagnostic.
    /// If this diagnostic result is in the `err` state, no action is performed.
    pub fn with(self, diag: N) -> (r: Self)
        ensures
            r.outcome() == self.outcome(),
            r.notes() == if self.outcome() is Ok {
                self.notes().push(diag)
            } else {
                self.notes()
            },
    {
        let mut result = self;
        if result.value.is_ok() {
            result.non_fatal.push(diag);
        }
        result
    }

    /// Composes two diagnostic results, where the second may depend on the value inside the first.
    /// If `self` is in the `err` state, no action is performed, and an `err`-state [`Dr`] is returned.
    /// Otherwise, the non-fatal error messages of both diagnostic results are combined to produce the output.
    pub fn bind<U, F: FnOnce(T) -> Dr<U, E, N>>(self, f: F) -> (r: Dr<U, E, N>)
        requires
            self.outcome() matches Ok(value) ==> f.requires((value,)),
        ensures
            match self.outcome() {
                Ok(value) => exists|next: Dr<U, E, N>|
                    #![trigger f.ensures((value,), next)]
                    f.ensures((value,), next) && r.outcome() == next.outcome() && r.notes()
                        == self.notes() + next.notes(),
                Err(error) => r.outcome() == Err::<U, E>(error) && r.notes() == self.notes(),
            },
    {
        match self.value {
            Ok(value) => {
                let mut non_fatal = self.non_fatal;
                let result = f(value);
                let mut next = result.non_fatal;
                let ghost first = non_fatal@;
                let ghost second = next@;
                non_fatal.append(&mut next);
                Dr { value: result.value, non_fatal }
            },
            Err(error) => Dr { value: Err(error), non_fatal: self.non_fatal },
        }
    }
}

/// The elements of `v` in the opposite order.
fn reversed<A>(v: Vec<A>) -> (r: Vec<A>)
    ensures
        r@.len() == v@.len(),
        forall|i: int| 0 <= i < r@.len() ==> #[trigger] r@[i] == v@[v@.len() - 1 - i],
{
    let ghost elements = v@;
    let mut rest = v;
    let mut result: Vec<A> = Vec::new();
    while rest.len() > 0
        invariant
            rest@.len() <= elements.len(),
            rest@ == elements.take(rest@.len() as int),
            result@.len() == elements.len() - rest@.len(),
            forall|i: int|
                0 <= i < result@.len() ==> #[trigger] result@[i] == elements[elements.len() - 1 - i],
        decreases rest@.len(),
    {
        let ghost before = rest@;
        let element = rest.pop().unwrap();
        assert(element == elements[before.len() - 1]);
        assert(rest@ =~= elements.take(rest@.len() as int));
        result.push(element);
    }
    result
}

/// The position of the first of `results` that is in the `err` state.
pub open spec fn first_failure<T, E, N>(results: Seq<Dr<T, E, N>>) -> Option<int>
    decreases results.len(),
{
    if results.len() == 0 {
        None
    } else {
        match first_failure(results.drop_last()) {
            Some(i) => Some(i),
            None => if results.last().outcome() is Err {
                Some(results.len() - 1)
            } else {
                None
            },
        }
    }
}

/// The non-fatal diagnostics of the first `n` of `results`, in order.
pub open spec fn joined_notes<T, E, N>(results: Seq<Dr<T, E, N>>, n: int) -> Seq<N>
    decreases n,
{
    if n <= 0 {
        Seq::empty()
    } else {
        joined_notes(results, n - 1) + results[n - 1].notes()
    }
}

/// The values of those of the first `n` of `results` that are in the `ok`
/// state, in order.
pub open spec fn kept_values<T, E, N>(results: Seq<Dr<T, E, N>>, n: int) -> Seq<T>
    decreases n,
{
    if n <= 0 {
        Seq::empty()
    } else {
        match results[n - 1].outcome() {
            Ok(value) => kept_values(results, n - 1).push(value),
            Err(_) => kept_values(results, n - 1),
        }
    }
}

/// The diagnostics of the first `n` of `results`, in order: the non-fatal
/// ones of each, followed by its fatal error if it has one.
pub open spec fn all_notes<T, E>(results: Seq<Dr<T, E, E>>, n: int) -> Seq<E>
    decreases n,
{
    if n <= 0 {
        Seq::empty()
    } else {
        match results[n - 1].outcome() {
            Ok(_) => all_notes(results, n - 1) + results[n - 1].notes(),
            Err(error) => all_notes(results, n - 1) + results[n - 1].notes().push(error),
        }
    }
}

/// Where the first failure lies among the first `n + 1` results, given that
/// there is none among the first `n`.
proof fn lemma_first_failure_take<T, E, N>(results: Seq<Dr<T, E, N>>, n: int)
    requires
        0 <= n < results.len(),
        first_failure(results.take(n)) is None,
    ensures
        first_failure(results.take(n + 1)) == if results[n].outcome() is Err {
            Some(n)
        } else {
            None
        },
{
    assert(results.take(n + 1).drop_last() =~= results.take(n));
}

/// A failure among the first `n` results is the first failure of them all.
proof fn lemma_first_failure_found<T, E, N>(results: Seq<Dr<T, E, N>>, n: int)
    requires
        0 <= n <= results.len(),
        first_failure(results.take(n)) is Some,
    ensures
        first_failure(results) == first_failure(results.take(n)),
    decreases results.len() - n,
{
    if n < results.len() {
        assert(results.take(n + 1).drop_last() =~= results.take(n));
        lemma_first_failure_found(results, n + 1);
    } else {
        assert(results.take(n) =~= results);
    }
}

impl<T, E, N> Dr<T, E, N> {
    /// Combines a list of diagnostic results into a single result by binding them all together:
    /// the values of all of them, or the first fatal error. The non-fatal
    /// diagnostics are those of the results up to the first failure.
    pub fn sequence(results: Vec<Dr<T, E, N>>) -> (r: Dr<Vec<T>, E, N>)
        ensures
            match first_failure(results@) {
                None => r.outcome() is Ok && r.outcome()->Ok_0@ == kept_values(
                    results@,
                    results@.len() as int,
                ) && r.notes() == joined_notes(results@, results@.len() as int),
                Some(i) => 0 <= i < results@.len() && results@[i].outcome() is Err && r.outcome()
                    == Err::<Vec<T>, E>(results@[i].outcome()->Err_0) && r.notes() == joined_notes(
                    results@,
                    i + 1,
                ),
            },
    {
        let ghost all = results@;
        let n = results.len();
        let mut rest = reversed(results);
        let mut values: Vec<T> = Vec::new();
        let mut non_fatal: Vec<N> = Vec::new();
        let mut i: usize = 0;
        assert(all.take(0) =~= Seq::empty());
        while i < n
            invariant
                all == results@,
                n == all.len(),
                i <= n,
                rest@.len() == n - i,
                forall|j: int| 0 <= j < rest@.len() ==> #[trigger] rest@[j] == all[n - 1 - j],
                first_failure(all.take(i as int)) is None,
                values@ == kept_values(all, i as int),
                non_fatal@ == joined_notes(all, i as int),
            decreases n - i,
        {
            let next = rest.pop().unwrap();
            assert(next == all[i as int]);
            proof {
                lemma_first_failure_take(all, i as int);
            }
            let mut notes = next.non_fatal;
            non_fatal.append(&mut notes);
            match next.value {
                Ok(value) => {
                    values.push(value);
                },
                Err(error) => {
                    proof {
                        lemma_first_failure_found(all, i + 1);
                    }
                    return Dr { value: Err(error), non_fatal };
                },
            }
            i += 1;
        }
        assert(all.take(n as int) =~= all);
        Dr { value: Ok(values), non_fatal }
    }
}

impl<T, E> Dr<T, E, E> {
    /// Creates a new diagnostic report with the given vector of errors.
    /// This must be nonempty.
    /// The last entry in this list is used as the fatal error, all others are marked as non-fatal.
    /// This choice makes the rendered order of the errors correct.
    pub fn new_err_many(errors: Vec<E>) -> (r: Self)
        requires
            errors@.len() > 0,
        ensures
            r.outcome() == Err::<T, E>(errors@.last()),
            r.notes() == errors@.drop_last(),
    {
        let mut errors = errors;
        let last = errors.pop().unwrap();
        Self { value: Err(last), non_fatal: errors }
    }

    /// Converts a failed diagnostic into a successful diagnostic by wrapping
    /// the contained value in an `Option`.
    pub fn unfail(self) -> (r: Dr<Option<T>, E, E>)
        ensures
            match self.outcome() {
                Ok(value) => r.outcome() == Ok::<Option<T>, E>(Some(value)) && r.notes()
                    == self.notes(),
                Err(error) => r.outcome() == Ok::<Option<T>, E>(None) && r.notes()
                    == self.notes().push(error),
            },
    {
        let mut non_fatal = self.non_fatal;
        let value = match self.value {
            Ok(value) => Some(value),
            Err(err) => {
                non_fatal.push(err);
                None
            },
        };
        Dr { value: Ok(value), non_fatal }
    }

    /// Combines a list of diagnostic results into a single result by binding them all together.
    /// Any failed diagnostics will be excluded from the output, but their error messages will remain.
    /// Therefore, this function will never fail - it might just produce an empty list as its output.
    pub fn sequence_unfail(results: Vec<Dr<T, E, E>>) -> (r: Dr<Vec<T>, E, E>)
        ensures
            r.outcome() is Ok,
            r.outcome()->Ok_0@ == kept_values(results@, results@.len() as int),
            r.notes() == all_notes(results@, results@.len() as int),
    {
        let ghost all = results@;
        let n = results.len();
        let mut rest = reversed(results);
        let mut values: Vec<T> = Vec::new();
        let mut non_fatal: Vec<E> = Vec::new();
        let mut i: usize = 0;
        while i < n
            invariant
                all == results@,
                n == all.len(),
                i <= n,
                rest@.len() == n - i,
                forall|j: int| 0 <= j < rest@.len() ==> #[trigger] rest@[j] == all[n - 1 - j],
                values@ == kept_values(all, i as int),
                non_fatal@ == all_notes(all, i as int),
            decreases n - i,
        {
            let next = rest.pop().unwrap();
            assert(next == all[i as int]);
            let mut notes = next.non_fatal;
            non_fatal.append(&mut notes);
            match next.value {
                Ok(value) => {
                    values.push(value);
                },
                Err(error) => {
                    non_fatal.push(error);
                },
            }
            i += 1;
        }
        Dr { value: Ok(values), non_fatal }
    }
}

} // verus!
