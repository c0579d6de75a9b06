//! Partial pivoting: which row becomes the next pivot, and how the row
//! permutation and the pivot count evolve over a factorization.
//!
//! Matrix entries do not enter here. Where the size of an entry decides,
//! the caller hands over its magnitude key: an unsigned integer that is
//! larger exactly when the magnitude is larger. For an IEEE 754
//! double-precision entry the key is the bit pattern of its absolute
//! value, read as an integer.

use vstd::prelude::*;
use crate::error::SolveError;
use crate::permutation::{exchanged, identity_rows, is_permutation, lemma_exchange_keeps_permutation, Permutation};

verus! {

/// The magnitude key of the double-precision machine epsilon, 2^-52. A
/// pivot whose key is below it counts as zero.
pub const SINGULARITY_THRESHOLD: u64 = 0x3CB0_0000_0000_0000;

/// Position `k` holds the largest key, and no earlier position holds one
/// as large.
pub open spec fn is_first_largest(keys: Seq<u64>, k: int) -> bool {
    &&& 0 <= k < keys.len()
    &&& forall|j: int| 0 <= j < keys.len() ==> (#[trigger] keys[j]) <= keys[k]
    &&& forall|j: int| 0 <= j < k ==> (#[trigger] keys[j]) < keys[k]
}

/// The position of the first largest key.
pub open spec fn first_largest(keys: Seq<u64>) -> int {
    choose|k: int| is_first_largest(keys, k)
}

/// Only one position is the first largest.
pub proof fn lemma_first_largest_unique(keys: Seq<u64>, a: int, b: int)
    requires
        is_first_largest(keys, a),
        is_first_largest(keys, b),
    ensures
        a == b,
{
    if a < b {
        assert(keys[a] < keys[b]);
        assert(keys[b] <= keys[a]);
    } else if b < a {
        assert(keys[b] < keys[a]);
        assert(keys[a] <= keys[b]);
    }
}

/// Finds the first largest key; `None` where there is no key at all.
pub fn first_largest_index(keys: &[u64]) -> (r: Option<usize>)
    ensures
        r is None <==> keys@.len() == 0,
        r is Some ==> r->0 == first_largest(keys@) && is_first_largest(keys@, r->0 as int),
{
    let n = keys.len();
    if n == 0 {
        return None;
    }
    let mut best: usize = 0;
    let mut j: usize = 1;
    while j < n
        invariant
            1 <= j <= n,
            n == keys@.len(),
            best < j,
            forall|i: int| 0 <= i < j ==> (#[trigger] keys@[i]) <= keys@[best as int],
            forall|i: int| 0 <= i < best ==> (#[trigger] keys@[i]) < keys@[best as int],
        decreases n - j,
    {
        if keys[j] > keys[best] {
            best = j;
        }
        j += 1;
    }
    proof {
        assert(is_first_largest(keys@, best as int));
        lemma_first_largest_unique(keys@, best as int, first_largest(keys@));
    }
    Some(best)
}

/// How far a factorization has come.
pub ghost struct Progress {
    /// The matrix's number of rows.
    pub rows: nat,
    /// The matrix's number of columns.
    pub cols: nat,
    /// The pivot steps taken so far; this is also the pivot count.
    pub steps: nat,
    /// The stored row at each logical position.
    pub order: Seq<usize>,
}

impl Progress {
    /// The order is a permutation of the rows, and no more steps were
    /// taken than there are rows or columns.
    pub open spec fn wf(self) -> bool {
        &&& self.order.len() == self.rows
        &&& is_permutation(self.order)
        &&& self.steps <= self.rows
        &&& self.steps <= self.cols
    }

    /// Every column that has a row to pivot on has had its step.
    pub open spec fn complete(self) -> bool {
        self.steps >= self.rows || self.steps >= self.cols
    }

    /// The stored rows that do not hold a pivot yet, in logical order.
    pub open spec fn candidates(self) -> Seq<usize> {
        self.order.subrange(self.steps as int, self.rows as int)
    }
}

/// The state before the first step: no row moved, no pivot counted.
pub open spec fn initial(rows: nat, cols: nat) -> Progress {
    Progress { rows, cols, steps: 0, order: identity_rows(rows) }
}

/// One pivot step. `keys` holds the magnitude key of each candidate
/// row's entry in the pivot column, in the candidates' order.
///
/// The step is refused with `DimensionMismatch` where no step is left or
/// the keys do not match the candidates, and with `SingularMatrix` where
/// the largest key is below the threshold. Otherwise the first candidate
/// with the largest key exchanges places with the candidate at the pivot
/// position, and the step is counted, whether or not a row moved.
pub open spec fn advance(p: Progress, keys: Seq<u64>) -> Result<Progress, SolveError> {
    if p.complete() || keys.len() != p.rows - p.steps {
        Err(SolveError::DimensionMismatch)
    } else if keys[first_largest(keys)] < SINGULARITY_THRESHOLD {
        Err(SolveError::SingularMatrix)
    } else {
        Ok(
            Progress {
                steps: p.steps + 1,
                order: exchanged(p.order, p.steps as int, p.steps + first_largest(keys)),
                ..p
            },
        )
    }
}

/// A step keeps the state well-formed, counts one pivot, and leaves the
/// rows of earlier pivots where they are.
pub proof fn lemma_advance_keeps_wf(p: Progress, keys: Seq<u64>)
    requires
        p.wf(),
        advance(p, keys) is Ok,
    ensures
        advance(p, keys)->Ok_0.wf(),
        advance(p, keys)->Ok_0.steps == p.steps + 1,
        advance(p, keys)->Ok_0.rows == p.rows,
        advance(p, keys)->Ok_0.cols == p.cols,
        forall|i: int| 0 <= i < p.steps ==> advance(p, keys)->Ok_0.order[i] == p.order[i],
        keys[first_largest(keys)] >= SINGULARITY_THRESHOLD,
{
    lemma_first_largest_exists(keys);
    lemma_exchange_keeps_permutation(p.order, p.steps as int, p.steps + first_largest(keys));
}

/// A sequence with at least one key has a first largest.
pub proof fn lemma_first_largest_exists(keys: Seq<u64>)
    requires
        keys.len() > 0,
    ensures
        is_first_largest(keys, first_largest(keys)),
    decreases keys.len(),
{
    if keys.len() == 1 {
        assert(is_first_largest(keys, 0));
    } else {
        let front = keys.drop_last();
        lemma_first_largest_exists(front);
        let k = first_largest(front);
        let last = keys.len() - 1;
        assert forall|j: int| 0 <= j < front.len() implies front[j] == keys[j] by {}
        if keys[last] > keys[k] {
            assert forall|j: int| 0 <= j < keys.len() implies (#[trigger] keys[j]) <= keys[last] by {
                if j < last {
                    assert(front[j] <= front[k]);
                }
            }
            assert forall|j: int| 0 <= j < last implies (#[trigger] keys[j]) < keys[last] by {
                assert(front[j] <= front[k]);
            }
            assert(is_first_largest(keys, last));
        } else {
            assert forall|j: int| 0 <= j < keys.len() implies (#[trigger] keys[j]) <= keys[k] by {
                if j < last {
                    assert(front[j] <= front[k]);
                }
            }
            assert forall|j: int| 0 <= j < k implies (#[trigger] keys[j]) < keys[k] by {
                assert(front[j] < front[k]);
            }
            assert(is_first_largest(keys, k));
        }
    }
}

/// The state after the pivot steps whose keys were `rounds`, in order.
/// The first refusal ends the run.
pub open spec fn advance_all(p: Progress, rounds: Seq<Seq<u64>>) -> Result<Progress, SolveError>
    decreases rounds.len(),
{
    if rounds.len() == 0 {
        Ok(p)
    } else {
        match advance_all(p, rounds.drop_last()) {
            Ok(q) => advance(q, rounds.last()),
            Err(e) => Err(e),
        }
    }
}

/// A factorization that was not refused has counted one pivot for each
/// of its steps and still holds a permutation of the rows. Once it is
/// complete the count is the smaller of rows and columns.
pub proof fn lemma_run_counts_every_step(rows: usize, cols: usize, rounds: Seq<Seq<u64>>)
    requires
        advance_all(initial(rows as nat, cols as nat), rounds) is Ok,
    ensures
        ({
            let end = advance_all(initial(rows as nat, cols as nat), rounds)->Ok_0;
            &&& end.wf()
            &&& end.rows == rows
            &&& end.cols == cols
            &&& end.steps == rounds.len()
            &&& end.complete() ==> end.steps == if rows <= cols {
                rows
            } else {
                cols
            }
        }),
    decreases rounds.len(),
{
    let start = initial(rows as nat, cols as nat);
    if rounds.len() == 0 {
        assert(is_permutation(start.order));
    } else {
        lemma_run_counts_every_step(rows, cols, rounds.drop_last());
        lemma_advance_keeps_wf(advance_all(start, rounds.drop_last())->Ok_0, rounds.last());
    }
}

/// What the caller has to do to the matrix after a pivot step.
pub struct Elimination {
    /// The pivot column; it is also the logical position of the pivot row.
    pub column: usize,
    /// The stored row that holds the pivot.
    pub pivot_row: usize,
    /// The stored rows below the pivot, in logical order. Each gets its
    /// multiplier written in the pivot column and the multiple of the
    /// pivot row taken off to the right of it.
    pub targets: Vec<usize>,
}

impl Elimination {
    /// This is the work that follows the step from `before` to `after`.
    pub open spec fn follows(self, before: Progress, after: Progress) -> bool {
        &&& self.column == before.steps
        &&& self.pivot_row == after.order[before.steps as int]
        &&& self.targets@ == after.candidates()
    }
}

/// The bookkeeping of one factorization with partial pivoting.
pub struct Factorizer {
    perm: Permutation,
    rows: usize,
    cols: usize,
    done: usize,
}

impl View for Factorizer {
    type V = Progress;

    closed spec fn view(&self) -> Progress {
        Progress {
            rows: self.rows as nat,
            cols: self.cols as nat,
            steps: self.done as nat,
            order: self.perm@,
        }
    }
}

impl Factorizer {
    #[verifier::type_invariant]
    spec fn valid(self) -> bool {
        &&& self.perm@.len() == self.rows
        &&& self.done <= self.rows
        &&& self.done <= self.cols
    }

    /// Starts the factorization of a matrix with `rows` rows and `cols`
    /// columns.
    pub fn new(rows: usize, cols: usize) -> (f: Factorizer)
        ensures
            f@ == initial(rows as nat, cols as nat),
            f@.wf(),
    {
        Factorizer { perm: Permutation::identity(rows), rows, cols, done: 0 }
    }

    /// Whether every pivot step has been taken.
    pub fn is_complete(&self) -> (b: bool)
        ensures
            b == self@.complete(),
            self@.wf(),
    {
        proof {
            use_type_invariant(self);
        }
        let _ = self.perm.len();
        self.done >= self.rows || self.done >= self.cols
    }

    /// The number of pivot steps taken. It is the column of the next
    /// step.
    pub fn pivot_count(&self) -> (n: usize)
        ensures
            n == self@.steps,
    {
        self.done
    }

    /// The stored rows among which the next pivot is chosen, in logical
    /// order.
    pub fn candidates(&self) -> (rows: Vec<usize>)
        ensures
            rows@ == self@.candidates(),
    {
        proof {
            use_type_invariant(self);
        }
        let mut out: Vec<usize> = Vec::new();
        let mut j: usize = self.done;
        while j < self.rows
            invariant
                self.done <= j <= self.rows,
                self.perm@.len() == self.rows,
                out@.len() == j - self.done,
                forall|k: int| 0 <= k < out@.len() ==> out@[k] == self.perm@[self.done + k],
            decreases self.rows - j,
        {
            out.push(self.perm.row(j));
            j += 1;
        }
        assert(out@ =~= self@.candidates());
        out
    }

    /// The row permutation as it stands.
    pub fn permutation(&self) -> (p: &Permutation)
        ensures
            p@ == self@.order,
    {
        &self.perm
    }

    /// Takes one pivot step: see [`advance`]. On a refusal nothing
    /// changes.
    pub fn pivot(&mut self, keys: &[u64]) -> (r: Result<Elimination, SolveError>)
        ensures
            final(self)@.wf(),
            match advance(old(self)@, keys@) {
                Ok(next) => r is Ok && final(self)@ == next && r->Ok_0.follows(old(self)@, next),
                Err(e) => r is Err && r->Err_0 == e && final(self)@ == old(self)@,
            },
    {
        proof {
            use_type_invariant(&*self);
        }
        let _ = self.perm.len();
        let step = self.done;
        if step >= self.rows || step >= self.cols || keys.len() != self.rows - step {
            return Err(SolveError::DimensionMismatch);
        }
        let k = match first_largest_index(keys) {
            Some(k) => k,
            None => {
                return Err(SolveError::DimensionMismatch);
            },
        };
        if keys[k] < SINGULARITY_THRESHOLD {
            return Err(SolveError::SingularMatrix);
        }
        let mut perm = self.perm.clone();
        perm.swap(step, step + k);
        self.perm = perm;
        self.done = step + 1;
        let pivot_row = self.perm.row(step);
        let mut targets: Vec<usize> = Vec::new();
        let mut j: usize = step + 1;
        while j < self.rows
            invariant
                step + 1 <= j <= self.rows,
                self.perm@.len() == self.rows,
                targets@.len() == j - (step + 1),
                forall|i: int| 0 <= i < targets@.len() ==> targets@[i] == self.perm@[step + 1 + i],
            decreases self.rows - j,
        {
            targets.push(self.perm.row(j));
            j += 1;
        }
        assert(targets@ =~= self@.candidates());
        Ok(Elimination { column: step, pivot_row, targets })
    }
}

/// The sign that a product of pivots gets.
#[derive(Clone, Copy, Debug, PartialEq, Eq, Structural)]
pub enum Sign {
    /// The product stands as it is.
    Positive,
    /// The product is negated.
    Negative,
}

/// The sign of the determinant of a factorized matrix: none unless the
/// matrix is square; positive where rows and pivot count differ by an
/// even number, negative otherwise.
pub open spec fn sign_rule(rows: int, cols: int, pivot_count: int) -> Option<Sign> {
    if rows != cols {
        None
    } else if (rows - pivot_count) % 2 == 0 {
        Some(Sign::Positive)
    } else {
        Some(Sign::Negative)
    }
}

/// With the count of a complete factorization of a square matrix, which
/// is the number of its rows whichever rows changed places, the sign is
/// positive.
pub proof fn lemma_sign_after_complete_run(n: usize, rounds: Seq<Seq<u64>>)
    requires
        advance_all(initial(n as nat, n as nat), rounds) is Ok,
        advance_all(initial(n as nat, n as nat), rounds)->Ok_0.complete(),
    ensures
        sign_rule(
            n as int,
            n as int,
            advance_all(initial(n as nat, n as nat), rounds)->Ok_0.steps as int,
        ) == Some(Sign::Positive),
{
    lemma_run_counts_every_step(n, n, rounds);
}

/// The sign by which the product of the factorized diagonal becomes the
/// determinant.
pub fn determinant_sign(rows: usize, cols: usize, pivot_count: usize) -> (s: Option<Sign>)
    ensures
        s == sign_rule(rows as int, cols as int, pivot_count as int),
{
    if rows != cols {
        None
    } else if rows % 2 == pivot_count % 2 {
        Some(Sign::Positive)
    } else {
        Some(Sign::Negative)
    }
}

} // verus!
