//! When an iterative solver stops, and which iteration count it
//! reports.
//!
//! The solver runs the sweeps and tests each for convergence; the
//! counting is done here. A stationary solver counts from zero and runs
//! while the count is below its budget. A conjugate-gradient solver has
//! taken one step before its loop, so it counts from one and runs while
//! the count does not exceed its budget. Either stops at the first sweep
//! that converged, and that sweep is not counted.

use vstd::prelude::*;

verus! {

/// The state of an iteration.
pub ghost struct Run {
    /// The count that the solver would report now.
    pub count: nat,
    /// The count at which the budget is used up.
    pub ceiling: nat,
    /// Whether a sweep has converged.
    pub settled: bool,
}

impl Run {
    /// The count has not passed the ceiling.
    pub open spec fn wf(self) -> bool {
        self.count <= self.ceiling
    }

    /// Another sweep is due: none has converged and the budget is not
    /// used up.
    pub open spec fn running(self) -> bool {
        !self.settled && self.count < self.ceiling
    }

    /// The state after one more sweep whose convergence test gave
    /// `converged`. A sweep that converged settles the run and is not
    /// counted; any other is counted. A run that is not running stays as
    /// it is.
    pub open spec fn after(self, converged: bool) -> Run {
        if !self.running() {
            self
        } else if converged {
            Run { settled: true, ..self }
        } else {
            Run { count: self.count + 1, ..self }
        }
    }

    /// The state after the sweeps whose tests gave `tests`, in order.
    pub open spec fn after_all(self, tests: Seq<bool>) -> Run
        decreases tests.len(),
    {
        if tests.len() == 0 {
            self
        } else {
            self.after_all(tests.drop_last()).after(tests.last())
        }
    }
}

/// The start of a stationary iteration with a budget of `iter_max`
/// sweeps.
pub open spec fn stationary_start(iter_max: nat) -> Run {
    Run { count: 0, ceiling: iter_max, settled: false }
}

/// The start of a conjugate-gradient iteration with a budget of
/// `iter_max` steps, the first of which is taken before the loop.
pub open spec fn krylov_start(iter_max: nat) -> Run {
    Run { count: 1, ceiling: iter_max + 1, settled: false }
}

/// However the tests come out, the count stays within the ceiling and
/// never falls.
pub proof fn lemma_count_stays_within(run: Run, tests: Seq<bool>)
    requires
        run.wf(),
    ensures
        run.after_all(tests).wf(),
        run.after_all(tests).ceiling == run.ceiling,
        run.count <= run.after_all(tests).count,
    decreases tests.len(),
{
    if tests.len() > 0 {
        lemma_count_stays_within(run, tests.drop_last());
    }
}

/// While no sweep converges, every sweep is counted until the budget is
/// used up: the count rises by the number of sweeps, capped by the
/// ceiling.
pub proof fn lemma_unconverged_sweeps_are_counted(run: Run, tests: Seq<bool>)
    requires
        run.wf(),
        !run.settled,
        forall|i: int| 0 <= i < tests.len() ==> !tests[i],
    ensures
        !run.after_all(tests).settled,
        run.after_all(tests).count == if run.count + tests.len() <= run.ceiling {
            run.count + tests.len()
        } else {
            run.ceiling
        },
    decreases tests.len(),
{
    if tests.len() > 0 {
        lemma_unconverged_sweeps_are_counted(run, tests.drop_last());
        lemma_count_stays_within(run, tests.drop_last());
    }
}

/// A sweep that converges while the run is running stops it, and the
/// count reported is the number of sweeps counted before it.
pub proof fn lemma_converged_sweep_stops(run: Run, tests: Seq<bool>)
    requires
        run.after_all(tests).running(),
    ensures
        !run.after_all(tests.push(true)).running(),
        run.after_all(tests.push(true)).count == run.after_all(tests).count,
{
    assert(tests.push(true).drop_last() =~= tests);
}

/// The counter of one iterative solve.
pub struct Iteration {
    count: usize,
    ceiling: usize,
    settled: bool,
}

impl View for Iteration {
    type V = Run;

    closed spec fn view(&self) -> Run {
        Run { count: self.count as nat, ceiling: self.ceiling as nat, settled: self.settled }
    }
}

impl Iteration {
    #[verifier::type_invariant]
    spec fn valid(self) -> bool {
        self.count <= self.ceiling
    }

    /// Starts a stationary iteration (Jacobi, Gauss-Seidel, SSOR).
    pub fn stationary(iter_max: usize) -> (it: Iteration)
        ensures
            it@ == stationary_start(iter_max as nat),
    {
        Iteration { count: 0, ceiling: iter_max, settled: false }
    }

    /// Starts a conjugate-gradient iteration. The count can reach
    /// `iter_max + 1`, which has to fit the machine word.
    pub fn krylov(iter_max: usize) -> (it: Iteration)
        requires
            iter_max < usize::MAX,
        ensures
            it@ == krylov_start(iter_max as nat),
    {
        Iteration { count: 1, ceiling: iter_max + 1, settled: false }
    }

    /// Whether another sweep is due.
    pub fn is_running(&self) -> (b: bool)
        ensures
            b == self@.running(),
            self@.wf(),
    {
        proof {
            use_type_invariant(self);
        }
        !self.settled && self.count < self.ceiling
    }

    /// Records a sweep and the result of its convergence test.
    pub fn record(&mut self, converged: bool)
        ensures
            final(self)@ == old(self)@.after(converged),
            final(self)@.wf(),
    {
        proof {
            use_type_invariant(&*self);
        }
        if !self.settled && self.count < self.ceiling {
            if converged {
                self.settled = true;
            } else {
                self.count = self.count + 1;
            }
        }
    }

    /// The iteration count to report.
    pub fn count(&self) -> (n: usize)
        ensures
            n == self@.count,
            self@.wf(),
    {
        proof {
            use_type_invariant(self);
        }
        self.count
    }

    /// Whether a sweep has converged.
    pub fn has_converged(&self) -> (b: bool)
        ensures
            b == self@.settled,
    {
        self.settled
    }
}

} // verus!
