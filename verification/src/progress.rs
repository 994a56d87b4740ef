use vstd::prelude::*;

verus! {

/// One step of a multi-step task.
#[derive(Debug, PartialEq, Eq)]
pub struct Step {
    pub id: String,
    pub description: String,
}

impl Clone for Step {
    fn clone(&self) -> (r: Self)
        ensures
            r == *self,
    {
        Step { id: self.id.clone(), description: self.description.clone() }
    }
}

/// The progress of a task made of steps, one of which is current.
#[derive(Clone, Debug)]
pub struct MultiStepProgress {
    current_step_index: usize,
    steps: Vec<Step>,
}

impl MultiStepProgress {
    /// The current step is one of the steps (or the first, when there are none).
    pub closed spec fn wf(&self) -> bool {
        self.current_step_index == 0 || self.current_step_index < self.steps@.len()
    }

    /// The zero-based index of the current step.
    pub closed spec fn current(&self) -> nat {
        self.current_step_index as nat
    }

    pub closed spec fn all_steps(&self) -> Seq<Step> {
        self.steps@
    }

    /// Whether the current step is the last one: its number (counted from
    /// one) is the number of steps.
    pub open spec fn done(&self) -> bool {
        self.current() + 1 == self.all_steps().len()
    }

    /// Progress over the given steps, at the first one.
    pub fn for_steps_not_started(steps: Vec<Step>) -> (p: MultiStepProgress)
        ensures
            p.wf(),
            p.current() == 0,
            p.all_steps() == steps@,
    {
        MultiStepProgress { current_step_index: 0, steps }
    }

    pub fn get_current_step_value(&self) -> (r: Option<&Step>)
        ensures
            match r {
                Some(step) => self.current() < self.all_steps().len() && *step == self.all_steps()[self.current() as int],
                None => self.current() >= self.all_steps().len(),
            },
    {
        if self.current_step_index < self.steps.len() {
            Some(&self.steps[self.current_step_index])
        } else {
            None
        }
    }

    /// The current step, counted from one.
    pub fn get_current_step_number(&self) -> (n: usize)
        requires
            self.wf(),
        ensures
            n == self.current() + 1,
    {
        proof { assert(self.steps.len() == self.steps@.len()); }
        self.current_step_index + 1
    }

    /// Moves to the next step; stays on the last step when there is no next one.
    pub fn next_step(&mut self)
        requires
            old(self).wf(),
        ensures
            final(self).wf(),
            final(self).all_steps() == old(self).all_steps(),
            final(self).current() == if old(self).current() + 1 < old(self).all_steps().len() {
                old(self).current() + 1
            } else {
                old(self).current()
            },
            moved_on(*old(self), *final(self)),
    {
        let step_count = self.steps.len();
        let next_index = self.current_step_index + 1;
        if step_count > next_index {
            self.current_step_index = next_index;
        }
    }

    pub fn step_count(&self) -> (n: usize)
        ensures
            n == self.all_steps().len(),
    {
        self.steps.len()
    }

    pub fn steps(&self) -> (steps: &Vec<Step>)
        ensures
            steps@ == self.all_steps(),
    {
        &self.steps
    }

    /// Whether the current step is the last one.
    pub fn is_done(&self) -> (r: bool)
        requires
            self.all_steps().len() > 0,
        ensures
            r == self.done(),
    {
        self.current_step_index == self.step_count() - 1
    }

    /// The share of steps reached, in whole percent: a hundred divided by the
    /// number of steps (rounded down), times the current step number.
    pub fn get_progress_percentage(&self) -> (p: usize)
        requires
            self.wf(),
            self.all_steps().len() > 0,
        ensures
            p == (100nat / self.all_steps().len()) * (self.current() + 1),
            p <= 100,
    {
        let n = self.steps.len();
        let k = self.current_step_index + 1;
        assert((100usize / n) * k <= 100) by (nonlinear_arith)
            requires
                n > 0,
                1 <= k <= n,
        {
            assert((100usize / n) * n <= 100);
            assert((100usize / n) * k <= (100usize / n) * n);
        }
        (100 / n) * k
    }
}

/// Whether `b` is the progress `a` moves on to (what `next_step` does).
pub open spec fn moved_on(a: MultiStepProgress, b: MultiStepProgress) -> bool {
    &&& b.wf()
    &&& b.all_steps() == a.all_steps()
    &&& b.current() == if a.current() + 1 < a.all_steps().len() { a.current() + 1 } else { a.current() }
}

proof fn lemma_moves_from_start(ps: Seq<MultiStepProgress>, i: int)
    requires
        0 <= i < ps.len(),
        ps[0].current() == 0,
        ps[0].all_steps().len() >= 1,
        forall|j: int| 0 <= j < ps.len() - 1 ==> moved_on(#[trigger] ps[j], ps[j + 1]),
    ensures
        ps[i].all_steps() == ps[0].all_steps(),
        ps[i].current() == if i < ps[0].all_steps().len() { i } else { ps[0].all_steps().len() - 1 },
    decreases i,
{
    if i > 0 {
        lemma_moves_from_start(ps, i - 1);
        assert(moved_on(ps[i - 1], ps[i]));
    }
}

/// A progress over `n >= 1` steps that has not started (as
/// `for_steps_not_started` gives it), moved on with `next_step` `k` times, is
/// done exactly when `k >= n - 1`; `ps` holds the progress before the first
/// call and after each call, so `k` is `ps.len() - 1`.
pub proof fn lemma_done_after_next_steps(ps: Seq<MultiStepProgress>)
    requires
        ps.len() >= 1,
        ps[0].wf(),
        ps[0].current() == 0,
        ps[0].all_steps().len() >= 1,
        forall|j: int| 0 <= j < ps.len() - 1 ==> moved_on(#[trigger] ps[j], ps[j + 1]),
    ensures
        ps.last().done() <==> ps.len() - 1 >= ps[0].all_steps().len() - 1,
        ps.last().all_steps() == ps[0].all_steps(),
{
    lemma_moves_from_start(ps, ps.len() - 1);
}

} // verus!
