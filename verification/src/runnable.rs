//! The step execution engine's state machine. A runnable step wraps a
//! validated step with a status, an exit code and, for skipped steps, the name
//! of the dependency that blocked them. The engine schedules every step whose
//! dependencies are all finished, records exits, and reports terminal states.
//!
//! Status transitions are monotonic:
//!
//!   Pending -> Running -> Finished
//!   Pending -> Running -> Failed
//!   Pending -> Failed (spawn refused), Pending -> Skipped (blocked),
//!   Pending | Running -> Canceled.

use vstd::prelude::*;
use vstd::pervasive::VecAdditionalExecFns;
use crate::step::{ValidatedStep, ValidatedSteps, contains_name, deps_among, step_names};
use crate::dag::{
    names_unique, deps_closed, acyclic, dep_edge, cycle_member, name_views,
    check_unique, check_closed, check_acyclic, lemma_unique_name_index,
};
use crate::ValidationError;

verus! {

/// The lifecycle state of one runnable step.
#[derive(Debug, Clone, Copy, PartialEq, Eq, Structural)]
pub enum Status {
    Pending,
    Running,
    Finished,
    Failed,
    Skipped,
    Canceled,
}

/// The terminal record reported for one step.
#[derive(Debug, Clone)]
pub struct StepResult {
    pub name: String,
    pub status: Status,
    pub exit_code: Option<i32>,
    pub blocked_by: Option<String>,
}

/// A validated step together with its scheduling state.
#[derive(Debug)]
pub struct RunnableStep {
    pub step: ValidatedStep,
    pub status: Status,
    pub exit_code: Option<i32>,
    pub blocked_by: Option<String>,
}

/// The step set of one invocation: every runnable step of the pipeline.
#[derive(Debug)]
pub struct RunnableSteps {
    pub steps: Vec<RunnableStep>,
}

/// A status in which the step has entered execution (or finished it).
pub open spec fn active(s: Status) -> bool {
    s is Running || s is Finished || s is Failed
}

/// A status that will never change again.
pub open spec fn terminal(s: Status) -> bool {
    s is Finished || s is Failed || s is Skipped || s is Canceled
}

/// The legal transitions of the per-step state machine, reflexively closed.
/// No transition leaves a terminal state, none returns to Pending, and
/// Finished is reached only from Running.
pub open spec fn status_progresses(a: Status, b: Status) -> bool {
    ||| b == a
    ||| (a is Pending && (b is Running || b is Failed || b is Skipped || b is Canceled))
    ||| (a is Running && (b is Finished || b is Failed || b is Canceled))
}

/// The validated steps underlying a step set.
pub open spec fn steps_of(rs: Seq<RunnableStep>) -> Seq<ValidatedStep> {
    rs.map_values(|r: RunnableStep| r.step)
}

/// Some step of the given name has finished.
pub open spec fn dep_satisfied(rs: Seq<RunnableStep>, nm: Seq<char>) -> bool {
    exists|j: int| 0 <= j < rs.len() && (#[trigger] rs[j]).step.name@ == nm
        && rs[j].status is Finished
}

/// Every dependency of step `i` has finished.
pub open spec fn deps_finished(rs: Seq<RunnableStep>, i: int) -> bool {
    forall|k: int| 0 <= k < rs[i].step.depends@.len()
        ==> dep_satisfied(rs, (#[trigger] rs[i].step.depends@[k]).name@)
}

/// Step `i` may enter Running now: it is pending and unblocked.
pub open spec fn ready(rs: Seq<RunnableStep>, i: int) -> bool {
    0 <= i < rs.len() && rs[i].status is Pending && deps_finished(rs, i)
}

/// The per-step record is consistent: exit codes match statuses, and only
/// skipped steps name a blocker.
pub open spec fn step_record_ok(r: RunnableStep) -> bool {
    &&& (r.status is Finished ==> r.exit_code == Some(0i32))
    &&& (r.status is Failed ==> match r.exit_code {
        Some(c) => c != 0,
        None => true,
    })
    &&& (r.status is Pending || r.status is Running || r.status is Skipped
        || r.status is Canceled ==> r.exit_code is None)
    &&& (r.blocked_by is Some ==> r.status is Skipped)
    &&& (r.status is Skipped ==> r.blocked_by is Some)
}

/// A step runs only after all of its dependencies have finished.
pub open spec fn sched_ok(rs: Seq<RunnableStep>) -> bool {
    forall|i: int| 0 <= i < rs.len() && active((#[trigger] rs[i]).status)
        ==> deps_finished(rs, i)
}

/// The engine's invariant over a step set: the underlying graph satisfies the
/// three DAG invariants, scheduling respects dependencies, and every record
/// is consistent.
pub open spec fn engine_inv(rs: Seq<RunnableStep>) -> bool {
    &&& names_unique(steps_of(rs))
    &&& deps_closed(steps_of(rs))
    &&& acyclic(steps_of(rs))
    &&& sched_ok(rs)
    &&& forall|i: int| 0 <= i < rs.len() ==> step_record_ok(#[trigger] rs[i])
}

/// Every skipped step names a dependency of its own that did not finish.
pub open spec fn blocked_ok(rs: Seq<RunnableStep>) -> bool {
    forall|i: int| 0 <= i < rs.len() && (#[trigger] rs[i]).status is Skipped
        ==> {
            let nm = rs[i].blocked_by->Some_0@;
            &&& exists|k: int| 0 <= k < rs[i].step.depends@.len()
                && (#[trigger] rs[i].step.depends@[k]).name@ == nm
            &&& exists|j: int| 0 <= j < rs.len() && (#[trigger] rs[j]).step.name@ == nm
                && !(rs[j].status is Finished)
        }
}

/// Whether an index occurs in a list of indices.
pub open spec fn contains_index(r: Seq<usize>, i: int) -> bool {
    exists|p: int| 0 <= p < r.len() && r[p] as int == i
}

/// Replaces the scheduling state of entry `i`, keeping its step.
fn update_entry(v: &mut Vec<RunnableStep>, i: usize, status: Status, exit_code: Option<i32>,
    blocked_by: Option<String>)
    requires
        i < old(v)@.len(),
    ensures
        final(v)@ == old(v)@.update(i as int, RunnableStep {
            step: old(v)@[i as int].step,
            status,
            exit_code,
            blocked_by,
        }),
{
    let mut tmp = RunnableStep {
        step: ValidatedStep { name: String::new(), script: String::new(), depends: Vec::new() },
        status,
        exit_code: Option::None,
        blocked_by: Option::None,
    };
    v.set_and_swap(i, &mut tmp);
    let RunnableStep { step, status: _, exit_code: _, blocked_by: _ } = tmp;
    v.set(i, RunnableStep { step, status, exit_code, blocked_by });
}

/// Finished witnesses survive any update that never revokes a Finished
/// status and keeps every underlying step.
proof fn lemma_deps_finished_preserved(a: Seq<RunnableStep>, b: Seq<RunnableStep>, i: int)
    requires
        a.len() == b.len(),
        forall|j: int| 0 <= j < a.len() ==> (#[trigger] b[j]).step == a[j].step,
        forall|j: int| 0 <= j < a.len() && (#[trigger] a[j]).status is Finished
            ==> b[j].status is Finished,
        0 <= i < a.len(),
        deps_finished(a, i),
    ensures
        deps_finished(b, i),
{
    assert forall|k: int| 0 <= k < b[i].step.depends@.len()
        implies dep_satisfied(b, (#[trigger] b[i].step.depends@[k]).name@) by {
        assert(b[i].step == a[i].step);
        assert(dep_satisfied(a, a[i].step.depends@[k].name@));
        let j = choose|j: int| 0 <= j < a.len() && (#[trigger] a[j]).step.name@
            == a[i].step.depends@[k].name@ && a[j].status is Finished;
        assert(0 <= j < b.len() && b[j].step.name@ == b[i].step.depends@[k].name@
            && b[j].status is Finished);
    }
}

impl ValidatedSteps {
    /// The DAG validator: checks name uniqueness, reference closure and
    /// acyclicity, in that order, and produces the step set for one run,
    /// every step Pending.
    pub fn as_runnable(self) -> (r: Result<RunnableSteps, ValidationError>)
        ensures
            match r {
                Ok(rs) => {
                    &&& steps_of(rs.steps@) == self.vec@
                    &&& names_unique(self.vec@) && deps_closed(self.vec@) && acyclic(self.vec@)
                    &&& rs.steps@.len() == self.vec@.len()
                    &&& forall|i: int| 0 <= i < rs.steps@.len()
                        ==> (#[trigger] rs.steps@[i]).step == self.vec@[i]
                            && rs.steps@[i].status is Pending
                            && rs.steps@[i].exit_code is None
                            && rs.steps@[i].blocked_by is None
                    &&& engine_inv(rs.steps@)
                },
                Err(ValidationError::DuplicateStep(n)) => !names_unique(self.vec@)
                    && exists|i: int, j: int| 0 <= i < j < self.vec@.len()
                        && self.vec@[i].name@ == self.vec@[j].name@ && self.vec@[j].name@ == n@,
                Err(ValidationError::UnknownDependency(s, d)) => names_unique(self.vec@)
                    && !deps_closed(self.vec@)
                    && exists|i: int| 0 <= i < self.vec@.len()
                        && s@ == (#[trigger] self.vec@[i]).name@
                        && exists|k: int| 0 <= k < self.vec@[i].depends@.len()
                            && (#[trigger] self.vec@[i].depends@[k]).name@ == d@
                            && !contains_name(step_names(self.vec@), d@),
                Err(ValidationError::DependencyCycle(m)) => names_unique(self.vec@)
                    && deps_closed(self.vec@) && !acyclic(self.vec@)
                    && m@.len() > 0
                    && forall|p: int| 0 <= p < m@.len()
                        ==> cycle_member(self.vec@, name_views(m@), (#[trigger] m@[p])@),
                Err(_) => false,
            },
    {
        match check_unique(&self.vec) {
            Ok(()) => {}
            Err(e) => {
                proof {
                    if let ValidationError::DuplicateStep(n) = &e {
                        let (i, j) = choose|i: int, j: int| 0 <= i < j < self.vec@.len()
                            && self.vec@[i].name@ == self.vec@[j].name@
                            && self.vec@[j].name@ == n@;
                        assert(!names_unique(self.vec@));
                    }
                }
                return Err(e);
            }
        }
        match check_closed(&self.vec) {
            Ok(()) => {}
            Err(e) => {
                proof {
                    if let ValidationError::UnknownDependency(s, d) = &e {
                        let i = choose|i: int| 0 <= i < self.vec@.len()
                            && s@ == (#[trigger] self.vec@[i]).name@
                            && exists|k: int| 0 <= k < self.vec@[i].depends@.len()
                                && (#[trigger] self.vec@[i].depends@[k]).name@ == d@
                                && !contains_name(step_names(self.vec@), d@);
                        let k = choose|k: int| 0 <= k < self.vec@[i].depends@.len()
                            && (#[trigger] self.vec@[i].depends@[k]).name@ == d@
                            && !contains_name(step_names(self.vec@), d@);
                        assert(!deps_among(self.vec@[i], step_names(self.vec@)));
                        assert(!deps_closed(self.vec@));
                    }
                }
                return Err(e);
            }
        }
        match check_acyclic(&self.vec) {
            Ok(()) => {}
            Err(e) => {
                return Err(e);
            }
        }
        let ghost orig = self.vec@;
        let mut v = self.vec;
        let mut stack: Vec<ValidatedStep> = Vec::new();
        while v.len() > 0
            invariant
                v@.len() + stack@.len() == orig.len(),
                v@ == orig.subrange(0, v@.len() as int),
                forall|p: int| 0 <= p < stack@.len()
                    ==> #[trigger] stack@[p] == orig[orig.len() - 1 - p],
            decreases v@.len(),
        {
            match v.pop() {
                Option::Some(s) => {
                    stack.push(s);
                }
                Option::None => {}
            }
        }
        let mut out: Vec<RunnableStep> = Vec::new();
        while stack.len() > 0
            invariant
                stack@.len() + out@.len() == orig.len(),
                forall|p: int| 0 <= p < stack@.len()
                    ==> #[trigger] stack@[p] == orig[orig.len() - 1 - p],
                forall|i: int| 0 <= i < out@.len()
                    ==> (#[trigger] out@[i]).step == orig[i]
                        && out@[i].status is Pending
                        && out@[i].exit_code is None
                        && out@[i].blocked_by is None,
            decreases stack@.len(),
        {
            match stack.pop() {
                Option::Some(s) => {
                    out.push(RunnableStep {
                        step: s,
                        status: Status::Pending,
                        exit_code: Option::None,
                        blocked_by: Option::None,
                    });
                }
                Option::None => {}
            }
        }
        let rs = RunnableSteps { steps: out };
        proof {
            assert(steps_of(rs.steps@) =~= orig);
            assert forall|i: int| 0 <= i < rs.steps@.len()
                && active((#[trigger] rs.steps@[i]).status)
                implies deps_finished(rs.steps@, i) by {}
        }
        Ok(rs)
    }
}

impl ValidatedStep {
    /// Wraps one validated step in a fresh scheduling envelope.
    pub fn as_runnable(self) -> (r: RunnableStep)
        ensures
            r.step == self,
            r.status is Pending,
            r.exit_code is None,
            r.blocked_by is None,
    {
        RunnableStep {
            step: self,
            status: Status::Pending,
            exit_code: Option::None,
            blocked_by: Option::None,
        }
    }
}

impl RunnableStep {
    /// Whether this step may run now, given the names of the finished steps.
    pub fn is_available(&self, finished_steps: &Vec<String>) -> (r: bool)
        ensures
            r == (deps_among(self.step, finished_steps@.map_values(|n: String| n@))
                && self.status is Pending),
    {
        self.step.is_available(finished_steps) && self.status == Status::Pending
    }
}

impl RunnableSteps {
    /// How many steps the set holds.
    pub fn len(&self) -> (r: usize)
        ensures
            r == self.steps@.len(),
    {
        self.steps.len()
    }

    /// The status of step `i`.
    pub fn status_of(&self, i: usize) -> (r: Status)
        requires
            i < self.steps@.len(),
        ensures
            r == self.steps@[i as int].status,
    {
        self.steps[i].status
    }

    /// The ready set: every pending step whose dependencies have all
    /// finished, in increasing index order. The returned set is exactly the
    /// ready antichain of this instant.
    pub fn unblocked_steps(&self) -> (r: Vec<usize>)
        ensures
            forall|p: int| 0 <= p < r@.len() ==> ready(self.steps@, #[trigger] r@[p] as int),
            forall|p: int, q: int| 0 <= p < q < r@.len() ==> r@[p] < r@[q],
            forall|i: int| 0 <= i < self.steps@.len() && ready(self.steps@, i)
                ==> contains_index(r@, i),
    {
        let mut r: Vec<usize> = Vec::new();
        let mut i: usize = 0;
        while i < self.steps.len()
            invariant
                i <= self.steps@.len(),
                forall|p: int| 0 <= p < r@.len() ==> ready(self.steps@, #[trigger] r@[p] as int),
                forall|p: int| 0 <= p < r@.len() ==> #[trigger] r@[p] < i,
                forall|p: int, q: int| 0 <= p < q < r@.len() ==> r@[p] < r@[q],
                forall|a: int| 0 <= a < i && ready(self.steps@, a) ==> contains_index(r@, a),
            decreases self.steps@.len() - i,
        {
            if self.steps[i].status == Status::Pending && self.deps_done(i) {
                let ghost rold = r@;
                r.push(i);
                proof {
                    assert(r@[r@.len() - 1] as int == i as int);
                    assert forall|a: int| 0 <= a < i + 1 && ready(self.steps@, a)
                        implies contains_index(r@, a) by {
                        if a < i {
                            assert(contains_index(rold, a));
                            let p = choose|p: int| 0 <= p < rold.len() && rold[p] as int == a;
                            assert(r@[p] as int == a);
                        } else {
                            assert(r@[r@.len() - 1] as int == a);
                        }
                    }
                }
            }
            i = i + 1;
        }
        r
    }

    /// Whether every dependency of step `i` has finished.
    fn deps_done(&self, i: usize) -> (r: bool)
        requires
            i < self.steps@.len(),
        ensures
            r == deps_finished(self.steps@, i as int),
    {
        let step = &self.steps[i].step;
        let mut k: usize = 0;
        while k < step.depends.len()
            invariant
                i < self.steps@.len(),
                step == &self.steps@[i as int].step,
                k <= step.depends@.len(),
                forall|b: int| 0 <= b < k
                    ==> dep_satisfied(self.steps@, (#[trigger] step.depends@[b]).name@),
            decreases step.depends@.len() - k,
        {
            let nm = &step.depends[k].name;
            let mut hit = false;
            let mut j: usize = 0;
            while j < self.steps.len()
                invariant
                    i < self.steps@.len(),
                    k < step.depends@.len(),
                    step == &self.steps@[i as int].step,
                    nm == &step.depends@[k as int].name,
                    j <= self.steps@.len(),
                    hit ==> dep_satisfied(self.steps@, step.depends@[k as int].name@),
                    !hit ==> forall|b: int| 0 <= b < j
                        ==> !((#[trigger] self.steps@[b]).step.name@ == nm@
                            && self.steps@[b].status is Finished),
                decreases self.steps@.len() - j,
            {
                if self.steps[j].step.name == *nm && self.steps[j].status == Status::Finished {
                    hit = true;
                }
                j = j + 1;
            }
            if !hit {
                proof {
                    assert(!dep_satisfied(self.steps@, step.depends@[k as int].name@));
                }
                return false;
            }
            k = k + 1;
        }
        true
    }
}

/// How many steps of the set are still pending.
pub open spec fn num_pending(rs: Seq<RunnableStep>) -> nat
    decreases rs.len(),
{
    if rs.len() == 0 {
        0
    } else {
        num_pending(rs.drop_last()) + if rs.last().status is Pending { 1nat } else { 0nat }
    }
}

proof fn lemma_num_pending_update(rs: Seq<RunnableStep>, i: int, r: RunnableStep)
    requires
        0 <= i < rs.len(),
        rs[i].status is Pending,
        !(r.status is Pending),
    ensures
        num_pending(rs.update(i, r)) == num_pending(rs) - 1,
    decreases rs.len(),
{
    if i == rs.len() - 1 {
        assert(rs.update(i, r).drop_last() =~= rs.drop_last());
    } else {
        lemma_num_pending_update(rs.drop_last(), i, r);
        assert(rs.update(i, r).drop_last() =~= rs.drop_last().update(i, r));
        assert(rs.update(i, r).last() == rs.last());
    }
}

proof fn lemma_num_pending_none(rs: Seq<RunnableStep>)
    ensures
        (num_pending(rs) == 0) <==> (forall|i: int| 0 <= i < rs.len()
            ==> !((#[trigger] rs[i]).status is Pending)),
    decreases rs.len(),
{
    if rs.len() > 0 {
        lemma_num_pending_none(rs.drop_last());
        assert(forall|i: int| 0 <= i < rs.len() - 1 ==> rs.drop_last()[i] == rs[i]);
        if num_pending(rs) == 0 {
            assert(!(rs[rs.len() - 1].status is Pending));
        }
        if forall|i: int| 0 <= i < rs.len() ==> !((#[trigger] rs[i]).status is Pending) {
            assert(!(rs[rs.len() - 1].status is Pending));
        }
    }
}

/// The preserved-shape part of every transition: the set keeps its steps,
/// and every status moves only forward in the per-step state machine.
pub open spec fn steps_preserved(a: Seq<RunnableStep>, b: Seq<RunnableStep>) -> bool {
    &&& b.len() == a.len()
    &&& forall|k: int| 0 <= k < a.len() ==> (#[trigger] b[k]).step == a[k].step
    &&& forall|k: int| 0 <= k < a.len()
        ==> status_progresses(a[k].status, (#[trigger] b[k]).status)
}

impl RunnableSteps {
    /// Marks a ready step Running. Dependencies finished is a precondition:
    /// a step may enter Running only this way.
    pub fn mark_running(&mut self, i: usize)
        requires
            engine_inv(old(self).steps@),
            ready(old(self).steps@, i as int),
        ensures
            engine_inv(final(self).steps@),
            steps_preserved(old(self).steps@, final(self).steps@),
            steps_of(final(self).steps@) == steps_of(old(self).steps@),
            forall|k: int| 0 <= k < old(self).steps@.len() && k != i
                ==> final(self).steps@[k] == old(self).steps@[k],
            final(self).steps@[i as int].status is Running,
            final(self).steps@[i as int].exit_code is None,
            final(self).steps@[i as int].blocked_by is None,
            num_pending(final(self).steps@) == num_pending(old(self).steps@) - 1,
    {
        proof {
            lemma_num_pending_update(self.steps@, i as int, RunnableStep {
                step: self.steps@[i as int].step,
                status: Status::Running,
                exit_code: Option::None,
                blocked_by: Option::None,
            });
        }
        update_entry(&mut self.steps, i, Status::Running, Option::None, Option::None);
        proof {
            self.lemma_transition_inv(old(self).steps@, i as int);
        }
    }

    /// Records the child's exit: zero finishes the step, anything else fails
    /// it. The exit code is kept for the report.
    pub fn record_exit(&mut self, i: usize, code: i32)
        requires
            engine_inv(old(self).steps@),
            i < old(self).steps@.len(),
            old(self).steps@[i as int].status is Running,
        ensures
            engine_inv(final(self).steps@),
            steps_preserved(old(self).steps@, final(self).steps@),
            steps_of(final(self).steps@) == steps_of(old(self).steps@),
            forall|k: int| 0 <= k < old(self).steps@.len() && k != i
                ==> final(self).steps@[k] == old(self).steps@[k],
            final(self).steps@[i as int].status == (if code == 0 { Status::Finished }
                else { Status::Failed }),
            final(self).steps@[i as int].exit_code == Some(code),
            final(self).steps@[i as int].blocked_by is None,
            num_pending(final(self).steps@) == num_pending(old(self).steps@),
    {
        let st = if code == 0 { Status::Finished } else { Status::Failed };
        proof {
            lemma_num_pending_same(self.steps@, i as int, RunnableStep {
                step: self.steps@[i as int].step,
                status: st,
                exit_code: Some(code),
                blocked_by: Option::None,
            });
        }
        update_entry(&mut self.steps, i, st, Option::Some(code), Option::None);
        proof {
            self.lemma_transition_inv(old(self).steps@, i as int);
        }
    }

    /// Records that the spawn itself was refused: the step fails without
    /// ever running, and carries no exit code.
    pub fn record_spawn_failure(&mut self, i: usize)
        requires
            engine_inv(old(self).steps@),
            ready(old(self).steps@, i as int),
        ensures
            engine_inv(final(self).steps@),
            steps_preserved(old(self).steps@, final(self).steps@),
            steps_of(final(self).steps@) == steps_of(old(self).steps@),
            forall|k: int| 0 <= k < old(self).steps@.len() && k != i
                ==> final(self).steps@[k] == old(self).steps@[k],
            final(self).steps@[i as int].status is Failed,
            final(self).steps@[i as int].exit_code is None,
            num_pending(final(self).steps@) == num_pending(old(self).steps@) - 1,
    {
        proof {
            lemma_num_pending_update(self.steps@, i as int, RunnableStep {
                step: self.steps@[i as int].step,
                status: Status::Failed,
                exit_code: Option::None,
                blocked_by: Option::None,
            });
        }
        update_entry(&mut self.steps, i, Status::Failed, Option::None, Option::None);
        proof {
            self.lemma_transition_inv(old(self).steps@, i as int);
        }
    }

    /// Re-establishes the engine invariant after one entry changed status,
    /// provided no Finished status was revoked and the new entry is sound.
    proof fn lemma_transition_inv(&self, prev: Seq<RunnableStep>, i: int)
        requires
            engine_inv(prev),
            self.steps@.len() == prev.len(),
            0 <= i < prev.len(),
            forall|k: int| 0 <= k < prev.len() && k != i ==> self.steps@[k] == prev[k],
            self.steps@[i].step == prev[i].step,
            prev[i].status is Finished ==> self.steps@[i].status is Finished,
            active(self.steps@[i].status) ==> deps_finished(prev, i),
            step_record_ok(self.steps@[i]),
        ensures
            engine_inv(self.steps@),
    {
        let rsn = self.steps@;
        assert(steps_of(rsn) =~= steps_of(prev));
        assert forall|a: int| 0 <= a < rsn.len() && active((#[trigger] rsn[a]).status)
            implies deps_finished(rsn, a) by {
            if a == i {
                lemma_deps_finished_preserved(prev, rsn, a);
            } else {
                assert(active(prev[a].status));
                lemma_deps_finished_preserved(prev, rsn, a);
            }
        }
        assert forall|a: int| 0 <= a < rsn.len() implies step_record_ok(#[trigger] rsn[a]) by {
            if a != i {
                assert(rsn[a] == prev[a]);
            }
        }
    }
}

impl RunnableSteps {
    /// The index of the first dependency of step `i` that has not finished.
    fn first_unsatisfied_dep(&self, i: usize) -> (r: Option<usize>)
        requires
            i < self.steps@.len(),
        ensures
            match r {
                Option::Some(k) => (k as int) < self.steps@[i as int].step.depends@.len()
                    && !dep_satisfied(self.steps@,
                        self.steps@[i as int].step.depends@[k as int].name@),
                Option::None => deps_finished(self.steps@, i as int),
            },
    {
        let step = &self.steps[i].step;
        let mut k: usize = 0;
        while k < step.depends.len()
            invariant
                i < self.steps@.len(),
                step == &self.steps@[i as int].step,
                k <= step.depends@.len(),
                forall|b: int| 0 <= b < k
                    ==> dep_satisfied(self.steps@, (#[trigger] step.depends@[b]).name@),
            decreases step.depends@.len() - k,
        {
            let nm = &step.depends[k].name;
            let mut hit = false;
            let mut j: usize = 0;
            while j < self.steps.len()
                invariant
                    i < self.steps@.len(),
                    k < step.depends@.len(),
                    step == &self.steps@[i as int].step,
                    nm == &step.depends@[k as int].name,
                    j <= self.steps@.len(),
                    hit ==> dep_satisfied(self.steps@, step.depends@[k as int].name@),
                    !hit ==> forall|b: int| 0 <= b < j
                        ==> !((#[trigger] self.steps@[b]).step.name@ == nm@
                            && self.steps@[b].status is Finished),
                decreases self.steps@.len() - j,
            {
                if self.steps[j].step.name == *nm && self.steps[j].status == Status::Finished {
                    hit = true;
                }
                j = j + 1;
            }
            if !hit {
                proof {
                    assert(!dep_satisfied(self.steps@, step.depends@[k as int].name@));
                }
                return Option::Some(k);
            }
            k = k + 1;
        }
        Option::None
    }

    /// Ends the run for the blocked remainder: every still-pending step is
    /// reported Skipped, naming one of its unfinished dependencies. Called
    /// when nothing is ready and nothing runs: exactly then every pending
    /// step is permanently blocked.
    #[verifier::rlimit(100)]
    pub fn mark_skipped(&mut self)
        requires
            engine_inv(old(self).steps@),
            forall|i: int| !ready(old(self).steps@, i),
            forall|i: int| 0 <= i < old(self).steps@.len()
                ==> !((#[trigger] old(self).steps@[i]).status is Running)
                    && !(old(self).steps@[i].status is Skipped),
        ensures
            engine_inv(final(self).steps@),
            blocked_ok(final(self).steps@),
            steps_preserved(old(self).steps@, final(self).steps@),
            steps_of(final(self).steps@) == steps_of(old(self).steps@),
            forall|k: int| 0 <= k < old(self).steps@.len()
                && !((#[trigger] old(self).steps@[k]).status is Pending)
                ==> final(self).steps@[k] == old(self).steps@[k],
            forall|k: int| 0 <= k < old(self).steps@.len()
                && (#[trigger] old(self).steps@[k]).status is Pending
                ==> final(self).steps@[k].status is Skipped,
            forall|k: int| 0 <= k < final(self).steps@.len()
                ==> terminal((#[trigger] final(self).steps@[k]).status),
    {
        let ghost rs0 = old(self).steps@;
        let ghost mut pick: Map<int, int> = Map::empty();
        let n = self.steps.len();
        let mut i: usize = 0;
        while i < n
            invariant
                n == rs0.len(),
                self.steps@.len() == n,
                engine_inv(self.steps@),
                engine_inv(rs0),
                forall|a: int| !ready(rs0, a),
                forall|a: int| 0 <= a < n ==> !((#[trigger] rs0[a]).status is Running)
                    && !(rs0[a].status is Skipped),
                forall|k: int| i <= k < n ==> #[trigger] self.steps@[k] == rs0[k],
                forall|k: int| 0 <= k < i && !((#[trigger] rs0[k]).status is Pending)
                    ==> self.steps@[k] == rs0[k],
                forall|k: int| 0 <= k < i && (#[trigger] rs0[k]).status is Pending
                    ==> self.steps@[k].status is Skipped
                        && self.steps@[k].exit_code is None
                        && self.steps@[k].blocked_by is Some
                        && pick.dom().contains(k)
                        && 0 <= pick[k] < rs0[k].step.depends@.len()
                        && self.steps@[k].blocked_by->Some_0@
                            == rs0[k].step.depends@[pick[k]].name@
                        && !dep_satisfied(rs0, rs0[k].step.depends@[pick[k]].name@),
                forall|k: int| 0 <= k < n
                    ==> ((#[trigger] self.steps@[k]).status is Finished
                        <==> rs0[k].status is Finished),
                forall|k: int| 0 <= k < n ==> (#[trigger] self.steps@[k]).step == rs0[k].step,
            decreases n - i,
        {
            if self.steps[i].status == Status::Pending {
                proof {
                    lemma_deps_finished_equiv(rs0, self.steps@, i as int);
                }
                match self.first_unsatisfied_dep(i) {
                    Option::Some(k) => {
                        proof {
                            lemma_dep_satisfied_equiv(rs0, self.steps@,
                                rs0[i as int].step.depends@[k as int].name@);
                        }
                        let nm = self.steps[i].step.depends[k].name.clone();
                        let ghost prev = self.steps@;
                        update_entry(&mut self.steps, i, Status::Skipped, Option::None,
                            Option::Some(nm));
                        proof {
                            pick = pick.insert(i as int, k as int);
                            self.lemma_transition_inv(prev, i as int);
                        }
                    }
                    Option::None => {
                        proof {
                            assert(deps_finished(rs0, i as int));
                            assert(ready(rs0, i as int));
                            assert(false);
                        }
                    }
                }
            }
            i = i + 1;
        }
        proof {
            lemma_blocked_from_picks(rs0, self.steps@, pick);
        }
    }

    /// Cancels the run: every step that is not yet terminal is marked
    /// Canceled, so a partial report can be returned to the caller.
    pub fn cancel(&mut self)
        requires
            engine_inv(old(self).steps@),
        ensures
            engine_inv(final(self).steps@),
            steps_preserved(old(self).steps@, final(self).steps@),
            steps_of(final(self).steps@) == steps_of(old(self).steps@),
            forall|k: int| 0 <= k < old(self).steps@.len()
                && terminal((#[trigger] old(self).steps@[k]).status)
                ==> final(self).steps@[k] == old(self).steps@[k],
            forall|k: int| 0 <= k < old(self).steps@.len()
                && !terminal((#[trigger] old(self).steps@[k]).status)
                ==> final(self).steps@[k].status is Canceled,
            forall|k: int| 0 <= k < final(self).steps@.len()
                ==> terminal((#[trigger] final(self).steps@[k]).status),
    {
        let ghost rs0 = old(self).steps@;
        let n = self.steps.len();
        let mut i: usize = 0;
        while i < n
            invariant
                n == rs0.len(),
                self.steps@.len() == n,
                engine_inv(self.steps@),
                forall|k: int| i <= k < n ==> #[trigger] self.steps@[k] == rs0[k],
                forall|k: int| 0 <= k < i && terminal((#[trigger] rs0[k]).status)
                    ==> self.steps@[k] == rs0[k],
                forall|k: int| 0 <= k < i && !terminal((#[trigger] rs0[k]).status)
                    ==> self.steps@[k].status is Canceled,
                forall|k: int| 0 <= k < n
                    ==> ((#[trigger] self.steps@[k]).status is Finished
                        <==> rs0[k].status is Finished),
                forall|k: int| 0 <= k < n ==> (#[trigger] self.steps@[k]).step == rs0[k].step,
                forall|k: int| 0 <= k < n
                    ==> status_progresses(rs0[k].status, (#[trigger] self.steps@[k]).status),
            decreases n - i,
        {
            let st = self.steps[i].status;
            if st == Status::Pending || st == Status::Running {
                let ghost prev = self.steps@;
                update_entry(&mut self.steps, i, Status::Canceled, Option::None, Option::None);
                proof {
                    self.lemma_transition_inv(prev, i as int);
                }
            }
            i = i + 1;
        }
    }

    /// The terminal report: one record per step, in step order.
    pub fn report(&self) -> (r: Vec<StepResult>)
        ensures
            r@.len() == self.steps@.len(),
            forall|i: int| 0 <= i < self.steps@.len() ==> {
                &&& (#[trigger] r@[i]).name@ == self.steps@[i].step.name@
                &&& r@[i].status == self.steps@[i].status
                &&& r@[i].exit_code == self.steps@[i].exit_code
                &&& (r@[i].blocked_by is Some <==> self.steps@[i].blocked_by is Some)
                &&& (r@[i].blocked_by is Some
                    ==> r@[i].blocked_by->Some_0@ == self.steps@[i].blocked_by->Some_0@)
            },
    {
        let mut out: Vec<StepResult> = Vec::new();
        let mut i: usize = 0;
        while i < self.steps.len()
            invariant
                i <= self.steps@.len(),
                out@.len() == i,
                forall|j: int| 0 <= j < i ==> {
                    &&& (#[trigger] out@[j]).name@ == self.steps@[j].step.name@
                    &&& out@[j].status == self.steps@[j].status
                    &&& out@[j].exit_code == self.steps@[j].exit_code
                    &&& (out@[j].blocked_by is Some <==> self.steps@[j].blocked_by is Some)
                    &&& (out@[j].blocked_by is Some
                        ==> out@[j].blocked_by->Some_0@ == self.steps@[j].blocked_by->Some_0@)
                },
            decreases self.steps@.len() - i,
        {
            let s = &self.steps[i];
            let blocked = match &s.blocked_by {
                Option::Some(b) => Option::Some(b.clone()),
                Option::None => Option::None,
            };
            out.push(StepResult {
                name: s.step.name.clone(),
                status: s.status,
                exit_code: s.exit_code,
                blocked_by: blocked,
            });
            i = i + 1;
        }
        out
    }

    /// Whether every step finished successfully.
    pub fn all_finished(&self) -> (r: bool)
        ensures
            r == forall|i: int| 0 <= i < self.steps@.len()
                ==> (#[trigger] self.steps@[i]).status is Finished,
    {
        let mut i: usize = 0;
        while i < self.steps.len()
            invariant
                i <= self.steps@.len(),
                forall|j: int| 0 <= j < i ==> (#[trigger] self.steps@[j]).status is Finished,
            decreases self.steps@.len() - i,
        {
            if !(self.steps[i].status == Status::Finished) {
                return false;
            }
            i = i + 1;
        }
        true
    }

    /// Whether every step has reached a terminal status.
    pub fn is_complete(&self) -> (r: bool)
        ensures
            r == forall|i: int| 0 <= i < self.steps@.len()
                ==> terminal((#[trigger] self.steps@[i]).status),
    {
        let mut i: usize = 0;
        while i < self.steps.len()
            invariant
                i <= self.steps@.len(),
                forall|j: int| 0 <= j < i ==> terminal((#[trigger] self.steps@[j]).status),
            decreases self.steps@.len() - i,
        {
            let s = self.steps[i].status;
            if s == Status::Pending || s == Status::Running {
                return false;
            }
            i = i + 1;
        }
        true
    }
}

/// A named dependency is satisfied in one state exactly when it is in
/// another with the same steps and finished set.
proof fn lemma_dep_satisfied_equiv(a: Seq<RunnableStep>, b: Seq<RunnableStep>, nm: Seq<char>)
    requires
        a.len() == b.len(),
        forall|j: int| 0 <= j < a.len() ==> (#[trigger] b[j]).step == a[j].step,
        forall|j: int| 0 <= j < a.len()
            ==> ((#[trigger] a[j]).status is Finished <==> b[j].status is Finished),
    ensures
        dep_satisfied(a, nm) == dep_satisfied(b, nm),
{
    if dep_satisfied(a, nm) {
        let j = choose|j: int| 0 <= j < a.len() && (#[trigger] a[j]).step.name@ == nm
            && a[j].status is Finished;
        assert(0 <= j < b.len() && b[j].step.name@ == nm && b[j].status is Finished);
    }
    if dep_satisfied(b, nm) {
        let j = choose|j: int| 0 <= j < b.len() && (#[trigger] b[j]).step.name@ == nm
            && b[j].status is Finished;
        assert(0 <= j < a.len() && a[j].step.name@ == nm && a[j].status is Finished);
    }
}

/// Once the scan is done, the recorded picks witness that every skipped step
/// names a dependency whose step did not finish.
#[verifier::rlimit(100)]
proof fn lemma_blocked_from_picks(rs0: Seq<RunnableStep>, cur: Seq<RunnableStep>,
    pick: Map<int, int>)
    requires
        cur.len() == rs0.len(),
        deps_closed(steps_of(rs0)),
        forall|j: int| 0 <= j < rs0.len() ==> (#[trigger] cur[j]).step == rs0[j].step,
        forall|j: int| 0 <= j < rs0.len()
            ==> ((#[trigger] cur[j]).status is Finished <==> rs0[j].status is Finished),
        forall|k: int| 0 <= k < cur.len() && (#[trigger] cur[k]).status is Skipped
            ==> cur[k].blocked_by is Some
                && pick.dom().contains(k)
                && 0 <= pick[k] < rs0[k].step.depends@.len()
                && cur[k].blocked_by->Some_0@ == rs0[k].step.depends@[pick[k]].name@
                && !dep_satisfied(rs0, rs0[k].step.depends@[pick[k]].name@),
    ensures
        blocked_ok(cur),
{
    assert forall|a: int| 0 <= a < cur.len() && (#[trigger] cur[a]).status is Skipped
        implies {
        let nm = cur[a].blocked_by->Some_0@;
        &&& exists|kk: int| 0 <= kk < cur[a].step.depends@.len()
            && (#[trigger] cur[a].step.depends@[kk]).name@ == nm
        &&& exists|j: int| 0 <= j < cur.len() && (#[trigger] cur[j]).step.name@ == nm
            && !(cur[j].status is Finished)
    } by {
        let nm = cur[a].blocked_by->Some_0@;
        let kk = pick[a];
        assert(cur[a].step == rs0[a].step);
        assert(0 <= kk < cur[a].step.depends@.len()
            && cur[a].step.depends@[kk].name@ == nm);
        assert(deps_among(steps_of(rs0)[a], step_names(steps_of(rs0))));
        assert(contains_name(step_names(steps_of(rs0)), nm));
        let j = choose|j: int| 0 <= j < step_names(steps_of(rs0)).len()
            && step_names(steps_of(rs0))[j] == nm;
        assert(rs0[j].step.name@ == nm);
        assert(!(rs0[j].status is Finished));
        assert(0 <= j < cur.len() && cur[j].step.name@ == nm
            && !(cur[j].status is Finished));
    }
}

impl RunnableSteps {
    /// Runs the whole step set to completion against a fixed table of exit
    /// codes, one per step: repeatedly starts every ready step and records
    /// its exit, then reports the blocked remainder as Skipped. This is the
    /// engine's scheduling policy; a live runner drives the same transitions
    /// with real child processes.
    pub fn run(&mut self, exit_codes: &Vec<i32>)
        requires
            engine_inv(old(self).steps@),
            exit_codes@.len() == old(self).steps@.len(),
            forall|i: int| 0 <= i < old(self).steps@.len()
                ==> (#[trigger] old(self).steps@[i]).status is Pending,
        ensures
            engine_inv(final(self).steps@),
            blocked_ok(final(self).steps@),
            steps_of(final(self).steps@) == steps_of(old(self).steps@),
            final(self).steps@.len() == old(self).steps@.len(),
            forall|i: int| 0 <= i < final(self).steps@.len()
                ==> terminal((#[trigger] final(self).steps@[i]).status)
                    && !(final(self).steps@[i].status is Canceled),
            forall|i: int| 0 <= i < final(self).steps@.len()
                && (#[trigger] final(self).steps@[i]).status is Finished
                ==> exit_codes@[i] == 0
                    && final(self).steps@[i].exit_code == Some(exit_codes@[i]),
            forall|i: int| 0 <= i < final(self).steps@.len()
                && (#[trigger] final(self).steps@[i]).status is Failed
                ==> exit_codes@[i] != 0
                    && final(self).steps@[i].exit_code == Some(exit_codes@[i]),
    {
        let ghost rs0 = old(self).steps@;
        let n = self.steps.len();
        loop
            invariant
                n == rs0.len(),
                self.steps@.len() == n,
                exit_codes@.len() == n,
                engine_inv(self.steps@),
                steps_of(self.steps@) == steps_of(rs0),
                forall|i: int| 0 <= i < n
                    ==> !((#[trigger] self.steps@[i]).status is Running)
                        && !(self.steps@[i].status is Skipped)
                        && !(self.steps@[i].status is Canceled),
                forall|i: int| 0 <= i < n
                    && (#[trigger] self.steps@[i]).status is Finished
                    ==> exit_codes@[i] == 0
                        && self.steps@[i].exit_code == Some(exit_codes@[i]),
                forall|i: int| 0 <= i < n
                    && (#[trigger] self.steps@[i]).status is Failed
                    ==> exit_codes@[i] != 0
                        && self.steps@[i].exit_code == Some(exit_codes@[i]),
            ensures
                self.steps@.len() == n,
                engine_inv(self.steps@),
                steps_of(self.steps@) == steps_of(rs0),
                forall|a: int| !ready(self.steps@, a),
                forall|i: int| 0 <= i < n
                    ==> !((#[trigger] self.steps@[i]).status is Running)
                        && !(self.steps@[i].status is Skipped)
                        && !(self.steps@[i].status is Canceled),
                forall|i: int| 0 <= i < n
                    && (#[trigger] self.steps@[i]).status is Finished
                    ==> exit_codes@[i] == 0
                        && self.steps@[i].exit_code == Some(exit_codes@[i]),
                forall|i: int| 0 <= i < n
                    && (#[trigger] self.steps@[i]).status is Failed
                    ==> exit_codes@[i] != 0
                        && self.steps@[i].exit_code == Some(exit_codes@[i]),
            decreases num_pending(self.steps@),
        {
            let rd = self.unblocked_steps();
            if rd.len() == 0 {
                proof {
                    assert forall|a: int| !ready(self.steps@, a) by {
                        if 0 <= a < self.steps@.len() && ready(self.steps@, a) {
                            assert(contains_index(rd@, a));
                        }
                    }
                }
                break;
            }
            let ghost pend0 = num_pending(self.steps@);
            let mut p: usize = 0;
            while p < rd.len()
                invariant
                    n == rs0.len(),
                    self.steps@.len() == n,
                    exit_codes@.len() == n,
                    engine_inv(self.steps@),
                    steps_of(self.steps@) == steps_of(rs0),
                    p <= rd@.len(),
                    forall|q: int| 0 <= q < rd@.len() ==> #[trigger] rd@[q] < n,
                    forall|q: int, q2: int| 0 <= q < q2 < rd@.len() ==> rd@[q] < rd@[q2],
                    forall|q: int| p <= q < rd@.len()
                        ==> ready(self.steps@, #[trigger] rd@[q] as int),
                    num_pending(self.steps@) == pend0 - p,
                    forall|i: int| 0 <= i < n
                        ==> !((#[trigger] self.steps@[i]).status is Running)
                            && !(self.steps@[i].status is Skipped)
                            && !(self.steps@[i].status is Canceled),
                    forall|i: int| 0 <= i < n
                        && (#[trigger] self.steps@[i]).status is Finished
                        ==> exit_codes@[i] == 0
                            && self.steps@[i].exit_code == Some(exit_codes@[i]),
                    forall|i: int| 0 <= i < n
                        && (#[trigger] self.steps@[i]).status is Failed
                        ==> exit_codes@[i] != 0
                            && self.steps@[i].exit_code == Some(exit_codes@[i]),
                decreases rd@.len() - p,
            {
                let i = rd[p];
                let ghost before = self.steps@;
                self.mark_running(i);
                self.record_exit(i, exit_codes[i]);
                proof {
                    assert forall|q: int| p + 1 <= q < rd@.len()
                        implies ready(self.steps@, #[trigger] rd@[q] as int) by {
                        let a = rd@[q] as int;
                        assert(a != i as int);
                        assert(self.steps@[a] == before[a]);
                        lemma_deps_finished_preserved(before, self.steps@, a);
                    }
                }
                p = p + 1;
            }
            proof {
                assert(rd@.len() >= 1);
            }
        }
        self.mark_skipped();
    }
}

/// Topological respect: a step that has entered execution has every
/// dependency Finished; in particular, along any edge the dependency
/// finished before its dependent started.
pub proof fn lemma_topological_respect(rs: Seq<RunnableStep>, i: int, j: int)
    requires
        engine_inv(rs),
        dep_edge(steps_of(rs), i, j),
        active(rs[i].status),
    ensures
        rs[j].status is Finished,
{
    let k = choose|k: int| 0 <= k < steps_of(rs)[i].depends@.len()
        && (#[trigger] steps_of(rs)[i].depends@[k]).name@ == steps_of(rs)[j].name@;
    assert(deps_finished(rs, i));
    assert(rs[i].step.depends@[k] == steps_of(rs)[i].depends@[k]);
    assert(dep_satisfied(rs, rs[i].step.depends@[k].name@));
    let jj = choose|jj: int| 0 <= jj < rs.len() && (#[trigger] rs[jj]).step.name@
        == rs[i].step.depends@[k].name@ && rs[jj].status is Finished;
    assert(steps_of(rs)[jj].name@ == steps_of(rs)[j].name@);
    lemma_unique_name_index(steps_of(rs), jj, j);
}

/// The fan-out/join scheduling shape: one fan-out step, two middle steps
/// that each depend on it, and a join that depends on both middles.
pub open spec fn diamond_shape(rs: Seq<RunnableStep>) -> bool {
    &&& rs.len() == 4
    &&& rs[0].step.depends@.len() == 0
    &&& rs[1].step.depends@.len() == 1 && rs[1].step.depends@[0].name@ == rs[0].step.name@
    &&& rs[2].step.depends@.len() == 1 && rs[2].step.depends@[0].name@ == rs[0].step.name@
    &&& rs[3].step.depends@.len() == 2 && rs[3].step.depends@[0].name@ == rs[1].step.name@
        && rs[3].step.depends@[1].name@ == rs[2].step.name@
}

/// Staged readiness of the fan-out/join shape: first the fan-out alone is
/// ready; once it finished, exactly the two middle steps are ready together;
/// the join is not ready while either middle has not finished, and becomes
/// ready once both have.
pub proof fn lemma_diamond_readiness(rs: Seq<RunnableStep>)
    requires
        engine_inv(rs),
        diamond_shape(rs),
    ensures
        (forall|i: int| 0 <= i < 4 ==> (#[trigger] rs[i]).status is Pending)
            ==> ready(rs, 0) && !ready(rs, 1) && !ready(rs, 2) && !ready(rs, 3),
        rs[0].status is Finished && rs[1].status is Pending && rs[2].status is Pending
            ==> ready(rs, 1) && ready(rs, 2),
        rs[3].status is Pending && !(rs[1].status is Finished) ==> !ready(rs, 3),
        rs[3].status is Pending && !(rs[2].status is Finished) ==> !ready(rs, 3),
        rs[0].status is Finished && rs[1].status is Finished && rs[2].status is Finished
            && rs[3].status is Pending ==> ready(rs, 3),
{
    if forall|i: int| 0 <= i < 4 ==> (#[trigger] rs[i]).status is Pending {
        assert(deps_finished(rs, 0));
        assert(!dep_satisfied(rs, rs[1].step.depends@[0].name@));
        assert(!deps_finished(rs, 1));
        assert(!dep_satisfied(rs, rs[2].step.depends@[0].name@));
        assert(!deps_finished(rs, 2));
        assert(!dep_satisfied(rs, rs[3].step.depends@[0].name@));
        assert(!deps_finished(rs, 3));
    }
    if rs[0].status is Finished && rs[1].status is Pending && rs[2].status is Pending {
        assert forall|k: int| 0 <= k < rs[1].step.depends@.len()
            implies dep_satisfied(rs, (#[trigger] rs[1].step.depends@[k]).name@) by {
            assert(0 <= 0 < rs.len() && rs[0].step.name@ == rs[1].step.depends@[k].name@
                && rs[0].status is Finished);
        }
        assert forall|k: int| 0 <= k < rs[2].step.depends@.len()
            implies dep_satisfied(rs, (#[trigger] rs[2].step.depends@[k]).name@) by {
            assert(0 <= 0 < rs.len() && rs[0].step.name@ == rs[2].step.depends@[k].name@
                && rs[0].status is Finished);
        }
    }
    if rs[3].status is Pending && !(rs[1].status is Finished) {
        if dep_satisfied(rs, rs[3].step.depends@[0].name@) {
            let j = choose|j: int| 0 <= j < rs.len()
                && (#[trigger] rs[j]).step.name@ == rs[3].step.depends@[0].name@
                && rs[j].status is Finished;
            assert(steps_of(rs)[j].name@ == steps_of(rs)[1].name@);
            lemma_unique_name_index(steps_of(rs), j, 1);
            assert(false);
        }
        assert(!deps_finished(rs, 3));
    }
    if rs[3].status is Pending && !(rs[2].status is Finished) {
        if dep_satisfied(rs, rs[3].step.depends@[1].name@) {
            let j = choose|j: int| 0 <= j < rs.len()
                && (#[trigger] rs[j]).step.name@ == rs[3].step.depends@[1].name@
                && rs[j].status is Finished;
            assert(steps_of(rs)[j].name@ == steps_of(rs)[2].name@);
            lemma_unique_name_index(steps_of(rs), j, 2);
            assert(false);
        }
        assert(!deps_finished(rs, 3));
    }
    if rs[0].status is Finished && rs[1].status is Finished && rs[2].status is Finished
        && rs[3].status is Pending {
        assert forall|k: int| 0 <= k < rs[3].step.depends@.len()
            implies dep_satisfied(rs, (#[trigger] rs[3].step.depends@[k]).name@) by {
            if k == 0 {
                assert(0 <= 1 < rs.len()
                    && rs[1].step.name@ == rs[3].step.depends@[k].name@
                    && rs[1].status is Finished);
            } else {
                assert(0 <= 2 < rs.len()
                    && rs[2].step.name@ == rs[3].step.depends@[k].name@
                    && rs[2].status is Finished);
            }
        }
    }
}

/// Step `i` depends, through at most `n` intermediate edges, on step `f`.
pub open spec fn reaches(rs: Seq<RunnableStep>, i: int, f: int, n: nat) -> bool
    decreases n,
{
    dep_edge(steps_of(rs), i, f)
    || (n > 0 && exists|m: int| dep_edge(steps_of(rs), i, m)
        && reaches(rs, m, f, (n - 1) as nat))
}

/// Failure containment: once every step is terminal and none was canceled,
/// every transitive dependent of a failed step is Skipped — never Finished.
pub proof fn lemma_failure_containment(rs: Seq<RunnableStep>, b: int, f: int, n: nat)
    requires
        engine_inv(rs),
        forall|i: int| 0 <= i < rs.len() ==> terminal((#[trigger] rs[i]).status),
        forall|i: int| 0 <= i < rs.len() ==> !((#[trigger] rs[i]).status is Canceled),
        0 <= f < rs.len(),
        rs[f].status is Failed,
        0 <= b < rs.len(),
        reaches(rs, b, f, n),
    ensures
        rs[b].status is Skipped,
    decreases n,
{
    if dep_edge(steps_of(rs), b, f) {
        if active(rs[b].status) {
            lemma_topological_respect(rs, b, f);
            assert(false);
        }
    } else {
        let m = choose|m: int| dep_edge(steps_of(rs), b, m) && reaches(rs, m, f, (n - 1) as nat);
        assert(0 <= m < rs.len());
        lemma_failure_containment(rs, m, f, (n - 1) as nat);
        if active(rs[b].status) {
            lemma_topological_respect(rs, b, m);
            assert(false);
        }
    }
}

/// With the same steps and the same finished set, readiness agrees.
proof fn lemma_deps_finished_equiv(a: Seq<RunnableStep>, b: Seq<RunnableStep>, i: int)
    requires
        a.len() == b.len(),
        forall|j: int| 0 <= j < a.len() ==> (#[trigger] b[j]).step == a[j].step,
        forall|j: int| 0 <= j < a.len()
            ==> ((#[trigger] a[j]).status is Finished <==> b[j].status is Finished),
        0 <= i < a.len(),
    ensures
        deps_finished(a, i) == deps_finished(b, i),
{
    if deps_finished(a, i) {
        lemma_deps_finished_preserved(a, b, i);
    }
    if deps_finished(b, i) {
        lemma_deps_finished_preserved(b, a, i);
    }
}

proof fn lemma_num_pending_same(rs: Seq<RunnableStep>, i: int, r: RunnableStep)
    requires
        0 <= i < rs.len(),
        !(rs[i].status is Pending),
        !(r.status is Pending),
    ensures
        num_pending(rs.update(i, r)) == num_pending(rs),
    decreases rs.len(),
{
    if i == rs.len() - 1 {
        assert(rs.update(i, r).drop_last() =~= rs.drop_last());
    } else {
        lemma_num_pending_same(rs.drop_last(), i, r);
        assert(rs.update(i, r).drop_last() =~= rs.drop_last().update(i, r));
        assert(rs.update(i, r).last() == rs.last());
    }
}

} // verus!
