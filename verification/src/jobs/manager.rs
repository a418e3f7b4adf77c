//! The table of running jobs: at most one job per user, a global cap on
//! concurrent jobs, cancellation, and the snapshots shown to the console.
//! Job ids, start times and cancellation tokens come from the caller.
use vstd::prelude::*;

use crate::jobs::runner::{zero_counters, JobCounters};

verus! {

#[derive(Clone, Copy, Debug, PartialEq, Eq, Structural)]
pub enum JobKind {
    Search,
    Batch,
}

#[derive(Clone, Copy, Debug, PartialEq, Eq, Structural)]
pub enum JobStatus {
    Queued,
    Running,
    Cancelling,
    Completed,
    Failed,
    Cancelled,
}

/// What the console shows of a job. `id` is the job's UUID as a number and
/// `started_at` its start time in Unix milliseconds.
#[derive(Clone, Copy, Debug, PartialEq, Eq, Structural)]
pub struct JobSnapshot {
    pub id: u128,
    pub user_id: u64,
    pub kind: JobKind,
    pub status: JobStatus,
    pub started_at: u64,
    pub counters: JobCounters,
}

#[derive(Clone, Copy, Debug, PartialEq, Eq, Structural)]
pub enum JobStartError {
    /// The user already has a job.
    UserBusy,
    /// Every job slot is taken.
    GloballyBusy,
}

impl JobStartError {
    /// The message shown for the error.
    pub fn message(&self) -> (s: &'static str)
        ensures
            s@ == match self {
                JobStartError::UserBusy => "你已有一个运行中的任务"@,
                JobStartError::GloballyBusy => "服务当前正忙，请稍后重试"@,
            },
    {
        match self {
            JobStartError::UserBusy => "你已有一个运行中的任务",
            JobStartError::GloballyBusy => "服务当前正忙，请稍后重试",
        }
    }
}

pub open spec fn is_terminal(s: JobStatus) -> bool {
    s == JobStatus::Completed || s == JobStatus::Failed || s == JobStatus::Cancelled
}

/// The position of the user's job, if the user has one.
pub open spec fn user_slot(jobs: Seq<JobSnapshot>, user_id: u64) -> Option<int> {
    if exists|i: int| 0 <= i < jobs.len() && #[trigger] jobs[i].user_id == user_id {
        Some(choose|i: int| 0 <= i < jobs.len() && #[trigger] jobs[i].user_id == user_id)
    } else {
        None
    }
}

/// The position of the first job with this id.
pub open spec fn id_slot(jobs: Seq<JobSnapshot>, id: u128, from: int) -> Option<int>
    decreases jobs.len() - from,
{
    if from < 0 || from >= jobs.len() {
        None
    } else if jobs[from].id == id {
        Some(from)
    } else {
        id_slot(jobs, id, from + 1)
    }
}

/// No user holds two jobs, and no more jobs run than there are slots.
pub open spec fn table_wf(jobs: Seq<JobSnapshot>, max_concurrent: usize) -> bool {
    &&& jobs.len() <= max_concurrent
    &&& forall|i: int, j: int|
        0 <= i < jobs.len() && 0 <= j < jobs.len() && i != j ==> #[trigger] jobs[i].user_id
            != #[trigger] jobs[j].user_id
}

/// The jobs that currently hold a slot, keyed by user.
pub struct JobTable {
    max_concurrent: usize,
    jobs: Vec<JobSnapshot>,
}

pub proof fn lemma_user_slot(jobs: Seq<JobSnapshot>, user_id: u64, i: int)
    requires
        0 <= i < jobs.len(),
        jobs[i].user_id == user_id,
        forall|a: int, b: int|
            0 <= a < jobs.len() && 0 <= b < jobs.len() && a != b ==> #[trigger] jobs[a].user_id
                != #[trigger] jobs[b].user_id,
    ensures
        user_slot(jobs, user_id) == Some(i),
{
    let k = choose|k: int| 0 <= k < jobs.len() && #[trigger] jobs[k].user_id == user_id;
    assert(jobs[k].user_id == user_id);
    if k != i {
        assert(jobs[k].user_id != jobs[i].user_id);
    }
}

impl JobTable {
    pub closed spec fn jobs(&self) -> Seq<JobSnapshot> {
        self.jobs@
    }

    pub closed spec fn max_concurrent(&self) -> usize {
        self.max_concurrent
    }

    pub open spec fn wf(&self) -> bool {
        table_wf(self.jobs(), self.max_concurrent())
    }

    pub fn new(max_concurrent_jobs: usize) -> (t: JobTable)
        ensures
            t.wf(),
            t.jobs() == Seq::<JobSnapshot>::empty(),
            t.max_concurrent() == max_concurrent_jobs,
    {
        JobTable { max_concurrent: max_concurrent_jobs, jobs: Vec::new() }
    }

    fn find_user(&self, user_id: u64) -> (r: Option<usize>)
        requires
            self.wf(),
        ensures
            match r {
                Some(i) => user_slot(self.jobs(), user_id) == Some(i as int) && i < self.jobs().len(),
                None => user_slot(self.jobs(), user_id) is None,
            },
    {
        let mut i: usize = 0;
        while i < self.jobs.len()
            invariant
                i <= self.jobs@.len(),
                self.wf(),
                forall|k: int| 0 <= k < i ==> #[trigger] self.jobs@[k].user_id != user_id,
            decreases self.jobs@.len() - i,
        {
            if self.jobs[i].user_id == user_id {
                proof {
                    lemma_user_slot(self.jobs@, user_id, i as int);
                }
                return Some(i);
            }
            i += 1;
        }
        None
    }

    fn find_id(&self, id: u128) -> (r: Option<usize>)
        ensures
            match r {
                Some(i) => id_slot(self.jobs(), id, 0) == Some(i as int) && i < self.jobs().len(),
                None => id_slot(self.jobs(), id, 0) is None,
            },
    {
        let mut i: usize = 0;
        while i < self.jobs.len()
            invariant
                i <= self.jobs@.len(),
                id_slot(self.jobs@, id, 0) == id_slot(self.jobs@, id, i as int),
            decreases self.jobs@.len() - i,
        {
            if self.jobs[i].id == id {
                return Some(i);
            }
            i += 1;
        }
        None
    }

    /// Starts a job for a user: refused while the user has a job, then
    /// while every slot is taken. A started job is queued with zero
    /// counters.
    pub fn try_start(&mut self, user_id: u64, kind: JobKind, id: u128, started_at: u64) -> (r: Result<
        JobSnapshot,
        JobStartError,
    >)
        requires
            old(self).wf(),
        ensures
            final(self).wf(),
            final(self).max_concurrent() == old(self).max_concurrent(),
            user_slot(old(self).jobs(), user_id) is Some ==> r == Err::<JobSnapshot, JobStartError>(
                JobStartError::UserBusy,
            ) && final(self).jobs() == old(self).jobs(),
            user_slot(old(self).jobs(), user_id) is None && old(self).jobs().len()
                >= old(self).max_concurrent() ==> r == Err::<JobSnapshot, JobStartError>(
                JobStartError::GloballyBusy,
            ) && final(self).jobs() == old(self).jobs(),
            user_slot(old(self).jobs(), user_id) is None && old(self).jobs().len() < old(
                self,
            ).max_concurrent() ==> {
                let s = JobSnapshot {
                    id,
                    user_id,
                    kind,
                    status: JobStatus::Queued,
                    started_at,
                    counters: zero_counters(),
                };
                r == Ok::<JobSnapshot, JobStartError>(s) && final(self).jobs() == old(
                    self,
                ).jobs().push(s)
            },
    {
        match self.find_user(user_id) {
            Some(_) => return Err(JobStartError::UserBusy),
            None => {},
        }
        if self.jobs.len() >= self.max_concurrent {
            return Err(JobStartError::GloballyBusy);
        }
        let s = JobSnapshot {
            id,
            user_id,
            kind,
            status: JobStatus::Queued,
            started_at,
            counters: JobCounters::new(),
        };
        let ghost before = self.jobs@;
        self.jobs.push(s);
        assert forall|i: int, j: int|
            0 <= i < self.jobs@.len() && 0 <= j < self.jobs@.len() && i != j implies #[trigger] self.jobs@[i].user_id
            != #[trigger] self.jobs@[j].user_id by {
            if i < before.len() && j < before.len() {
                assert(before[i].user_id != before[j].user_id);
            } else if i < before.len() {
                assert(before[i].user_id != user_id);
            } else if j < before.len() {
                assert(before[j].user_id != user_id);
            }
        }
        Ok(s)
    }

    /// The snapshot of the user's job.
    pub fn snapshot(&self, user_id: u64) -> (r: Option<JobSnapshot>)
        requires
            self.wf(),
        ensures
            r == match user_slot(self.jobs(), user_id) {
                Some(i) => Some(self.jobs()[i]),
                None => None::<JobSnapshot>,
            },
    {
        match self.find_user(user_id) {
            Some(i) => Some(self.jobs[i]),
            None => None,
        }
    }

    /// The snapshot of the first job with this id.
    pub fn snapshot_by_id(&self, id: u128) -> (r: Option<JobSnapshot>)
        ensures
            r == match id_slot(self.jobs(), id, 0) {
                Some(i) => Some(self.jobs()[i]),
                None => None::<JobSnapshot>,
            },
    {
        match self.find_id(id) {
            Some(i) => Some(self.jobs[i]),
            None => None,
        }
    }

    fn cancel_at(&mut self, i: usize) -> (b: bool)
        requires
            old(self).wf(),
            i < old(self).jobs().len(),
        ensures
            final(self).wf(),
            final(self).max_concurrent() == old(self).max_concurrent(),
            b == !is_terminal(old(self).jobs()[i as int].status),
            b ==> final(self).jobs() == old(self).jobs().update(
                i as int,
                JobSnapshot { status: JobStatus::Cancelling, ..old(self).jobs()[i as int] },
            ),
            !b ==> final(self).jobs() == old(self).jobs(),
    {
        let s = self.jobs[i];
        match s.status {
            JobStatus::Completed | JobStatus::Failed | JobStatus::Cancelled => false,
            _ => {
                let ghost before = self.jobs@;
                self.jobs.set(i, JobSnapshot { status: JobStatus::Cancelling, ..s });
                assert forall|a: int, b: int|
                    0 <= a < self.jobs@.len() && 0 <= b < self.jobs@.len() && a != b implies #[trigger] self.jobs@[a].user_id
                    != #[trigger] self.jobs@[b].user_id by {
                    assert(before[a].user_id != before[b].user_id);
                }
                true
            },
        }
    }

    /// Asks the user's job to stop. A finished job cannot be cancelled. On
    /// `true` the caller fires the job's cancellation token.
    pub fn cancel(&mut self, user_id: u64) -> (b: bool)
        requires
            old(self).wf(),
        ensures
            final(self).wf(),
            final(self).max_concurrent() == old(self).max_concurrent(),
            match user_slot(old(self).jobs(), user_id) {
                None => !b && final(self).jobs() == old(self).jobs(),
                Some(i) => if is_terminal(old(self).jobs()[i].status) {
                    !b && final(self).jobs() == old(self).jobs()
                } else {
                    b && final(self).jobs() == old(self).jobs().update(
                        i,
                        JobSnapshot { status: JobStatus::Cancelling, ..old(self).jobs()[i] },
                    )
                },
            },
    {
        match self.find_user(user_id) {
            Some(i) => self.cancel_at(i),
            None => false,
        }
    }

    /// Asks the first job with this id to stop (see `cancel`).
    pub fn cancel_by_id(&mut self, id: u128) -> (b: bool)
        requires
            old(self).wf(),
        ensures
            final(self).wf(),
            final(self).max_concurrent() == old(self).max_concurrent(),
            match id_slot(old(self).jobs(), id, 0) {
                None => !b && final(self).jobs() == old(self).jobs(),
                Some(i) => if is_terminal(old(self).jobs()[i].status) {
                    !b && final(self).jobs() == old(self).jobs()
                } else {
                    b && final(self).jobs() == old(self).jobs().update(
                        i,
                        JobSnapshot { status: JobStatus::Cancelling, ..old(self).jobs()[i] },
                    )
                },
            },
    {
        proof {
            lemma_id_slot(self.jobs@, id, 0);
        }
        match self.find_id(id) {
            Some(i) => self.cancel_at(i),
            None => false,
        }
    }

    fn lease_slot(&self, user_id: u64, id: u128) -> (r: Option<usize>)
        requires
            self.wf(),
        ensures
            match r {
                Some(i) => lease_slot_of(self.jobs(), user_id, id) == Some(i as int) && i
                    < self.jobs().len(),
                None => lease_slot_of(self.jobs(), user_id, id) is None,
            },
    {
        match self.find_user(user_id) {
            Some(i) => if self.jobs[i].id == id {
                Some(i)
            } else {
                None
            },
            None => None,
        }
    }

    /// Sets the status of the job a lease holds.
    pub fn set_status(&mut self, user_id: u64, id: u128, status: JobStatus)
        requires
            old(self).wf(),
        ensures
            final(self).wf(),
            final(self).max_concurrent() == old(self).max_concurrent(),
            final(self).jobs() == match lease_slot_of(old(self).jobs(), user_id, id) {
                Some(i) => old(self).jobs().update(
                    i,
                    JobSnapshot { status, ..old(self).jobs()[i] },
                ),
                None => old(self).jobs(),
            },
    {
        match self.lease_slot(user_id, id) {
            Some(i) => {
                let s = self.jobs[i];
                let ghost before = self.jobs@;
                self.jobs.set(i, JobSnapshot { status, ..s });
                assert forall|a: int, b: int|
                    0 <= a < self.jobs@.len() && 0 <= b < self.jobs@.len() && a != b implies #[trigger] self.jobs@[a].user_id
                    != #[trigger] self.jobs@[b].user_id by {
                    assert(before[a].user_id != before[b].user_id);
                }
            },
            None => {},
        }
    }

    /// Replaces the counters of the job a lease holds.
    pub fn set_counters(&mut self, user_id: u64, id: u128, counters: JobCounters)
        requires
            old(self).wf(),
        ensures
            final(self).wf(),
            final(self).max_concurrent() == old(self).max_concurrent(),
            final(self).jobs() == match lease_slot_of(old(self).jobs(), user_id, id) {
                Some(i) => old(self).jobs().update(
                    i,
                    JobSnapshot { counters, ..old(self).jobs()[i] },
                ),
                None => old(self).jobs(),
            },
    {
        match self.lease_slot(user_id, id) {
            Some(i) => {
                let s = self.jobs[i];
                let ghost before = self.jobs@;
                self.jobs.set(i, JobSnapshot { counters, ..s });
                assert forall|a: int, b: int|
                    0 <= a < self.jobs@.len() && 0 <= b < self.jobs@.len() && a != b implies #[trigger] self.jobs@[a].user_id
                    != #[trigger] self.jobs@[b].user_id by {
                    assert(before[a].user_id != before[b].user_id);
                }
            },
            None => {},
        }
    }

    /// Frees the slot of a lease: its job leaves the table, unless the
    /// user's entry already belongs to another job.
    pub fn release(&mut self, user_id: u64, id: u128)
        requires
            old(self).wf(),
        ensures
            final(self).wf(),
            final(self).max_concurrent() == old(self).max_concurrent(),
            final(self).jobs() == match lease_slot_of(old(self).jobs(), user_id, id) {
                Some(i) => old(self).jobs().remove(i),
                None => old(self).jobs(),
            },
    {
        match self.lease_slot(user_id, id) {
            Some(i) => {
                let ghost before = self.jobs@;
                self.jobs.remove(i);
                assert(self.jobs@ =~= before.remove(i as int));
                assert forall|a: int, b: int|
                    0 <= a < self.jobs@.len() && 0 <= b < self.jobs@.len() && a != b implies #[trigger] self.jobs@[a].user_id
                    != #[trigger] self.jobs@[b].user_id by {
                    let a2 = if a < i {
                        a
                    } else {
                        a + 1
                    };
                    let b2 = if b < i {
                        b
                    } else {
                        b + 1
                    };
                    assert(self.jobs@[a] == before[a2]);
                    assert(self.jobs@[b] == before[b2]);
                    assert(before[a2].user_id != before[b2].user_id);
                }
            },
            None => {},
        }
    }
}

/// The position of the user's job when it is the job with this id.
pub open spec fn lease_slot_of(jobs: Seq<JobSnapshot>, user_id: u64, id: u128) -> Option<int> {
    match user_slot(jobs, user_id) {
        Some(i) => if jobs[i].id == id {
            Some(i)
        } else {
            None
        },
        None => None,
    }
}

pub proof fn lemma_id_slot(jobs: Seq<JobSnapshot>, id: u128, from: int)
    ensures
        id_slot(jobs, id, from) matches Some(i) ==> from <= i < jobs.len() && jobs[i].id == id,
    decreases jobs.len() - from,
{
    if 0 <= from < jobs.len() && jobs[from].id != id {
        lemma_id_slot(jobs, id, from + 1);
    }
}

/// A started job is visible under its user as queued with zero counters, and
/// while it holds its slot the same user cannot start another one.
pub proof fn lemma_start_then_busy(
    before: Seq<JobSnapshot>,
    max_concurrent: usize,
    s: JobSnapshot,
)
    requires
        table_wf(before, max_concurrent),
        user_slot(before, s.user_id) is None,
        before.len() < max_concurrent,
    ensures
        user_slot(before.push(s), s.user_id) == Some(before.len() as int),
        table_wf(before.push(s), max_concurrent),
{
    let after = before.push(s);
    assert forall|i: int, j: int|
        0 <= i < after.len() && 0 <= j < after.len() && i != j implies #[trigger] after[i].user_id
        != #[trigger] after[j].user_id by {
        if i < before.len() && j < before.len() {
            assert(before[i].user_id != before[j].user_id);
        } else if i < before.len() {
            assert(before[i].user_id != s.user_id);
        } else if j < before.len() {
            assert(before[j].user_id != s.user_id);
        }
    }
    lemma_user_slot(after, s.user_id, before.len() as int);
}

} // verus!
