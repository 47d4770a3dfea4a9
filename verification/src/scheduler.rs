//! The slot-pool scheduler's state machine. It owns the free-slot pool,
//! the FIFO backlog, the published job records, and the set of tracked
//! process identifiers. Each public method is one atomic decision step:
//! the embedding runtime performs the process work (spawn, wait, signal)
//! that the returned action asks for and reports the outcome back in.

use vstd::prelude::*;
use vstd::set_lib::lemma_len_subset;
use crate::log_buffer::{LogBuffer, LogLine};
use crate::state::{is_terminal, AppState, GpuInfo, JobInfo, JobState};

verus! {

/// A job as handed to the runtime for launching: its identifier and the
/// command line its process runs.
#[derive(Clone, Debug)]
pub struct JobSpec {
    pub id: u64,
    pub cmd: String,
}

/// What `submit` decided: launch the new job on a slot acquired from the
/// pool, or park it in the backlog because no slot was free.
#[derive(Debug)]
pub enum SubmitOutcome {
    Launch { gpu: u32 },
    Enqueued,
}

/// What to do after a job's process exited: launch the head of the
/// backlog on the slot just vacated, or return the slot to the pool.
#[derive(Debug)]
pub enum ExitAction {
    LaunchNext { job: JobSpec, gpu: u32 },
    Released { gpu: u32 },
}

#[derive(Clone, Copy, Debug, PartialEq, Eq, Structural)]
pub enum SchedError {
    /// Slot enumeration produced nothing; the scheduler cannot start.
    NoGpus,
}

/// How many jobs of `jobs` are in state `Running`.
pub open spec fn running_count(jobs: Seq<JobInfo>) -> int
    decreases jobs.len(),
{
    if jobs.len() == 0 {
        0
    } else {
        running_count(jobs.drop_last()) + if jobs.last().state is Running {
            1int
        } else {
            0int
        }
    }
}

/// Slot `g` is bound to some Running job of `jobs`.
pub open spec fn slot_bound(jobs: Seq<JobInfo>, g: u32) -> bool {
    exists|k: int|
        0 <= k < jobs.len() && (#[trigger] jobs[k]).state is Running && jobs[k].state->gpu_id == g
}

/// Appending a job changes the Running count by one exactly when the new
/// job is Running.
pub proof fn lemma_running_count_push(jobs: Seq<JobInfo>, j: JobInfo)
    ensures
        running_count(jobs.push(j)) == running_count(jobs) + if j.state is Running {
            1int
        } else {
            0int
        },
{
    assert(jobs.push(j).drop_last() =~= jobs);
}

/// Replacing the job at `i` changes the Running count by the difference
/// the replacement makes at that one position.
pub proof fn lemma_running_count_update(jobs: Seq<JobInfo>, i: int, j: JobInfo)
    requires
        0 <= i < jobs.len(),
    ensures
        running_count(jobs.update(i, j)) == running_count(jobs) - (if jobs[i].state is Running {
            1int
        } else {
            0int
        }) + (if j.state is Running {
            1int
        } else {
            0int
        }),
    decreases jobs.len(),
{
    let upd = jobs.update(i, j);
    if i == jobs.len() - 1 {
        assert(upd.drop_last() =~= jobs.drop_last());
    } else {
        assert(upd.drop_last() =~= jobs.drop_last().update(i, j));
        lemma_running_count_update(jobs.drop_last(), i, j);
    }
}

/// A sequence with a Running job has a positive Running count.
pub proof fn lemma_running_count_at_least_one(jobs: Seq<JobInfo>, k: int)
    requires
        0 <= k < jobs.len(),
        jobs[k].state is Running,
    ensures
        running_count(jobs) >= 1,
    decreases jobs.len(),
{
    if k < jobs.len() - 1 {
        lemma_running_count_at_least_one(jobs.drop_last(), k);
    }
    assert(running_count(jobs.drop_last()) >= 0) by {
        lemma_running_count_nonneg(jobs.drop_last());
    }
}

/// The Running count is never negative.
pub proof fn lemma_running_count_nonneg(jobs: Seq<JobInfo>)
    ensures
        running_count(jobs) >= 0,
    decreases jobs.len(),
{
    if jobs.len() > 0 {
        lemma_running_count_nonneg(jobs.drop_last());
    }
}

/// A Running count of zero means no job at all is Running.
pub proof fn lemma_running_count_zero(jobs: Seq<JobInfo>)
    requires
        running_count(jobs) == 0,
    ensures
        forall|k: int| 0 <= k < jobs.len() ==> !((#[trigger] jobs[k]).state is Running),
{
    assert forall|k: int| 0 <= k < jobs.len() implies !((#[trigger] jobs[k]).state is Running) by {
        if jobs[k].state is Running {
            lemma_running_count_at_least_one(jobs, k);
        }
    }
}

pub struct Scheduler {
    /// The published records observers read: slots, jobs, logs.
    pub app: AppState,
    /// Backlog of jobs awaiting a slot, oldest first.
    pub queue: std::collections::VecDeque<JobSpec>,
    /// Identifiers of the slots no job currently owns, oldest-released first.
    pub free_gpus: std::collections::VecDeque<u32>,
    /// Number of jobs currently in state `Running`.
    pub busy: usize,
    /// Tracked OS process identifiers of running jobs, as `(job, pid)`.
    pub running_pids: Vec<(u64, u32)>,
}

impl Scheduler {
    pub open spec fn jobs(&self) -> Seq<JobInfo> {
        self.app.jobs@
    }

    pub open spec fn n_slots(&self) -> int {
        self.app.gpus@.len() as int
    }

    /// `g` names one of this scheduler's slots.
    pub open spec fn is_slot_id(&self, g: u32) -> bool {
        exists|k: int| 0 <= k < self.app.gpus@.len() && (#[trigger] self.app.gpus@[k]).id == g
    }

    /// Job identifiers are assigned in submission order and never reused:
    /// the record of job `i` sits at index `i`.
    pub open spec fn ids_ok(&self) -> bool {
        forall|i: int| 0 <= i < self.jobs().len() ==> (#[trigger] self.jobs()[i]).id == i
    }

    /// Every job's log buffer is within capacity.
    pub open spec fn jobs_wf(&self) -> bool {
        forall|i: int| 0 <= i < self.jobs().len() ==> (#[trigger] self.jobs()[i]).wf()
    }

    /// Slot identifiers are pairwise distinct.
    pub open spec fn gpus_distinct(&self) -> bool {
        forall|i: int, j: int|
            0 <= i < j < self.app.gpus@.len() ==> self.app.gpus@[i].id != self.app.gpus@[j].id
    }

    /// `busy` counts exactly the Running jobs.
    pub open spec fn busy_ok(&self) -> bool {
        self.busy == running_count(self.jobs())
    }

    /// Running jobs and free slots partition the slot count.
    pub open spec fn slot_count_ok(&self) -> bool {
        self.busy + self.free_gpus@.len() == self.n_slots()
    }

    /// The free pool holds distinct slot identifiers, none of them bound
    /// to a Running job.
    pub open spec fn free_ok(&self) -> bool {
        &&& forall|i: int, j: int|
            0 <= i < j < self.free_gpus@.len() ==> self.free_gpus@[i] != self.free_gpus@[j]
        &&& forall|i: int|
            0 <= i < self.free_gpus@.len() ==> self.is_slot_id(#[trigger] self.free_gpus@[i])
        &&& forall|i: int|
            0 <= i < self.free_gpus@.len() ==> !slot_bound(
                self.jobs(),
                #[trigger] self.free_gpus@[i],
            )
    }

    /// Each Running job is bound to one of the slots, and no two Running
    /// jobs share a slot.
    pub open spec fn running_slots_ok(&self) -> bool {
        &&& forall|k: int|
            0 <= k < self.jobs().len() && (#[trigger] self.jobs()[k]).state is Running
                ==> self.is_slot_id(self.jobs()[k].state->gpu_id)
        &&& forall|k1: int, k2: int|
            0 <= k1 < k2 < self.jobs().len() && self.jobs()[k1].state is Running
                && self.jobs()[k2].state is Running ==> self.jobs()[k1].state->gpu_id
                != self.jobs()[k2].state->gpu_id
    }

    /// The backlog lists exactly the Queued jobs, each once, with the
    /// command it was submitted with.
    pub open spec fn queue_ok(&self) -> bool {
        &&& forall|i: int|
            0 <= i < self.queue@.len() ==> (#[trigger] self.queue@[i]).id < self.jobs().len()
                && self.jobs()[self.queue@[i].id as int].state is Queued
                && self.jobs()[self.queue@[i].id as int].cmd == self.queue@[i].cmd
        &&& forall|i: int, j: int|
            0 <= i < j < self.queue@.len() ==> self.queue@[i].id != self.queue@[j].id
        &&& forall|k: int|
            0 <= k < self.jobs().len() && (#[trigger] self.jobs()[k]).state is Queued
                ==> exists|i: int| 0 <= i < self.queue@.len() && (#[trigger] self.queue@[i]).id == k
    }

    /// Work never waits while a slot sits free: a non-empty backlog means
    /// an empty pool.
    pub open spec fn drain_ok(&self) -> bool {
        self.queue@.len() > 0 ==> self.free_gpus@.len() == 0
    }

    /// Tracked process identifiers belong to distinct, currently Running
    /// jobs.
    pub open spec fn pids_ok(&self) -> bool {
        &&& forall|i: int|
            0 <= i < self.running_pids@.len() ==> (#[trigger] self.running_pids@[i]).0
                < self.jobs().len() && self.jobs()[self.running_pids@[i].0 as int].state is Running
        &&& forall|i: int, j: int|
            0 <= i < j < self.running_pids@.len() ==> self.running_pids@[i].0
                != self.running_pids@[j].0
    }

    pub open spec fn wf(&self) -> bool {
        &&& self.ids_ok()
        &&& self.jobs_wf()
        &&& self.gpus_distinct()
        &&& self.busy_ok()
        &&& self.slot_count_ok()
        &&& self.free_ok()
        &&& self.running_slots_ok()
        &&& self.queue_ok()
        &&& self.drain_ok()
        &&& self.pids_ok()
        &&& self.app.selection_wf()
    }

    /// No work is queued and no job is running.
    pub open spec fn is_idle_spec(&self) -> bool {
        self.queue@.len() == 0 && self.busy == 0
    }

    /// Build a scheduler over the enumerated slots, all initially free, in
    /// enumeration order. Enumeration yielding no slot at all is the one
    /// fatal startup error.
    pub fn new(gpus: Vec<GpuInfo>) -> (r: Result<Scheduler, SchedError>)
        requires
            forall|i: int, j: int| 0 <= i < j < gpus@.len() ==> gpus@[i].id != gpus@[j].id,
        ensures
            r is Ok <==> gpus@.len() > 0,
            r matches Err(e) ==> e == SchedError::NoGpus,
            r matches Ok(s) ==> {
                &&& s.wf()
                &&& s.app.gpus == gpus
                &&& s.jobs().len() == 0
                &&& s.queue@.len() == 0
                &&& s.busy == 0
                &&& s.running_pids@.len() == 0
                &&& !s.app.should_quit
                &&& s.free_gpus@.len() == gpus@.len()
                &&& forall|i: int|
                    0 <= i < gpus@.len() ==> s.free_gpus@[i] == (#[trigger] gpus@[i]).id
            },
    {
        if gpus.len() == 0 {
            return Err(SchedError::NoGpus);
        }
        let mut free: std::collections::VecDeque<u32> = std::collections::VecDeque::new();
        let mut k: usize = 0;
        while k < gpus.len()
            invariant
                k <= gpus@.len(),
                free@.len() == k,
                forall|i: int| 0 <= i < k ==> free@[i] == (#[trigger] gpus@[i]).id,
            decreases gpus@.len() - k,
        {
            free.push_back(gpus[k].id);
            k += 1;
        }
        let mut app = AppState::new();
        app.gpus = gpus;
        let s = Scheduler {
            app,
            queue: std::collections::VecDeque::new(),
            free_gpus: free,
            busy: 0,
            running_pids: Vec::new(),
        };
        proof {
            assert forall|i: int| 0 <= i < s.free_gpus@.len() implies s.is_slot_id(
                #[trigger] s.free_gpus@[i],
            ) by {
                assert(s.app.gpus@[i].id == s.free_gpus@[i]);
            }
            assert forall|i: int, j: int|
                0 <= i < j < s.free_gpus@.len() implies s.free_gpus@[i] != s.free_gpus@[j] by {
                assert(s.free_gpus@[i] == s.app.gpus@[i].id);
                assert(s.free_gpus@[j] == s.app.gpus@[j].id);
            }
        }
        Ok(s)
    }

    /// Create the record for a newly submitted command and either launch
    /// it at once on a slot acquired from the pool, or park it at the
    /// tail of the backlog when no slot is free. Never blocks; always
    /// accepts the job. The returned identifier is fresh: identifiers are
    /// assigned in submission order and never reused.
    pub fn submit(&mut self, cmd: String) -> (r: (u64, SubmitOutcome))
        requires
            old(self).wf(),
        ensures
            final(self).wf(),
            r.0 == old(self).jobs().len(),
            final(self).jobs().len() == old(self).jobs().len() + 1,
            forall|i: int|
                0 <= i < old(self).jobs().len() ==> final(self).jobs()[i] == old(self).jobs()[i],
            final(self).jobs().last().id == r.0,
            final(self).jobs().last().cmd == cmd,
            final(self).jobs().last().log_lines@.len() == 0,
            final(self).app.gpus == old(self).app.gpus,
            final(self).running_pids == old(self).running_pids,
            match r.1 {
                SubmitOutcome::Launch { gpu } => {
                    &&& old(self).free_gpus@.len() > 0
                    &&& gpu == old(self).free_gpus@[0]
                    &&& final(self).free_gpus@ == old(self).free_gpus@.skip(1)
                    &&& final(self).jobs().last().state == (JobState::Running { gpu_id: gpu })
                    &&& final(self).queue == old(self).queue
                    &&& final(self).busy == old(self).busy + 1
                },
                SubmitOutcome::Enqueued => {
                    &&& old(self).free_gpus@.len() == 0
                    &&& final(self).free_gpus@.len() == 0
                    &&& final(self).jobs().last().state is Queued
                    &&& final(self).queue@.len() == old(self).queue@.len() + 1
                    &&& forall|i: int|
                        0 <= i < old(self).queue@.len() ==> final(self).queue@[i] == old(
                        self).queue@[i]
                    &&& final(self).queue@.last().id == r.0
                    &&& final(self).queue@.last().cmd == cmd
                    &&& final(self).busy == old(self).busy
                },
            },
            // submitting work makes the scheduler non-idle at once
            !final(self).is_idle_spec(),
    {
        let ghost pre = *self;
        let id: u64 = self.app.jobs.len() as u64;
        match self.free_gpus.pop_front() {
            Some(gpu) => {
                let job = JobInfo {
                    id,
                    cmd,
                    state: JobState::Running { gpu_id: gpu },
                    log_lines: LogBuffer::new(),
                };
                proof {
                    lemma_running_count_push(self.app.jobs@, job);
                }
                self.app.jobs.push(job);
                proof {
                    // one more Running job still fits the slot count
                    assert(self.busy + 1 <= self.app.gpus.len());
                }
                self.busy = self.busy + 1;
                proof {
                    self.lemma_submit_launch_wf(pre, gpu);
                }
                (id, SubmitOutcome::Launch { gpu })
            },
            None => {
                let entry = JobSpec { id, cmd: cmd.clone() };
                let job = JobInfo { id, cmd, state: JobState::Queued, log_lines: LogBuffer::new() };
                proof {
                    lemma_running_count_push(self.app.jobs@, job);
                }
                self.app.jobs.push(job);
                self.queue.push_back(entry);
                proof {
                    self.lemma_submit_enqueued_wf(pre);
                }
                (id, SubmitOutcome::Enqueued)
            },
        }
    }

    /// `submit` re-establishes the invariant when the new job launched on
    /// the slot taken from the head of the pool.
    proof fn lemma_submit_launch_wf(&self, pre: Scheduler, gpu: u32)
        requires
            pre.wf(),
            pre.free_gpus@.len() > 0,
            gpu == pre.free_gpus@[0],
            self.app.gpus == pre.app.gpus,
            self.app.selected_job == pre.app.selected_job,
            self.free_gpus@ == pre.free_gpus@.skip(1),
            self.queue == pre.queue,
            self.running_pids == pre.running_pids,
            self.busy == pre.busy + 1,
            self.jobs().len() == pre.jobs().len() + 1,
            forall|i: int| 0 <= i < pre.jobs().len() ==> self.jobs()[i] == pre.jobs()[i],
            self.jobs().last().id == pre.jobs().len(),
            self.jobs().last().state == (JobState::Running { gpu_id: gpu }),
            self.jobs().last().log_lines@.len() == 0,
            self.jobs().last().wf(),
            running_count(self.jobs()) == running_count(pre.jobs()) + 1,
        ensures
            self.wf(),
    {
        let n = pre.jobs().len() as int;
        let js = self.jobs();
        let old_js = pre.jobs();
        let fr = self.free_gpus@;
        let old_fr = pre.free_gpus@;
        assert(!slot_bound(old_js, gpu));
        // the pool tail stays distinct, made of slots, and unbound
        assert forall|i: int| 0 <= i < fr.len() implies self.is_slot_id(#[trigger] fr[i])
            && !slot_bound(js, fr[i]) by {
            assert(fr[i] == old_fr[i + 1]);
            assert(!slot_bound(old_js, old_fr[i + 1]));
            assert(fr[i] != gpu);
            assert forall|k: int|
                0 <= k < js.len() && (#[trigger] js[k]).state is Running implies js[k].state->gpu_id != fr[i] by {
                if k < n {
                    assert(js[k] == old_js[k]);
                    assert(!slot_bound(old_js, old_fr[i + 1]));
                }
            }
        }
        // the new Running job's slot came from the pool, so it collides
        // with no other Running job's slot
        assert forall|k1: int, k2: int|
            0 <= k1 < k2 < js.len() && js[k1].state is Running && js[k2].state is Running implies
            js[k1].state->gpu_id != js[k2].state->gpu_id by {
            if k2 == n {
                assert(js[k1] == old_js[k1]);
                assert(!slot_bound(old_js, gpu));
            }
        }
        // queue entries still point at unchanged Queued jobs
        let q = self.queue@;
        assert forall|i: int| 0 <= i < q.len() implies (#[trigger] q[i]).id < js.len() && js[q[i].id as int].state is Queued && js[q[i].id as int].cmd == q[i].cmd by {
            assert(js[q[i].id as int] == old_js[q[i].id as int]);
        }
        assert forall|k: int|
            0 <= k < js.len() && (#[trigger] js[k]).state is Queued implies exists|i: int|
                0 <= i < q.len() && (#[trigger] q[i]).id == k by {
            assert(js[k] == old_js[k]);
        }
        // the pool was non-empty, so the backlog was and stays empty
        assert(pre.queue@.len() == 0);
        let ps = self.running_pids@;
        assert forall|i: int| 0 <= i < ps.len() implies (#[trigger] ps[i]).0 < js.len() && js[ps[i].0 as int].state is Running by {
            assert(ps[i] == pre.running_pids@[i]);
            assert(js[ps[i].0 as int] == old_js[ps[i].0 as int]);
        }
    }

    /// `submit` re-establishes the invariant when the new job was parked
    /// at the tail of the backlog.
    proof fn lemma_submit_enqueued_wf(&self, pre: Scheduler)
        requires
            pre.wf(),
            pre.free_gpus@.len() == 0,
            self.app.gpus == pre.app.gpus,
            self.app.selected_job == pre.app.selected_job,
            self.free_gpus@ == pre.free_gpus@,
            self.queue@ == pre.queue@.push(
                JobSpec { id: pre.jobs().len() as u64, cmd: self.jobs().last().cmd },
            ),
            self.running_pids == pre.running_pids,
            self.busy == pre.busy,
            self.jobs().len() == pre.jobs().len() + 1,
            forall|i: int| 0 <= i < pre.jobs().len() ==> self.jobs()[i] == pre.jobs()[i],
            self.jobs().last().id == pre.jobs().len(),
            self.jobs().last().state is Queued,
            self.jobs().last().wf(),
            running_count(self.jobs()) == running_count(pre.jobs()),
        ensures
            self.wf(),
    {
        let n = pre.jobs().len() as int;
        let js = self.jobs();
        let old_js = pre.jobs();
        let q = self.queue@;
        let old_q = pre.queue@;
        assert forall|k1: int, k2: int|
            0 <= k1 < k2 < js.len() && js[k1].state is Running && js[k2].state is Running implies
            js[k1].state->gpu_id != js[k2].state->gpu_id by {
            assert(js[k1] == old_js[k1]);
        }
        assert forall|i: int| 0 <= i < q.len() implies (#[trigger] q[i]).id < js.len() && js[q[i].id as int].state is Queued && js[q[i].id as int].cmd == q[i].cmd by {
            if i < old_q.len() {
                assert(q[i] == old_q[i]);
                assert(js[old_q[i].id as int] == old_js[old_q[i].id as int]);
            }
        }
        assert forall|i: int, j: int| 0 <= i < j < q.len() implies q[i].id != q[j].id by {
            if j < old_q.len() {
                assert(q[i] == old_q[i]);
                assert(q[j] == old_q[j]);
            } else {
                assert(q[i].id < n);
            }
        }
        assert forall|k: int|
            0 <= k < js.len() && (#[trigger] js[k]).state is Queued implies exists|i: int|
                0 <= i < q.len() && (#[trigger] q[i]).id == k by {
            if k < n {
                assert(js[k] == old_js[k]);
                let i = choose|i: int| 0 <= i < old_q.len() && (#[trigger] old_q[i]).id == k;
                assert(q[i].id == k);
            } else {
                assert(q[q.len() - 1].id == k);
            }
        }
        let ps = self.running_pids@;
        assert forall|i: int| 0 <= i < ps.len() implies (#[trigger] ps[i]).0 < js.len() && js[ps[i].0 as int].state is Running by {
            assert(ps[i] == pre.running_pids@[i]);
            assert(js[ps[i].0 as int] == old_js[ps[i].0 as int]);
        }
    }

    /// Overwrite the state of the job record at `i`, leaving every other
    /// field and every other part of the scheduler untouched.
    fn set_job_state(&mut self, i: usize, st: JobState)
        requires
            i < old(self).jobs().len(),
        ensures
            final(self).app.jobs@ == old(self).app.jobs@.update(
                i as int,
                JobInfo {
                    id: old(self).jobs()[i as int].id,
                    cmd: old(self).jobs()[i as int].cmd,
                    state: st,
                    log_lines: old(self).jobs()[i as int].log_lines,
                },
            ),
            final(self).app.gpus == old(self).app.gpus,
            final(self).app.selected_job == old(self).app.selected_job,
            final(self).app.should_quit == old(self).app.should_quit,
            final(self).app.job_scroll_offset == old(self).app.job_scroll_offset,
            final(self).app.job_panel_visible_height == old(self).app.job_panel_visible_height,
            final(self).queue == old(self).queue,
            final(self).free_gpus == old(self).free_gpus,
            final(self).busy == old(self).busy,
            final(self).running_pids == old(self).running_pids,
    {
        let j = &mut self.app.jobs[i];
        j.state = st;
    }

    /// Drop the tracked process identifier of `job`, if one is tracked;
    /// every other entry is kept.
    #[verifier::loop_isolation(false)]
    fn remove_pid_entry(&mut self, job: u64)
        requires
            forall|i: int, j: int|
                0 <= i < j < old(self).running_pids@.len() ==> old(self).running_pids@[i].0
                    != old(self).running_pids@[j].0,
        ensures
            final(self).app == old(self).app,
            final(self).queue == old(self).queue,
            final(self).free_gpus == old(self).free_gpus,
            final(self).busy == old(self).busy,
            forall|i: int|
                0 <= i < final(self).running_pids@.len() ==> (#[trigger] final(self).running_pids@[i]).0 != job,
            forall|p: (u64, u32)|
                old(self).running_pids@.contains(p) && p.0 != job ==> final(self).running_pids@.contains(p),
            forall|p: (u64, u32)|
                final(self).running_pids@.contains(p) ==> old(self).running_pids@.contains(p),
            forall|i: int, j: int|
                0 <= i < j < final(self).running_pids@.len() ==> final(self).running_pids@[i].0
                    != final(self).running_pids@[j].0,
    {
        let ghost pre = *self;
        let mut i: usize = 0;
        while i < self.running_pids.len()
            invariant
                *self == pre,
                pre == *old(self),
                i <= self.running_pids@.len(),
                forall|k: int| 0 <= k < i ==> (#[trigger] self.running_pids@[k]).0 != job,
            decreases self.running_pids@.len() - i,
        {
            if self.running_pids[i].0 == job {
                self.running_pids.remove(i);
                proof {
                    let pr = pre.running_pids@;
                    let nw = self.running_pids@;
                    assert(pr == old(self).running_pids@);
                    assert forall|k: int| 0 <= k < nw.len() implies #[trigger] nw[k] == (if k
                        < i { pr[k] } else { pr[k + 1] }) by {}
                    assert forall|k: int| 0 <= k < nw.len() implies (#[trigger] nw[k]).0
                        != job by {
                        if k >= i {
                            assert(pr[i as int].0 == job);
                            assert(nw[k] == pr[k + 1]);
                            assert(old(self).running_pids@[i as int].0 != old(self).running_pids@[k + 1].0);
                        }
                    }
                    assert forall|k1: int, k2: int| 0 <= k1 < k2 < nw.len() implies nw[k1].0
                        != nw[k2].0 by {
                        let m1: int = if k1 < i { k1 } else { k1 + 1 };
                        let m2: int = if k2 < i { k2 } else { k2 + 1 };
                        assert(nw[k1] == pr[m1]);
                        assert(nw[k2] == pr[m2]);
                        assert(old(self).running_pids@[m1].0 != old(self).running_pids@[m2].0);
                    }
                    assert forall|p: (u64, u32)| pr.contains(p) && p.0 != job implies
                        nw.contains(p) by {
                        let k = choose|k: int| 0 <= k < pr.len() && pr[k] == p;
                        if k < i {
                            assert(nw[k] == p);
                        } else {
                            assert(k != i);
                            assert(nw[k - 1] == p);
                        }
                    }
                    assert forall|p: (u64, u32)| nw.contains(p) implies pr.contains(p) by {
                        let k = choose|k: int| 0 <= k < nw.len() && nw[k] == p;
                        if k < i {
                            assert(pr[k] == p);
                        } else {
                            assert(pr[k + 1] == p);
                        }
                    }
                }
                return;
            }
            i += 1;
        }
    }

    /// Record that the process of `job` exited (or could not be spawned):
    /// the job becomes `Completed` on success and `Failed` otherwise, and
    /// its tracked process identifier is dropped. The slot the job owned
    /// is then kept busy: the head of the backlog, if any, is promoted to
    /// `Running` on the very same slot without a round trip through the
    /// pool; only when the backlog is empty is the slot released.
    pub fn on_exit(&mut self, job: u64, success: bool) -> (r: ExitAction)
        requires
            old(self).wf(),
            job < old(self).jobs().len(),
            old(self).jobs()[job as int].state is Running,
        ensures
            final(self).wf(),
            final(self).app.gpus == old(self).app.gpus,
            final(self).jobs().len() == old(self).jobs().len(),
            final(self).jobs()[job as int].state == (if success {
                JobState::Completed
            } else {
                JobState::Failed
            }),
            final(self).jobs()[job as int].id == old(self).jobs()[job as int].id,
            final(self).jobs()[job as int].cmd == old(self).jobs()[job as int].cmd,
            final(self).jobs()[job as int].log_lines == old(self).jobs()[job as int].log_lines,
            forall|i: int|
                0 <= i < final(self).running_pids@.len() ==> (#[trigger] final(self).running_pids@[i]).0 != job,
            forall|p: (u64, u32)|
                old(self).running_pids@.contains(p) && p.0 != job ==> final(self).running_pids@.contains(p),
            forall|p: (u64, u32)|
                final(self).running_pids@.contains(p) ==> old(self).running_pids@.contains(p),
            match r {
                ExitAction::LaunchNext { job: next, gpu } => {
                    &&& old(self).queue@.len() > 0
                    &&& next == old(self).queue@[0]
                    &&& gpu == old(self).jobs()[job as int].state->gpu_id
                    &&& final(self).queue@ == old(self).queue@.skip(1)
                    &&& final(self).free_gpus == old(self).free_gpus
                    &&& final(self).busy == old(self).busy
                    &&& final(self).jobs()[next.id as int].state == (JobState::Running {
                        gpu_id: gpu,
                    })
                    &&& final(self).jobs()[next.id as int].cmd == old(self).jobs()[next.id as int].cmd
                    &&& forall|i: int|
                        0 <= i < old(self).jobs().len() && i != job && i != next.id ==> final(self).jobs()[i] == old(self).jobs()[i]
                },
                ExitAction::Released { gpu } => {
                    &&& old(self).queue@.len() == 0
                    &&& final(self).queue@.len() == 0
                    &&& gpu == old(self).jobs()[job as int].state->gpu_id
                    &&& final(self).free_gpus@ == old(self).free_gpus@.push(gpu)
                    &&& final(self).busy == old(self).busy - 1
                    &&& forall|i: int|
                        0 <= i < old(self).jobs().len() && i != job ==> final(self).jobs()[i]
                            == old(self).jobs()[i]
                },
            },
    {
        let ghost pre = *self;
        proof {
            // the identifier indexes the job vector, so it fits a usize
            assert(job < self.app.jobs.len());
        }
        let ji: usize = job as usize;
        let gpu: u32 = match self.app.jobs[ji].state {
            JobState::Running { gpu_id } => gpu_id,
            _ => {
                proof {
                    assert(false);
                }
                0
            },
        };
        let st = if success {
            JobState::Completed
        } else {
            JobState::Failed
        };
        self.set_job_state(ji, st);
        self.remove_pid_entry(job);
        let ghost mid = *self;
        proof {
            lemma_running_count_update(pre.jobs(), ji as int, mid.jobs()[ji as int]);
        }
        match self.queue.pop_front() {
            Some(next) => {
                proof {
                    // the head of the backlog names a Queued job, distinct
                    // from the one that just exited
                    assert(pre.queue@[0].id < pre.jobs().len());
                    assert(pre.jobs()[pre.queue@[0].id as int].state is Queued);
                    assert(next.id < self.app.jobs.len());
                }
                let ni: usize = next.id as usize;
                self.set_job_state(ni, JobState::Running { gpu_id: gpu });
                proof {
                    lemma_running_count_update(
                        mid.jobs(),
                        ni as int,
                        self.jobs()[ni as int],
                    );
                    self.lemma_on_exit_launch_wf(pre, ji as int, ni as int, gpu, st);
                }
                ExitAction::LaunchNext { job: next, gpu }
            },
            None => {
                self.free_gpus.push_back(gpu);
                proof {
                    lemma_running_count_at_least_one(pre.jobs(), ji as int);
                }
                self.busy = self.busy - 1;
                proof {
                    self.lemma_on_exit_release_wf(pre, ji as int, gpu, st);
                }
                ExitAction::Released { gpu }
            },
        }
    }

    /// `on_exit` re-establishes the invariant when the vacated slot is
    /// handed straight to the head of the backlog.
    proof fn lemma_on_exit_launch_wf(&self, pre: Scheduler, job: int, ni: int, gpu: u32, st: JobState)
        requires
            pre.wf(),
            0 <= job < pre.jobs().len(),
            pre.jobs()[job].state is Running,
            gpu == pre.jobs()[job].state->gpu_id,
            st is Completed || st is Failed,
            pre.queue@.len() > 0,
            ni == pre.queue@[0].id,
            self.jobs().len() == pre.jobs().len(),
            forall|i: int|
                0 <= i < pre.jobs().len() && i != job && i != ni ==> self.jobs()[i]
                    == pre.jobs()[i],
            self.jobs()[job].id == pre.jobs()[job].id,
            self.jobs()[job].cmd == pre.jobs()[job].cmd,
            self.jobs()[job].log_lines == pre.jobs()[job].log_lines,
            self.jobs()[job].state == st,
            self.jobs()[ni].id == pre.jobs()[ni].id,
            self.jobs()[ni].cmd == pre.jobs()[ni].cmd,
            self.jobs()[ni].log_lines == pre.jobs()[ni].log_lines,
            self.jobs()[ni].state == (JobState::Running { gpu_id: gpu }),
            self.queue@ == pre.queue@.skip(1),
            self.free_gpus@ == pre.free_gpus@,
            self.busy == pre.busy,
            running_count(self.jobs()) == running_count(pre.jobs()),
            self.app.gpus == pre.app.gpus,
            self.app.selected_job == pre.app.selected_job,
            forall|i: int|
                0 <= i < self.running_pids@.len() ==> (#[trigger] self.running_pids@[i]).0
                    != job,
            forall|p: (u64, u32)|
                self.running_pids@.contains(p) ==> pre.running_pids@.contains(p),
            forall|i: int, j: int|
                0 <= i < j < self.running_pids@.len() ==> self.running_pids@[i].0
                    != self.running_pids@[j].0,
        ensures
            self.wf(),
    {
        let n = pre.jobs().len() as int;
        let js = self.jobs();
        let old_js = pre.jobs();
        let q = self.queue@;
        let old_q = pre.queue@;
        assert(ni != job);
        assert(old_js[ni].state is Queued);
        // ids and logs carry over position by position
        assert forall|i: int| 0 <= i < js.len() implies (#[trigger] js[i]).id == i && js[i].wf() by {
            if i != job && i != ni {
                assert(js[i] == old_js[i]);
            }
        }
        // the vacated slot never touches the pool, so the pool stays
        // distinct, made of slots, and unbound
        let fr = self.free_gpus@;
        assert forall|i: int| 0 <= i < fr.len() implies self.is_slot_id(#[trigger] fr[i])
            && !slot_bound(js, fr[i]) by {
            assert(!slot_bound(old_js, fr[i]));
            assert forall|k: int|
                0 <= k < js.len() && (#[trigger] js[k]).state is Running implies js[k].state->gpu_id != fr[i] by {
                if k == ni {
                    assert(fr[i] != gpu);
                } else {
                    assert(js[k] == old_js[k]);
                }
            }
        }
        assert forall|k: int|
            0 <= k < js.len() && (#[trigger] js[k]).state is Running implies self.is_slot_id(
            js[k].state->gpu_id) by {
            if k != ni {
                assert(js[k] == old_js[k]);
            }
        }
        assert forall|k1: int, k2: int|
            0 <= k1 < k2 < js.len() && js[k1].state is Running && js[k2].state is Running implies
            js[k1].state->gpu_id != js[k2].state->gpu_id by {
            if k1 != ni && k2 != ni {
                assert(js[k1] == old_js[k1]);
                assert(js[k2] == old_js[k2]);
            } else {
                let other: int = if k1 == ni { k2 } else { k1 };
                assert(other != job);
                assert(js[other] == old_js[other]);
                assert(old_js[other].state->gpu_id != old_js[job].state->gpu_id);
            }
        }
        // remaining backlog entries still name untouched Queued jobs
        assert forall|i: int| 0 <= i < q.len() implies (#[trigger] q[i]).id < js.len() && js[q[i].id as int].state is Queued && js[q[i].id as int].cmd == q[i].cmd by {
            assert(q[i] == old_q[i + 1]);
            assert(old_q[i + 1].id != old_q[0].id);
            assert(old_q[i + 1].id != job);
            assert(js[old_q[i + 1].id as int] == old_js[old_q[i + 1].id as int]);
        }
        assert forall|i: int, j: int| 0 <= i < j < q.len() implies q[i].id != q[j].id by {
            assert(q[i] == old_q[i + 1]);
            assert(q[j] == old_q[j + 1]);
        }
        assert forall|k: int|
            0 <= k < js.len() && (#[trigger] js[k]).state is Queued implies exists|i: int|
                0 <= i < q.len() && (#[trigger] q[i]).id == k by {
            assert(k != ni && k != job);
            assert(js[k] == old_js[k]);
            let i = choose|i: int| 0 <= i < old_q.len() && (#[trigger] old_q[i]).id == k;
            assert(i != 0);
            assert(q[i - 1].id == k);
        }
        // a non-empty backlog still means an empty pool
        assert(pre.free_gpus@.len() == 0);
        // tracked pids still name distinct Running jobs
        let ps = self.running_pids@;
        assert forall|i: int| 0 <= i < ps.len() implies (#[trigger] ps[i]).0 < js.len() && js[ps[i].0 as int].state is Running by {
            assert(ps.contains(ps[i]));
            let p = ps[i];
            assert(pre.running_pids@.contains(p));
            let k = choose|k: int|
                0 <= k < pre.running_pids@.len() && pre.running_pids@[k] == p;
            assert(old_js[p.0 as int].state is Running);
            assert(p.0 != ni);
            assert(p.0 != job);
            assert(js[p.0 as int] == old_js[p.0 as int]);
        }
    }

    /// `on_exit` re-establishes the invariant when the backlog was empty
    /// and the vacated slot went back to the pool.
    proof fn lemma_on_exit_release_wf(&self, pre: Scheduler, job: int, gpu: u32, st: JobState)
        requires
            pre.wf(),
            0 <= job < pre.jobs().len(),
            pre.jobs()[job].state is Running,
            gpu == pre.jobs()[job].state->gpu_id,
            st is Completed || st is Failed,
            pre.queue@.len() == 0,
            self.jobs().len() == pre.jobs().len(),
            forall|i: int|
                0 <= i < pre.jobs().len() && i != job ==> self.jobs()[i] == pre.jobs()[i],
            self.jobs()[job].id == pre.jobs()[job].id,
            self.jobs()[job].cmd == pre.jobs()[job].cmd,
            self.jobs()[job].log_lines == pre.jobs()[job].log_lines,
            self.jobs()[job].state == st,
            self.queue@ == pre.queue@,
            self.free_gpus@ == pre.free_gpus@.push(gpu),
            self.busy == pre.busy - 1,
            running_count(self.jobs()) == running_count(pre.jobs()) - 1,
            self.app.gpus == pre.app.gpus,
            self.app.selected_job == pre.app.selected_job,
            forall|i: int|
                0 <= i < self.running_pids@.len() ==> (#[trigger] self.running_pids@[i]).0
                    != job,
            forall|p: (u64, u32)|
                self.running_pids@.contains(p) ==> pre.running_pids@.contains(p),
            forall|i: int, j: int|
                0 <= i < j < self.running_pids@.len() ==> self.running_pids@[i].0
                    != self.running_pids@[j].0,
        ensures
            self.wf(),
    {
        let n = pre.jobs().len() as int;
        let js = self.jobs();
        let old_js = pre.jobs();
        assert forall|i: int| 0 <= i < js.len() implies (#[trigger] js[i]).id == i && js[i].wf() by {
            if i != job {
                assert(js[i] == old_js[i]);
            }
        }
        // no job runs on the released slot any more, and the rest of the
        // pool was already unbound
        let fr = self.free_gpus@;
        assert forall|i: int| 0 <= i < fr.len() implies self.is_slot_id(#[trigger] fr[i])
            && !slot_bound(js, fr[i]) by {
            assert forall|k: int|
                0 <= k < js.len() && (#[trigger] js[k]).state is Running implies js[k].state->gpu_id != fr[i] by {
                assert(k != job);
                assert(js[k] == old_js[k]);
                if i < pre.free_gpus@.len() {
                    assert(!slot_bound(old_js, pre.free_gpus@[i]));
                } else {
                    // the released slot was bound only to the exited job
                    assert(fr[i] == gpu);
                    assert(old_js[k].state->gpu_id != old_js[job].state->gpu_id);
                }
            }
            if i < pre.free_gpus@.len() {
                assert(self.is_slot_id(pre.free_gpus@[i]));
            }
        }
        assert forall|i: int, j: int| 0 <= i < j < fr.len() implies fr[i] != fr[j] by {
            if j == fr.len() - 1 && pre.free_gpus@.len() == j {
                assert(fr[j] == gpu);
                assert(!slot_bound(old_js, pre.free_gpus@[i]));
                assert(slot_bound(old_js, gpu));
            }
        }
        assert forall|k1: int, k2: int|
            0 <= k1 < k2 < js.len() && js[k1].state is Running && js[k2].state is Running implies
            js[k1].state->gpu_id != js[k2].state->gpu_id by {
            assert(js[k1] == old_js[k1]);
            assert(js[k2] == old_js[k2]);
        }
        assert forall|k: int|
            0 <= k < js.len() && (#[trigger] js[k]).state is Running implies self.is_slot_id(
            js[k].state->gpu_id) by {
            assert(js[k] == old_js[k]);
        }
        // the backlog was empty, so no job was or is Queued
        assert forall|k: int|
            0 <= k < js.len() && (#[trigger] js[k]).state is Queued implies exists|i: int|
                0 <= i < self.queue@.len() && (#[trigger] self.queue@[i]).id == k by {
            assert(k != job);
            assert(js[k] == old_js[k]);
            assert(old_js[k].state is Queued);
        }
        let ps = self.running_pids@;
        assert forall|i: int| 0 <= i < ps.len() implies (#[trigger] ps[i]).0 < js.len() && js[ps[i].0 as int].state is Running by {
            assert(ps.contains(ps[i]));
            let p = ps[i];
            assert(pre.running_pids@.contains(p));
            let k = choose|k: int|
                0 <= k < pre.running_pids@.len() && pre.running_pids@[k] == p;
            assert(old_js[p.0 as int].state is Running);
            assert(p.0 != job);
            assert(js[p.0 as int] == old_js[p.0 as int]);
        }
    }

    /// Track the OS process identifier of a freshly spawned job so a
    /// later termination sweep can target it.
    pub fn record_pid(&mut self, job: u64, pid: u32)
        requires
            old(self).wf(),
            job < old(self).jobs().len(),
            old(self).jobs()[job as int].state is Running,
            forall|i: int|
                0 <= i < old(self).running_pids@.len() ==> (#[trigger] old(self).running_pids@[i]).0 != job,
        ensures
            final(self).wf(),
            final(self).running_pids@ == old(self).running_pids@.push((job, pid)),
            final(self).app == old(self).app,
            final(self).queue == old(self).queue,
            final(self).free_gpus == old(self).free_gpus,
            final(self).busy == old(self).busy,
    {
        self.running_pids.push((job, pid));
    }

    /// The OS process identifiers of every tracked running job, in
    /// tracking order — the targets of one termination sweep pass. Once
    /// every tracked job has exited, the list is empty and a further
    /// sweep has nothing to do.
    pub fn termination_targets(&self) -> (r: Vec<u32>)
        ensures
            r@.len() == self.running_pids@.len(),
            forall|i: int|
                0 <= i < r@.len() ==> r@[i] == (#[trigger] self.running_pids@[i]).1,
    {
        let mut r: Vec<u32> = Vec::new();
        let mut i: usize = 0;
        while i < self.running_pids.len()
            invariant
                i <= self.running_pids@.len(),
                r@.len() == i,
                forall|k: int|
                    0 <= k < i ==> r@[k] == (#[trigger] self.running_pids@[k]).1,
            decreases self.running_pids@.len() - i,
        {
            r.push(self.running_pids[i].1);
            i += 1;
        }
        r
    }

    /// Append one captured output line to the log of `job`, evicting the
    /// oldest retained line once the buffer is at capacity.
    pub fn append_log(&mut self, job: u64, text: String, from_stderr: bool)
        requires
            old(self).wf(),
            job < old(self).jobs().len(),
        ensures
            final(self).wf(),
            final(self).jobs().len() == old(self).jobs().len(),
            forall|i: int|
                0 <= i < old(self).jobs().len() && i != job ==> final(self).jobs()[i] == old(self).jobs()[i],
            final(self).jobs()[job as int].id == old(self).jobs()[job as int].id,
            final(self).jobs()[job as int].cmd == old(self).jobs()[job as int].cmd,
            final(self).jobs()[job as int].state == old(self).jobs()[job as int].state,
            final(self).jobs()[job as int].log_lines.history() == old(self).jobs()[job as int].log_lines.history().push(LogLine { text, from_stderr }),
            final(self).jobs()[job as int].log_lines@ == crate::log_buffer::retained(
                old(self).jobs()[job as int].log_lines.history().push(
                    LogLine { text, from_stderr },
                ),
            ),
            final(self).app.gpus == old(self).app.gpus,
            final(self).queue == old(self).queue,
            final(self).free_gpus == old(self).free_gpus,
            final(self).busy == old(self).busy,
            final(self).running_pids == old(self).running_pids,
    {
        let ghost pre = *self;
        proof {
            assert(job < self.app.jobs.len());
        }
        let ji: usize = job as usize;
        let line = LogLine { text, from_stderr };
        let j = &mut self.app.jobs[ji];
        j.log_lines.push(line);
        proof {
            self.lemma_wf_after_job_touch(pre, ji as int);
        }
    }

    /// The invariant survives a change to one job record that keeps the
    /// record's identifier, command, state and log well-formedness.
    proof fn lemma_wf_after_job_touch(&self, pre: Scheduler, ji: int)
        requires
            pre.wf(),
            0 <= ji < pre.jobs().len(),
            self.jobs().len() == pre.jobs().len(),
            forall|i: int|
                0 <= i < pre.jobs().len() && i != ji ==> self.jobs()[i] == pre.jobs()[i],
            self.jobs()[ji].id == pre.jobs()[ji].id,
            self.jobs()[ji].cmd == pre.jobs()[ji].cmd,
            self.jobs()[ji].state == pre.jobs()[ji].state,
            self.jobs()[ji].wf(),
            self.queue == pre.queue,
            self.free_gpus == pre.free_gpus,
            self.busy == pre.busy,
            self.running_pids == pre.running_pids,
            self.app.gpus == pre.app.gpus,
            self.app.selected_job == pre.app.selected_job,
        ensures
            self.wf(),
    {
        let js = self.jobs();
        let old_js = pre.jobs();
        assert(running_count(js) == running_count(old_js)) by {
            Self::lemma_running_count_states(js, old_js);
        }
        assert forall|i: int| 0 <= i < js.len() implies (#[trigger] js[i]).id == i && js[i].wf() by {
            if i != ji {
                assert(js[i] == old_js[i]);
            }
        }
        assert forall|g: u32| slot_bound(js, g) implies slot_bound(old_js, g) by {
            let k = choose|k: int|
                0 <= k < js.len() && (#[trigger] js[k]).state is Running && js[k].state->gpu_id
                    == g;
            assert(old_js[k].state == js[k].state);
        }
        let fr = self.free_gpus@;
        assert forall|i: int| 0 <= i < fr.len() implies !slot_bound(js, #[trigger] fr[i]) by {
            assert(!slot_bound(old_js, fr[i]));
        }
        assert forall|k: int|
            0 <= k < js.len() && (#[trigger] js[k]).state is Running implies self.is_slot_id(
            js[k].state->gpu_id) by {
            assert(js[k].state == old_js[k].state);
        }
        assert forall|k1: int, k2: int|
            0 <= k1 < k2 < js.len() && js[k1].state is Running && js[k2].state is Running implies
            js[k1].state->gpu_id != js[k2].state->gpu_id by {
            assert(js[k1].state == old_js[k1].state);
            assert(js[k2].state == old_js[k2].state);
        }
        let q = self.queue@;
        assert forall|i: int| 0 <= i < q.len() implies (#[trigger] q[i]).id < js.len() && js[q[i].id as int].state is Queued && js[q[i].id as int].cmd == q[i].cmd by {
            assert(old_js[q[i].id as int].state is Queued);
            assert(js[q[i].id as int].state == old_js[q[i].id as int].state);
            assert(js[q[i].id as int].cmd == old_js[q[i].id as int].cmd);
        }
        assert forall|k: int|
            0 <= k < js.len() && (#[trigger] js[k]).state is Queued implies exists|i: int|
                0 <= i < q.len() && (#[trigger] q[i]).id == k by {
            assert(old_js[k].state == js[k].state);
        }
        let ps = self.running_pids@;
        assert forall|i: int| 0 <= i < ps.len() implies (#[trigger] ps[i]).0 < js.len() && js[ps[i].0 as int].state is Running by {
            assert(ps[i] == pre.running_pids@[i]);
            assert(js[ps[i].0 as int].state == old_js[ps[i].0 as int].state);
        }
    }

    /// Two job sequences with identical states position by position have
    /// the same Running count.
    proof fn lemma_running_count_states(js: Seq<JobInfo>, old_js: Seq<JobInfo>)
        requires
            js.len() == old_js.len(),
            forall|i: int| 0 <= i < js.len() ==> (#[trigger] js[i]).state == old_js[i].state,
        ensures
            running_count(js) == running_count(old_js),
        decreases js.len(),
    {
        if js.len() > 0 {
            assert forall|i: int| 0 <= i < js.drop_last().len() implies (#[trigger] js.drop_last()[i]).state == old_js.drop_last()[i].state by {
                assert(js.drop_last()[i] == js[i]);
                assert(old_js.drop_last()[i] == old_js[i]);
            }
            Self::lemma_running_count_states(js.drop_last(), old_js.drop_last());
            assert(js.last().state == old_js.last().state);
        }
    }

    /// Store the externally polled free/total memory metrics of the slot
    /// named `gpu_id`; every other slot record, and all scheduling state,
    /// is untouched. A slot identifier the scheduler does not know is
    /// ignored.
    pub fn update_gpu_memory(&mut self, gpu_id: u32, free_mb: u64, total_mb: u64)
        requires
            old(self).wf(),
        ensures
            final(self).wf(),
            final(self).app.gpus@.len() == old(self).app.gpus@.len(),
            forall|k: int|
                0 <= k < old(self).app.gpus@.len() && (#[trigger] old(self).app.gpus@[k]).id
                    != gpu_id ==> final(self).app.gpus@[k] == old(self).app.gpus@[k],
            forall|k: int|
                0 <= k < old(self).app.gpus@.len() && (#[trigger] old(self).app.gpus@[k]).id
                    == gpu_id ==> final(self).app.gpus@[k] == (GpuInfo {
                    id: old(self).app.gpus@[k].id,
                    name: old(self).app.gpus@[k].name,
                    free_memory_mb: free_mb,
                    total_memory_mb: total_mb,
                }),
            final(self).app.jobs == old(self).app.jobs,
            final(self).app.selected_job == old(self).app.selected_job,
            final(self).queue == old(self).queue,
            final(self).free_gpus == old(self).free_gpus,
            final(self).busy == old(self).busy,
            final(self).running_pids == old(self).running_pids,
    {
        let ghost pre = *self;
        let mut k: usize = 0;
        while k < self.app.gpus.len()
            invariant
                old(self).wf(),
                pre == *old(self),
                k <= self.app.gpus@.len(),
                self.app.gpus@.len() == pre.app.gpus@.len(),
                forall|i: int|
                    k <= i < pre.app.gpus@.len() ==> self.app.gpus@[i] == pre.app.gpus@[i],
                forall|i: int|
                    0 <= i < k && (#[trigger] pre.app.gpus@[i]).id != gpu_id
                        ==> self.app.gpus@[i] == pre.app.gpus@[i],
                forall|i: int|
                    0 <= i < k && (#[trigger] pre.app.gpus@[i]).id == gpu_id
                        ==> self.app.gpus@[i] == (GpuInfo {
                        id: pre.app.gpus@[i].id,
                        name: pre.app.gpus@[i].name,
                        free_memory_mb: free_mb,
                        total_memory_mb: total_mb,
                    }),
                self.app.jobs == pre.app.jobs,
                self.app.selected_job == pre.app.selected_job,
                self.app.should_quit == pre.app.should_quit,
                self.app.job_scroll_offset == pre.app.job_scroll_offset,
                self.app.job_panel_visible_height == pre.app.job_panel_visible_height,
                self.queue == pre.queue,
                self.free_gpus == pre.free_gpus,
                self.busy == pre.busy,
                self.running_pids == pre.running_pids,
            decreases self.app.gpus@.len() - k,
        {
            if self.app.gpus[k].id == gpu_id {
                let g = &mut self.app.gpus[k];
                g.free_memory_mb = free_mb;
                g.total_memory_mb = total_mb;
            }
            k += 1;
        }
        proof {
            self.lemma_wf_after_metrics(pre);
        }
    }

    /// The invariant survives a refresh of slot memory metrics: no
    /// predicate of the invariant reads those two fields.
    proof fn lemma_wf_after_metrics(&self, pre: Scheduler)
        requires
            pre.wf(),
            self.app.gpus@.len() == pre.app.gpus@.len(),
            forall|k: int|
                0 <= k < pre.app.gpus@.len() ==> (#[trigger] self.app.gpus@[k]).id
                    == pre.app.gpus@[k].id,
            self.app.jobs == pre.app.jobs,
            self.app.selected_job == pre.app.selected_job,
            self.queue == pre.queue,
            self.free_gpus == pre.free_gpus,
            self.busy == pre.busy,
            self.running_pids == pre.running_pids,
        ensures
            self.wf(),
    {
        assert forall|g: u32| pre.is_slot_id(g) implies self.is_slot_id(g) by {
            let k = choose|k: int|
                0 <= k < pre.app.gpus@.len() && (#[trigger] pre.app.gpus@[k]).id == g;
            assert(self.app.gpus@[k].id == g);
        }
        let fr = self.free_gpus@;
        assert forall|i: int| 0 <= i < fr.len() implies self.is_slot_id(#[trigger] fr[i]) by {
            assert(pre.is_slot_id(fr[i]));
        }
        let js = self.jobs();
        assert forall|k: int|
            0 <= k < js.len() && (#[trigger] js[k]).state is Running implies self.is_slot_id(
            js[k].state->gpu_id) by {
            assert(pre.is_slot_id(js[k].state->gpu_id));
        }
    }

    /// True exactly when the backlog is empty and no job is Running.
    pub fn is_idle(&self) -> (r: bool)
        ensures
            r == self.is_idle_spec(),
    {
        self.queue.len() == 0 && self.busy == 0
    }
}

/// No job at all is Running exactly when the Running count is zero.
pub proof fn lemma_running_count_none(jobs: Seq<JobInfo>)
    requires
        forall|k: int| 0 <= k < jobs.len() ==> !((#[trigger] jobs[k]).state is Running),
    ensures
        running_count(jobs) == 0,
    decreases jobs.len(),
{
    if jobs.len() > 0 {
        assert forall|k: int| 0 <= k < jobs.drop_last().len() implies !((#[trigger] jobs.drop_last()[k]).state is Running) by {
            assert(jobs.drop_last()[k] == jobs[k]);
        }
        lemma_running_count_none(jobs.drop_last());
    }
}

/// At most as many jobs are ever simultaneously Running as there are
/// slots: the Running jobs and the free pool partition the slot count.
pub proof fn lemma_at_most_slots_running(s: &Scheduler)
    requires
        s.wf(),
    ensures
        running_count(s.jobs()) <= s.app.gpus@.len(),
{
}

/// Work never waits on an idle slot: while any job sits in the backlog,
/// the free pool is empty, so every slot is busy.
pub proof fn lemma_no_free_slot_while_queued(s: &Scheduler)
    requires
        s.wf(),
        s.queue@.len() > 0,
    ensures
        s.free_gpus@.len() == 0,
{
}

/// `is_idle` holds exactly when the backlog is empty and no job at all
/// is in state Running.
pub proof fn lemma_idle_characterization(s: &Scheduler)
    requires
        s.wf(),
    ensures
        s.is_idle_spec() <==> (s.queue@.len() == 0 && forall|k: int|
            0 <= k < s.jobs().len() ==> !((#[trigger] s.jobs()[k]).state is Running)),
{
    if s.busy == 0 {
        lemma_running_count_zero(s.jobs());
    }
    if forall|k: int| 0 <= k < s.jobs().len() ==> !((#[trigger] s.jobs()[k]).state is Running) {
        lemma_running_count_none(s.jobs());
    }
}

/// While any job waits in the backlog, every slot is busy running some
/// job. Combined with `on_exit`, which always promotes the backlog's
/// head before it would release a slot, no job is left Queued while a
/// slot sits idle.
pub proof fn lemma_backlog_implies_all_slots_busy(s: &Scheduler, k: int)
    requires
        s.wf(),
        s.app.gpus@.len() > 0,
        0 <= k < s.jobs().len(),
        s.jobs()[k].state is Queued,
    ensures
        running_count(s.jobs()) == s.app.gpus@.len(),
        exists|j: int| 0 <= j < s.jobs().len() && (#[trigger] s.jobs()[j]).state is Running,
{
    assert(s.queue@.len() > 0);
    assert(s.free_gpus@.len() == 0);
    if forall|j: int| 0 <= j < s.jobs().len() ==> !((#[trigger] s.jobs()[j]).state is Running) {
        lemma_running_count_none(s.jobs());
        assert(false);
    }
}

/// Every job is in exactly one place: in the backlog exactly when
/// Queued, bound to one slot exactly when Running, and otherwise
/// terminal, where it stays.
pub proof fn lemma_job_in_exactly_one_place(s: &Scheduler, k: int)
    requires
        s.wf(),
        0 <= k < s.jobs().len(),
    ensures
        (s.jobs()[k].state is Queued) <==> exists|i: int|
            0 <= i < s.queue@.len() && (#[trigger] s.queue@[i]).id == k,
        s.jobs()[k].state is Running ==> s.is_slot_id(s.jobs()[k].state->gpu_id)
            && !s.free_gpus@.contains(s.jobs()[k].state->gpu_id),
        s.jobs()[k].state is Queued || s.jobs()[k].state is Running || is_terminal(
            s.jobs()[k].state,
        ),
{
    if s.jobs()[k].state is Running {
        let g = s.jobs()[k].state->gpu_id;
        assert(s.jobs()[k].state is Running && s.jobs()[k].state->gpu_id == g);
        assert(slot_bound(s.jobs(), g));
        if s.free_gpus@.contains(g) {
            let i = choose|i: int| 0 <= i < s.free_gpus@.len() && s.free_gpus@[i] == g;
            assert(!slot_bound(s.jobs(), s.free_gpus@[i]));
        }
    }
}

/// The slots owned by the Running jobs of `jobs`.
pub open spec fn running_slot_set(jobs: Seq<JobInfo>) -> Set<u32>
    decreases jobs.len(),
{
    if jobs.len() == 0 {
        Set::empty()
    } else if jobs.last().state is Running {
        running_slot_set(jobs.drop_last()).insert(jobs.last().state->gpu_id)
    } else {
        running_slot_set(jobs.drop_last())
    }
}

/// `running_slot_set` holds exactly the bound slots, and is finite.
proof fn lemma_running_slot_set_bound(jobs: Seq<JobInfo>)
    ensures
        running_slot_set(jobs).finite(),
        forall|g: u32| running_slot_set(jobs).contains(g) <==> slot_bound(jobs, g),
    decreases jobs.len(),
{
    if jobs.len() > 0 {
        let head = jobs.drop_last();
        lemma_running_slot_set_bound(head);
        let n = jobs.len() - 1;
        assert forall|g: u32| running_slot_set(jobs).contains(g) implies slot_bound(jobs, g) by {
            if jobs.last().state is Running && g == jobs.last().state->gpu_id {
                assert(jobs[n].state is Running && jobs[n].state->gpu_id == g);
            } else {
                assert(running_slot_set(head).contains(g));
                assert(slot_bound(head, g));
                let k = choose|k: int|
                    0 <= k < head.len() && (#[trigger] head[k]).state is Running && head[k].state->gpu_id == g;
                assert(jobs[k] == head[k]);
                assert(jobs[k].state is Running && jobs[k].state->gpu_id == g);
            }
        }
        assert forall|g: u32| slot_bound(jobs, g) implies running_slot_set(jobs).contains(g) by {
            let k = choose|k: int|
                0 <= k < jobs.len() && (#[trigger] jobs[k]).state is Running && jobs[k].state->gpu_id == g;
            if k < n {
                assert(head[k] == jobs[k]);
                assert(head[k].state is Running && head[k].state->gpu_id == g);
                assert(slot_bound(head, g));
                assert(running_slot_set(head).contains(g));
            }
        }
    }
}

/// When no two Running jobs share a slot, the bound slots are exactly as
/// many as the Running jobs.
proof fn lemma_running_slot_set_card(jobs: Seq<JobInfo>)
    requires
        forall|k1: int, k2: int|
            0 <= k1 < k2 < jobs.len() && jobs[k1].state is Running && jobs[k2].state is Running
                ==> jobs[k1].state->gpu_id != jobs[k2].state->gpu_id,
    ensures
        running_slot_set(jobs).len() == running_count(jobs),
    decreases jobs.len(),
{
    if jobs.len() > 0 {
        let head = jobs.drop_last();
        let n = jobs.len() - 1;
        assert forall|k1: int, k2: int|
            0 <= k1 < k2 < head.len() && head[k1].state is Running && head[k2].state is Running implies head[k1].state->gpu_id != head[k2].state->gpu_id by {
            assert(head[k1] == jobs[k1]);
            assert(head[k2] == jobs[k2]);
        }
        lemma_running_slot_set_card(head);
        lemma_running_slot_set_bound(head);
        if jobs.last().state is Running {
            let g = jobs.last().state->gpu_id;
            // the last job's slot is not bound in the prefix
            if running_slot_set(head).contains(g) {
                assert(slot_bound(head, g));
                let k = choose|k: int|
                    0 <= k < head.len() && (#[trigger] head[k]).state is Running && head[k].state->gpu_id == g;
                assert(head[k] == jobs[k]);
                assert(jobs[k].state is Running);
                assert(jobs[n].state is Running);
                assert(jobs[k].state->gpu_id != jobs[n].state->gpu_id);
                assert(false);
            }
        }
    }
}

/// A union of two disjoint finite sets has the sum of their sizes.
proof fn lemma_len_disjoint_union(s1: Set<u32>, s2: Set<u32>)
    requires
        s1.finite(),
        s2.finite(),
        forall|x: u32| !(s1.contains(x) && s2.contains(x)),
    ensures
        s1.union(s2).finite(),
        s1.union(s2).len() == s1.len() + s2.len(),
    decreases s2.len(),
{
    if s2.len() == 0 {
        s2.lemma_len0_is_empty();
        assert(s1.union(s2) =~= s1);
    } else {
        let y = s2.choose();
        assert(s2.contains(y));
        lemma_len_disjoint_union(s1, s2.remove(y));
        assert(s1.union(s2.remove(y)) =~= s1.union(s2).remove(y));
        assert(s1.union(s2).contains(y));
        assert(s1.union(s2) =~= s1.union(s2).remove(y).insert(y));
    }
}

/// Every slot is in the free pool or owned by exactly one Running job —
/// never both, and never neither. Ownership by at most one job is the
/// pairwise distinctness of Running slots; this lemma adds the two
/// remaining directions.
pub proof fn lemma_slot_pool_partition(s: &Scheduler, g: u32)
    requires
        s.wf(),
        s.is_slot_id(g),
    ensures
        s.free_gpus@.contains(g) <==> !slot_bound(s.jobs(), g),
{
    broadcast use vstd::seq_lib::seq_to_set_is_finite;

    let fr = s.free_gpus@;
    let f_set = fr.to_set();
    let r_set = running_slot_set(s.jobs());
    let gids = s.app.gpus@.map_values(|gi: GpuInfo| gi.id);
    let g_set = gids.to_set();
    lemma_running_slot_set_bound(s.jobs());
    // if the slot is free it is unbound, by the pool's own invariant
    if fr.contains(g) {
        let i = choose|i: int| 0 <= i < fr.len() && fr[i] == g;
        assert(!slot_bound(s.jobs(), fr[i]));
    }
    // sizes: |free| + |bound| accounts for every slot identifier
    assert(fr.no_duplicates()) by {
        assert forall|i: int, j: int|
            0 <= i < fr.len() && 0 <= j < fr.len() && i != j implies fr[i] != fr[j] by {
            if i < j {
                assert(fr[i] != fr[j]);
            } else {
                assert(fr[j] != fr[i]);
            }
        }
    }
    fr.unique_seq_to_set();
    assert(gids.no_duplicates()) by {
        assert forall|i: int, j: int|
            0 <= i < gids.len() && 0 <= j < gids.len() && i != j implies gids[i] != gids[j] by {
            assert(gids[i] == s.app.gpus@[i].id);
            assert(gids[j] == s.app.gpus@[j].id);
        }
    }
    gids.unique_seq_to_set();
    lemma_running_slot_set_card(s.jobs());
    // the free slots and the bound slots are disjoint sets of slot ids
    assert forall|x: u32| !(f_set.contains(x) && r_set.contains(x)) by {
        if f_set.contains(x) {
            let i = choose|i: int| 0 <= i < fr.len() && fr[i] == x;
            assert(!slot_bound(s.jobs(), fr[i]));
        }
    }
    lemma_len_disjoint_union(f_set, r_set);
    let u = f_set.union(r_set);
    assert(u.subset_of(g_set)) by {
        assert forall|x: u32| u.contains(x) implies g_set.contains(x) by {
            if f_set.contains(x) {
                let i = choose|i: int| 0 <= i < fr.len() && fr[i] == x;
                assert(s.is_slot_id(fr[i]));
                let k = choose|k: int|
                    0 <= k < s.app.gpus@.len() && (#[trigger] s.app.gpus@[k]).id == x;
                assert(gids[k] == x);
            } else {
                assert(r_set.contains(x));
                assert(slot_bound(s.jobs(), x));
                let k = choose|k: int|
                    0 <= k < s.jobs().len() && (#[trigger] s.jobs()[k]).state is Running && s.jobs()[k].state->gpu_id == x;
                assert(s.jobs()[k].state is Running);
                assert(s.is_slot_id(s.jobs()[k].state->gpu_id));
                assert(s.is_slot_id(x));
                let m = choose|m: int|
                    0 <= m < s.app.gpus@.len() && (#[trigger] s.app.gpus@[m]).id == x;
                assert(gids[m] == x);
            }
        }
    }
    assert(u.len() == g_set.len());
    // a slot id outside the union would make the union a strict subset,
    // which its size forbids
    if !f_set.contains(g) && !r_set.contains(g) {
        assert(g_set.contains(g)) by {
            let k = choose|k: int|
                0 <= k < s.app.gpus@.len() && (#[trigger] s.app.gpus@[k]).id == g;
            assert(gids[k] == g);
        }
        assert(u.subset_of(g_set.remove(g)));
        lemma_len_subset(u, g_set.remove(g));
        assert(g_set.remove(g).len() == g_set.len() - 1);
        assert(false);
    }
}

} // verus!
