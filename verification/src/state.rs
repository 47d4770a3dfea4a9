//! Published scheduler state: the slot (GPU) records, the job records with
//! their lifecycle states, and the snapshot structure an observer (a
//! dashboard or an idleness poller) reads. Also the observer-side
//! selection and scrolling decisions, kept here so they are checked.

use vstd::prelude::*;
use crate::log_buffer::LogBuffer;

verus! {

/// One exclusive execution slot, with its display name and the
/// free/total memory metrics an external poller refreshes.
#[derive(Clone, Debug)]
pub struct GpuInfo {
    pub id: u32,
    pub name: String,
    pub free_memory_mb: u64,
    pub total_memory_mb: u64,
}

/// Lifecycle of one job. `Queued` and `Running` may advance;
/// `Completed` and `Failed` are terminal.
#[derive(Clone, Copy, Debug, PartialEq, Eq, Structural)]
pub enum JobState {
    Queued,
    Running { gpu_id: u32 },
    Completed,
    Failed,
}

/// A job has reached a final state that no transition leaves.
pub open spec fn is_terminal(s: JobState) -> bool {
    s is Completed || s is Failed
}

/// The published record of one job: its identifier, its command line,
/// its current state, and its captured output.
#[derive(Clone)]
pub struct JobInfo {
    pub id: u64,
    pub cmd: String,
    pub state: JobState,
    pub log_lines: LogBuffer,
}

impl JobInfo {
    pub open spec fn wf(&self) -> bool {
        self.log_lines.wf()
    }
}

/// The snapshot every observer reads: slots, jobs, and the observer's
/// own navigation state (selection, scroll window, quit flag).
pub struct AppState {
    pub gpus: Vec<GpuInfo>,
    pub jobs: Vec<JobInfo>,
    pub selected_job: Option<usize>,
    pub should_quit: bool,
    pub job_scroll_offset: usize,
    pub job_panel_visible_height: usize,
}

impl AppState {
    /// The selection, when present, points at an existing job.
    pub open spec fn selection_wf(&self) -> bool {
        self.selected_job matches Some(i) ==> i < self.jobs@.len()
    }

    pub fn new() -> (r: AppState)
        ensures
            r.gpus@.len() == 0,
            r.jobs@.len() == 0,
            r.selected_job is None,
            !r.should_quit,
            r.job_scroll_offset == 0,
            r.job_panel_visible_height == 10,
            r.selection_wf(),
    {
        AppState {
            gpus: Vec::new(),
            jobs: Vec::new(),
            selected_job: None,
            should_quit: false,
            job_scroll_offset: 0,
            job_panel_visible_height: 10,
        }
    }

    /// When jobs exist and none is selected, select the first one.
    pub fn auto_select_first(&mut self)
        requires
            old(self).selection_wf(),
        ensures
            final(self).selected_job == (if old(self).selected_job is None
                && old(self).jobs@.len() > 0 { Some(0usize) } else { old(self).selected_job }),
            final(self).jobs == old(self).jobs,
            final(self).gpus == old(self).gpus,
            final(self).should_quit == old(self).should_quit,
            final(self).job_scroll_offset == old(self).job_scroll_offset,
            final(self).job_panel_visible_height == old(self).job_panel_visible_height,
            final(self).selection_wf(),
    {
        if self.selected_job.is_none() && self.jobs.len() > 0 {
            self.selected_job = Some(0);
        }
    }

    /// Every job has finished, one way or the other — the condition on
    /// which an attached dashboard exits on its own.
    pub fn all_jobs_done(&self) -> (r: bool)
        ensures
            r == (self.jobs@.len() > 0 && forall|i: int|
                0 <= i < self.jobs@.len() ==> is_terminal(self.jobs@[i].state)),
    {
        if self.jobs.len() == 0 {
            return false;
        }
        let mut k: usize = 0;
        while k < self.jobs.len()
            invariant
                k <= self.jobs@.len(),
                forall|i: int| 0 <= i < k ==> is_terminal(self.jobs@[i].state),
            decreases self.jobs@.len() - k,
        {
            match self.jobs[k].state {
                JobState::Completed => {},
                JobState::Failed => {},
                _ => {
                    return false;
                },
            }
            k += 1;
        }
        true
    }

    /// Move the selection one job up, clamping at the first job, and
    /// scroll the window up if the selection left it.
    pub fn select_prev(&mut self)
        requires
            old(self).selection_wf(),
        ensures
            final(self).selection_wf(),
            final(self).jobs == old(self).jobs,
            final(self).gpus == old(self).gpus,
            final(self).should_quit == old(self).should_quit,
            final(self).job_panel_visible_height == old(self).job_panel_visible_height,
            old(self).jobs@.len() == 0 ==> final(self).selected_job == old(self).selected_job
                && final(self).job_scroll_offset == old(self).job_scroll_offset,
            old(self).jobs@.len() > 0 ==> {
                let target = (match old(self).selected_job {
                    Some(i) => if i > 0 { (i - 1) as usize } else { 0usize },
                    None => 0usize,
                });
                &&& final(self).selected_job == Some(target)
                &&& final(self).job_scroll_offset == (if target
                    < old(self).job_scroll_offset { target } else {
                    old(self).job_scroll_offset
                })
            },
    {
        if self.jobs.len() > 0 {
            let target: usize = match self.selected_job {
                Some(i) => if i > 0 { i - 1 } else { 0 },
                None => 0,
            };
            self.selected_job = Some(target);
            if target < self.job_scroll_offset {
                self.job_scroll_offset = target;
            }
        }
    }

    /// Move the selection one job down, clamping at the last job, and
    /// scroll the window down if the selection left it.
    pub fn select_next(&mut self)
        requires
            old(self).selection_wf(),
        ensures
            final(self).selection_wf(),
            final(self).jobs == old(self).jobs,
            final(self).gpus == old(self).gpus,
            final(self).should_quit == old(self).should_quit,
            final(self).job_panel_visible_height == old(self).job_panel_visible_height,
            old(self).jobs@.len() == 0 ==> final(self).selected_job == old(self).selected_job
                && final(self).job_scroll_offset == old(self).job_scroll_offset,
            old(self).jobs@.len() > 0 ==> {
                let target = (match old(self).selected_job {
                    Some(i) => if i + 1 < old(self).jobs@.len() { (i + 1) as usize } else {
                        (old(self).jobs@.len() - 1) as usize
                    },
                    None => 0usize,
                });
                let vh = old(self).job_panel_visible_height;
                &&& final(self).selected_job == Some(target)
                &&& final(self).job_scroll_offset == (if vh > 0 && target
                    >= old(self).job_scroll_offset + vh { (target - (vh - 1)) as usize } else {
                    old(self).job_scroll_offset
                })
            },
    {
        if self.jobs.len() > 0 {
            let last: usize = self.jobs.len() - 1;
            let target: usize = match self.selected_job {
                Some(i) => if i < last { i + 1 } else { last },
                None => 0,
            };
            self.selected_job = Some(target);
            let vh = self.job_panel_visible_height;
            if vh > 0 && target >= vh && self.job_scroll_offset <= target - vh {
                self.job_scroll_offset = target - (vh - 1);
            }
        }
    }
}

} // verus!
