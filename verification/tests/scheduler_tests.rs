use gparallel::log_buffer::LOG_CAPACITY;
use gparallel::scheduler::{ExitAction, SchedError, Scheduler, SubmitOutcome};
use gparallel::state::{GpuInfo, JobState};

fn gpu(id: u32) -> GpuInfo {
    GpuInfo {
        id,
        name: format!("GPU{}", id),
        free_memory_mb: 0,
        total_memory_mb: 0,
    }
}

fn sched(n: u32) -> Scheduler {
    let gpus: Vec<GpuInfo> = (0..n).map(gpu).collect();
    Scheduler::new(gpus).expect("slots available")
}

#[test]
fn new_with_no_gpus_fails() {
    let r = Scheduler::new(Vec::new());
    assert!(matches!(r, Err(SchedError::NoGpus)));
}

#[test]
fn new_populates_free_pool_in_order() {
    let s = sched(3);
    assert_eq!(s.free_gpus.len(), 3);
    assert_eq!(s.free_gpus[0], 0);
    assert_eq!(s.free_gpus[1], 1);
    assert_eq!(s.free_gpus[2], 2);
    assert!(s.is_idle());
}

#[test]
fn submit_launches_on_free_slot() {
    let mut s = sched(1);
    let (id, out) = s.submit(String::from("echo hi"));
    assert_eq!(id, 0);
    match out {
        SubmitOutcome::Launch { gpu } => assert_eq!(gpu, 0),
        SubmitOutcome::Enqueued => panic!("expected immediate launch"),
    }
    assert_eq!(s.app.jobs[0].state, JobState::Running { gpu_id: 0 });
    assert_eq!(s.app.jobs[0].cmd, "echo hi");
}

#[test]
fn submit_queues_when_no_slot_free() {
    let mut s = sched(1);
    let (_a, _) = s.submit(String::from("first"));
    let (b, out) = s.submit(String::from("second"));
    assert_eq!(b, 1);
    assert!(matches!(out, SubmitOutcome::Enqueued));
    assert_eq!(s.app.jobs[1].state, JobState::Queued);
    assert_eq!(s.queue.len(), 1);
}

#[test]
fn submit_while_idle_flips_idleness_immediately() {
    let mut s = sched(2);
    assert!(s.is_idle());
    s.submit(String::from("work"));
    assert!(!s.is_idle());
}

#[test]
fn at_most_as_many_running_as_slots() {
    let mut s = sched(2);
    s.submit(String::from("a"));
    s.submit(String::from("b"));
    s.submit(String::from("c"));
    // slots are handed out in pool order
    assert_eq!(s.app.jobs[0].state, JobState::Running { gpu_id: 0 });
    assert_eq!(s.app.jobs[1].state, JobState::Running { gpu_id: 1 });
    let running = s
        .app
        .jobs
        .iter()
        .filter(|j| matches!(j.state, JobState::Running { .. }))
        .count();
    assert_eq!(running, 2);
    assert_eq!(s.app.jobs[2].state, JobState::Queued);
}

#[test]
fn slot_reuse_runs_three_jobs_sequentially_without_pool_round_trip() {
    let mut s = sched(1);
    for i in 0..3u64 {
        let (id, _) = s.submit(format!("job {}", i));
        assert_eq!(id, i);
    }
    assert_eq!(s.free_gpus.len(), 0);

    // first exit hands the slot straight to the second job
    match s.on_exit(0, true) {
        ExitAction::LaunchNext { job, gpu } => {
            assert_eq!(job.id, 1);
            assert_eq!(gpu, 0);
        }
        ExitAction::Released { .. } => panic!("queue was not empty"),
    }
    assert_eq!(s.free_gpus.len(), 0, "slot must not visit the pool");
    assert_eq!(s.app.jobs[1].state, JobState::Running { gpu_id: 0 });

    match s.on_exit(1, true) {
        ExitAction::LaunchNext { job, gpu } => {
            assert_eq!(job.id, 2);
            assert_eq!(gpu, 0);
        }
        ExitAction::Released { .. } => panic!("queue was not empty"),
    }
    assert_eq!(s.free_gpus.len(), 0, "slot must not visit the pool");
    assert_eq!(s.app.jobs[2].state, JobState::Running { gpu_id: 0 });

    // last exit finally releases the slot
    match s.on_exit(2, true) {
        ExitAction::Released { gpu } => assert_eq!(gpu, 0),
        ExitAction::LaunchNext { .. } => panic!("queue should be empty"),
    }
    assert_eq!(s.free_gpus.len(), 1);
    assert!(s.is_idle());
    for i in 0..3 {
        assert_eq!(s.app.jobs[i].state, JobState::Completed);
    }
}

#[test]
fn end_to_end_two_commands_one_slot() {
    let mut s = sched(1);
    let (a, out_a) = s.submit(String::from("sleep 1 && echo A"));
    assert!(matches!(out_a, SubmitOutcome::Launch { gpu: 0 }));
    let (b, out_b) = s.submit(String::from("echo B"));
    assert!(matches!(out_b, SubmitOutcome::Enqueued));

    // B stays queued while A runs
    assert_eq!(s.app.jobs[b as usize].state, JobState::Queued);
    assert_eq!(s.app.jobs[a as usize].state, JobState::Running { gpu_id: 0 });

    // A completes; B is promoted onto the same slot
    match s.on_exit(a, true) {
        ExitAction::LaunchNext { job, gpu } => {
            assert_eq!(job.id, b);
            assert_eq!(job.cmd, "echo B");
            assert_eq!(gpu, 0);
        }
        ExitAction::Released { .. } => panic!("B was queued"),
    }
    assert_eq!(s.app.jobs[a as usize].state, JobState::Completed);
    assert_eq!(s.app.jobs[b as usize].state, JobState::Running { gpu_id: 0 });

    match s.on_exit(b, true) {
        ExitAction::Released { gpu } => assert_eq!(gpu, 0),
        ExitAction::LaunchNext { .. } => panic!("nothing left to run"),
    }
    assert_eq!(s.app.jobs[b as usize].state, JobState::Completed);
    assert!(s.is_idle());
}

#[test]
fn spawn_failure_marks_failed_and_keeps_slot_busy() {
    let mut s = sched(1);
    let (a, _) = s.submit(String::from("no-such-binary"));
    let (b, _) = s.submit(String::from("echo ok"));
    // the launch failed: the job is failed and the backlog is drained
    match s.on_exit(a, false) {
        ExitAction::LaunchNext { job, gpu } => {
            assert_eq!(job.id, b);
            assert_eq!(gpu, 0);
        }
        ExitAction::Released { .. } => panic!("queue was not empty"),
    }
    assert_eq!(s.app.jobs[a as usize].state, JobState::Failed);
    assert_eq!(s.app.jobs[b as usize].state, JobState::Running { gpu_id: 0 });
    match s.on_exit(b, true) {
        ExitAction::Released { gpu } => assert_eq!(gpu, 0),
        ExitAction::LaunchNext { .. } => panic!("nothing left to run"),
    }
    assert!(s.is_idle());
}

#[test]
fn failed_and_completed_are_terminal_record_states() {
    let mut s = sched(2);
    let (a, _) = s.submit(String::from("a"));
    let (b, _) = s.submit(String::from("b"));
    s.on_exit(a, false);
    assert!(!s.is_idle(), "one job is still running");
    s.on_exit(b, true);
    assert_eq!(s.app.jobs[a as usize].state, JobState::Failed);
    assert_eq!(s.app.jobs[b as usize].state, JobState::Completed);
    assert!(s.is_idle());
}

#[test]
fn termination_sweep_targets_all_running_then_nothing() {
    let mut s = sched(2);
    let (a, _) = s.submit(String::from("stubborn 1"));
    let (b, _) = s.submit(String::from("stubborn 2"));
    s.record_pid(a, 1111);
    s.record_pid(b, 2222);

    // first pass targets both tracked processes
    let targets = s.termination_targets();
    assert_eq!(targets, vec![1111, 2222]);

    // both processes were killed and their exits reported
    s.on_exit(a, false);
    s.on_exit(b, false);

    // a second sweep has nothing left to signal
    let again = s.termination_targets();
    assert!(again.is_empty());
    let once_more = s.termination_targets();
    assert!(once_more.is_empty());
}

#[test]
fn log_lines_arrive_in_order() {
    let mut s = sched(1);
    let (a, _) = s.submit(String::from("printer"));
    s.append_log(a, String::from("a"), false);
    s.append_log(a, String::from("b"), false);
    let log = &s.app.jobs[a as usize].log_lines;
    assert_eq!(log.len(), 2);
    assert_eq!(log.line_at(0).text, "a");
    assert_eq!(log.line_at(1).text, "b");
    assert!(!log.line_at(0).from_stderr);
}

#[test]
fn stderr_lines_are_tagged() {
    let mut s = sched(1);
    let (a, _) = s.submit(String::from("mixed"));
    s.append_log(a, String::from("out"), false);
    s.append_log(a, String::from("err"), true);
    let log = &s.app.jobs[a as usize].log_lines;
    assert!(!log.line_at(0).from_stderr);
    assert!(log.line_at(1).from_stderr);
}

#[test]
fn log_buffer_keeps_last_thousand_of_fifteen_hundred() {
    let mut s = sched(1);
    let (a, _) = s.submit(String::from("chatty"));
    for i in 0..1500 {
        s.append_log(a, format!("line {}", i), false);
    }
    let log = &s.app.jobs[a as usize].log_lines;
    assert_eq!(log.len(), LOG_CAPACITY);
    assert_eq!(log.line_at(0).text, "line 500");
    assert_eq!(log.line_at(999).text, "line 1499");
    // still in order throughout
    assert_eq!(log.line_at(1).text, "line 501");
    assert_eq!(log.line_at(998).text, "line 1498");
}

#[test]
fn gpu_memory_refresh_touches_only_the_named_slot() {
    let mut s = sched(2);
    s.update_gpu_memory(1, 2048, 8192);
    assert_eq!(s.app.gpus[0].free_memory_mb, 0);
    assert_eq!(s.app.gpus[0].total_memory_mb, 0);
    assert_eq!(s.app.gpus[1].free_memory_mb, 2048);
    assert_eq!(s.app.gpus[1].total_memory_mb, 8192);
    assert_eq!(s.app.gpus[1].name, "GPU1");
    // an unknown slot identifier is ignored
    s.update_gpu_memory(7, 1, 1);
    assert_eq!(s.app.gpus[0].free_memory_mb, 0);
    assert_eq!(s.app.gpus[1].free_memory_mb, 2048);
}

#[test]
fn job_ids_are_assigned_in_submission_order() {
    let mut s = sched(1);
    for expect in 0..5u64 {
        let (id, _) = s.submit(format!("c{}", expect));
        assert_eq!(id, expect);
    }
    for i in 0..5usize {
        assert_eq!(s.app.jobs[i].id, i as u64);
    }
}
