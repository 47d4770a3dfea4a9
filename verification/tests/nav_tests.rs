use gparallel::scheduler::Scheduler;
use gparallel::state::{AppState, GpuInfo, JobState};

fn populated(n: u64) -> AppState {
    let gpus = vec![GpuInfo {
        id: 0,
        name: String::from("GPU0"),
        free_memory_mb: 0,
        total_memory_mb: 0,
    }];
    let mut s = Scheduler::new(gpus).expect("one slot");
    for i in 0..n {
        s.submit(format!("cmd {}", i));
    }
    s.app
}

#[test]
fn new_app_state_defaults() {
    let a = AppState::new();
    assert!(a.gpus.is_empty());
    assert!(a.jobs.is_empty());
    assert!(a.selected_job.is_none());
    assert!(!a.should_quit);
    assert_eq!(a.job_scroll_offset, 0);
    assert_eq!(a.job_panel_visible_height, 10);
}

#[test]
fn auto_select_picks_first_job_once() {
    let mut a = populated(3);
    assert!(a.selected_job.is_none());
    a.auto_select_first();
    assert_eq!(a.selected_job, Some(0));
    a.selected_job = Some(2);
    a.auto_select_first();
    assert_eq!(a.selected_job, Some(2), "an existing selection is kept");
}

#[test]
fn auto_select_does_nothing_without_jobs() {
    let mut a = AppState::new();
    a.auto_select_first();
    assert!(a.selected_job.is_none());
}

#[test]
fn select_next_clamps_at_last_job() {
    let mut a = populated(3);
    a.auto_select_first();
    a.select_next();
    assert_eq!(a.selected_job, Some(1));
    a.select_next();
    assert_eq!(a.selected_job, Some(2));
    a.select_next();
    assert_eq!(a.selected_job, Some(2));
}

#[test]
fn select_prev_clamps_at_first_job() {
    let mut a = populated(2);
    a.selected_job = Some(1);
    a.select_prev();
    assert_eq!(a.selected_job, Some(0));
    a.select_prev();
    assert_eq!(a.selected_job, Some(0));
}

#[test]
fn selection_scrolls_the_visible_window() {
    let mut a = populated(10);
    a.job_panel_visible_height = 3;
    a.auto_select_first();
    for _ in 0..4 {
        a.select_next();
    }
    // selection is on job 4; a window of 3 must have scrolled down to show it
    assert_eq!(a.selected_job, Some(4));
    assert_eq!(a.job_scroll_offset, 2);
    // moving back above the window scrolls up
    for _ in 0..3 {
        a.select_prev();
    }
    assert_eq!(a.selected_job, Some(1));
    assert_eq!(a.job_scroll_offset, 1);
}

#[test]
fn all_jobs_done_requires_every_job_terminal() {
    let mut a = AppState::new();
    assert!(!a.all_jobs_done(), "no jobs at all is not done");

    let gpus = vec![GpuInfo {
        id: 0,
        name: String::from("GPU0"),
        free_memory_mb: 0,
        total_memory_mb: 0,
    }];
    let mut s = Scheduler::new(gpus).expect("one slot");
    let (x, _) = s.submit(String::from("one"));
    let (y, _) = s.submit(String::from("two"));
    assert!(!s.app.all_jobs_done());
    s.on_exit(x, true);
    assert!(!s.app.all_jobs_done(), "second job is still running");
    s.on_exit(y, false);
    assert!(s.app.all_jobs_done());
    assert_eq!(s.app.jobs[x as usize].state, JobState::Completed);
    assert_eq!(s.app.jobs[y as usize].state, JobState::Failed);

    a.jobs = s.app.jobs;
    assert!(a.all_jobs_done());
}
