//! A slot-pool job scheduler: a finite set of exclusive execution slots
//! (GPUs), a FIFO backlog of shell commands, one supervised process per
//! running job, bounded per-job log capture, and a two-phase termination
//! sweep. This crate holds the scheduler's state machine and its
//! invariants; an embedding runtime performs the process and terminal
//! I/O that the returned actions ask for and feeds the outcomes back in.

pub mod log_buffer;
pub mod scheduler;
pub mod state;
