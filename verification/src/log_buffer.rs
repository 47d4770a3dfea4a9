//! Bounded per-job log capture: an append-only ring of output lines that
//! keeps the most recent `LOG_CAPACITY` lines, oldest evicted first.

use vstd::prelude::*;

verus! {

/// Maximum number of captured lines a job retains.
pub const LOG_CAPACITY: usize = 1000;

/// One captured line of process output. Lines read from standard error
/// are tagged distinctly from standard output lines.
#[derive(Clone, Debug)]
pub struct LogLine {
    pub text: String,
    pub from_stderr: bool,
}

/// What a bounded buffer retains of a full history of appended lines:
/// the last `LOG_CAPACITY` of them, in order.
pub open spec fn retained(history: Seq<LogLine>) -> Seq<LogLine> {
    if history.len() <= LOG_CAPACITY {
        history
    } else {
        history.skip(history.len() - LOG_CAPACITY)
    }
}

/// A bounded ring buffer of captured output lines. `history` records every
/// line ever appended; the buffer itself holds exactly `retained(history)`.
#[derive(Clone)]
pub struct LogBuffer {
    lines: Vec<LogLine>,
    history: Ghost<Seq<LogLine>>,
}

impl LogBuffer {
    /// The lines currently held, oldest first.
    pub closed spec fn view(&self) -> Seq<LogLine> {
        self.lines@
    }

    /// Every line ever appended, oldest first.
    pub closed spec fn history(&self) -> Seq<LogLine> {
        self.history@
    }

    /// The buffer holds exactly the last `LOG_CAPACITY` lines of its
    /// append history — never more than its capacity.
    pub open spec fn wf(&self) -> bool {
        self@ == retained(self.history())
    }

    pub fn new() -> (r: LogBuffer)
        ensures
            r.wf(),
            r.history() == Seq::<LogLine>::empty(),
            r@ == Seq::<LogLine>::empty(),
    {
        LogBuffer { lines: Vec::new(), history: Ghost(Seq::empty()) }
    }

    /// Append one line; if the buffer is full, the oldest line is evicted
    /// first, so the buffer always holds the most recent lines in order.
    pub fn push(&mut self, line: LogLine)
        requires
            old(self).wf(),
        ensures
            final(self).wf(),
            final(self).history() == old(self).history().push(line),
            final(self)@ == retained(old(self).history().push(line)),
    {
        proof {
            lemma_retained_push(self.history@, line);
        }
        if self.lines.len() >= LOG_CAPACITY {
            self.lines.remove(0);
        }
        self.lines.push(line);
        self.history = Ghost(self.history@.push(line));
    }

    pub fn len(&self) -> (r: usize)
        ensures
            r == self@.len(),
    {
        self.lines.len()
    }

    pub fn is_empty(&self) -> (r: bool)
        ensures
            r == (self@.len() == 0),
    {
        self.lines.len() == 0
    }

    /// Read the line at `i`, counting from the oldest retained line.
    pub fn line_at(&self, i: usize) -> (r: &LogLine)
        requires
            i < self@.len(),
        ensures
            *r == self@[i as int],
    {
        &self.lines[i]
    }
}

/// A well-formed buffer holds exactly the most recent lines of its
/// append history — `LOG_CAPACITY` of them once the history is longer
/// than that — in append order: line `i` of the buffer is line
/// `n - len + i` of the `n`-line history.
pub proof fn lemma_buffer_is_recent_suffix(b: &LogBuffer)
    requires
        b.wf(),
    ensures
        b@.len() == if b.history().len() <= LOG_CAPACITY {
            b.history().len()
        } else {
            LOG_CAPACITY as nat
        },
        forall|i: int|
            0 <= i < b@.len() ==> b@[i] == b.history()[b.history().len() - b@.len() + i],
{
}

/// Appending to the retained suffix of a history and then re-trimming it
/// yields the retained suffix of the extended history.
proof fn lemma_retained_push(history: Seq<LogLine>, line: LogLine)
    ensures
        retained(history.push(line)) == if retained(history).len() < LOG_CAPACITY {
            retained(history).push(line)
        } else {
            (retained(history).skip(1)).push(line)
        },
{
    let extended = history.push(line);
    if history.len() < LOG_CAPACITY {
        assert(retained(extended) =~= retained(history).push(line));
    } else {
        assert(retained(extended) =~= (retained(history).skip(1)).push(line));
    }
}

} // verus!
