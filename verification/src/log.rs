//! Log lines and the bounded history of them the settings window shows.
use vstd::prelude::*;
use std::collections::VecDeque;

verus! {

/// How serious a log line is.
#[derive(Debug, Clone, Copy, PartialEq, Eq, Structural)]
pub enum LogLevel {
    Info,
    Warn,
    Error,
}

/// One line of the log.
#[derive(Debug)]
pub struct LogLine {
    pub level: LogLevel,
    pub message: String,
}

impl Clone for LogLine {
    fn clone(&self) -> (r: Self)
        ensures
            r == *self,
    {
        LogLine { level: self.level, message: self.message.clone() }
    }
}

/// How many lines the history keeps.
pub const LOG_HISTORY: usize = 500;

/// What a history holding `lines` keeps of them: the newest `LOG_HISTORY`.
pub open spec fn newest(lines: Seq<LogLine>) -> Seq<LogLine> {
    if lines.len() > LOG_HISTORY {
        lines.skip(lines.len() - LOG_HISTORY)
    } else {
        lines
    }
}

/// The recent log lines, oldest first, never more than `LOG_HISTORY` of them.
pub struct LogHistory {
    lines: VecDeque<LogLine>,
}

impl View for LogHistory {
    type V = Seq<LogLine>;

    closed spec fn view(&self) -> Seq<LogLine> {
        self.lines@
    }
}

impl LogHistory {
    #[verifier::type_invariant]
    spec fn bounded(self) -> bool {
        self.lines@.len() <= LOG_HISTORY
    }

    /// An empty history.
    pub fn new() -> (h: Self)
        ensures
            h@ == Seq::<LogLine>::empty(),
    {
        LogHistory { lines: VecDeque::new() }
    }

    /// The number of lines held.
    pub fn len(&self) -> (n: usize)
        ensures
            n == self@.len(),
            n <= LOG_HISTORY,
    {
        proof {
            use_type_invariant(self);
        }
        self.lines.len()
    }

    /// Adds a line, letting the oldest go once the history is full.
    pub fn push(&mut self, line: LogLine)
        ensures
            final(self)@ == newest(old(self)@.push(line)),
            final(self)@.len() <= LOG_HISTORY,
    {
        proof {
            use_type_invariant(&*self);
        }
        let mut lines: VecDeque<LogLine> = VecDeque::new();
        std::mem::swap(&mut lines, &mut self.lines);
        let ghost before = lines@;
        if lines.len() == LOG_HISTORY {
            let _ = lines.pop_front();
        }
        lines.push_back(line);
        proof {
            if before.len() == LOG_HISTORY {
                assert(lines@ =~= before.push(line).skip(1));
            }
        }
        self.lines = lines;
    }

    /// The lines held, oldest first.
    pub fn recent(&self) -> (v: Vec<LogLine>)
        ensures
            v@ == self@,
    {
        let mut v: Vec<LogLine> = Vec::new();
        let mut i: usize = 0;
        while i < self.lines.len()
            invariant
                i <= self.lines@.len(),
                v@ == self.lines@.subrange(0, i as int),
            decreases self.lines@.len() - i,
        {
            v.push(self.lines[i].clone());
            i = i + 1;
            assert(v@ =~= self.lines@.subrange(0, i as int));
        }
        assert(v@ =~= self.lines@);
        v
    }
}

/// What a history that started empty holds after `pushed` went in, one line after the other.
pub open spec fn history_after(pushed: Seq<LogLine>) -> Seq<LogLine>
    decreases pushed.len(),
{
    if pushed.len() == 0 {
        Seq::empty()
    } else {
        newest(history_after(pushed.drop_last()).push(pushed.last()))
    }
}

/// Law: however many lines went in, the history holds exactly the newest `LOG_HISTORY` of them,
/// in the order they came.
pub proof fn lemma_history_keeps_newest(pushed: Seq<LogLine>)
    ensures
        history_after(pushed) == newest(pushed),
    decreases pushed.len(),
{
    if pushed.len() > 0 {
        let rest = pushed.drop_last();
        lemma_history_keeps_newest(rest);
        assert(pushed =~= rest.push(pushed.last()));
        if rest.len() > LOG_HISTORY {
            assert(newest(rest).push(pushed.last()) =~= pushed.skip(rest.len() - LOG_HISTORY));
            assert(newest(newest(rest).push(pushed.last())) =~= newest(pushed));
        }
    }
}

} // verus!
