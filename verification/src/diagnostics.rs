//! The diagnostic log of an engine process: the most recent lines that went
//! to it and came from it.

use vstd::prelude::*;
use std::collections::VecDeque;

verus! {

/// How many lines a log keeps unless it is made with another capacity.
pub const DEFAULT_LOG_CAPACITY: usize = 256;

/// The last `n` elements of `lines`, or all of them when there are fewer.
pub open spec fn most_recent<T>(lines: Seq<T>, n: nat) -> Seq<T> {
    if lines.len() <= n {
        lines
    } else {
        lines.skip(lines.len() - n)
    }
}

/// Keeping the most recent lines as one goes gives the same as keeping all
/// lines and cutting at the end.
pub proof fn lemma_most_recent_push<T>(lines: Seq<T>, line: T, n: nat)
    ensures
        most_recent(most_recent(lines, n).push(line), n) == most_recent(lines.push(line), n),
        most_recent(lines, n).len() <= n,
{
    assert(most_recent(most_recent(lines, n).push(line), n) =~= most_recent(lines.push(line), n));
}

/// The strings of a queue, each by its characters.
pub open spec fn line_views(lines: Seq<String>) -> Seq<Seq<char>> {
    Seq::new(lines.len(), |i: int| lines[i]@)
}

/// A bounded log of lines, oldest first.
pub struct DiagnosticLog {
    capacity: usize,
    lines: VecDeque<String>,
}

impl View for DiagnosticLog {
    type V = Seq<Seq<char>>;

    closed spec fn view(&self) -> Seq<Seq<char>> {
        line_views(self.lines@)
    }
}

impl DiagnosticLog {
    /// How many lines the log keeps.
    pub closed spec fn capacity(&self) -> usize {
        self.capacity
    }

    /// The invariant of the type: the log holds no more than its capacity.
    #[verifier::type_invariant]
    pub closed spec fn wf(&self) -> bool {
        self.lines@.len() <= self.capacity
    }

    /// An empty log that keeps the `capacity` most recent lines.
    pub fn new(capacity: usize) -> (log: DiagnosticLog)
        ensures
            log.capacity() == capacity,
            log@ == Seq::<Seq<char>>::empty(),
    {
        let log = DiagnosticLog { capacity, lines: VecDeque::new() };
        proof {
            assert(log@ =~= Seq::<Seq<char>>::empty());
        }
        log
    }

    /// Appends a line; the oldest line goes when the log is full.
    pub fn record(&mut self, line: String)
        ensures
            final(self).capacity() == old(self).capacity(),
            final(self)@ == most_recent(old(self)@.push(line@), old(self).capacity() as nat),
    {
        proof {
            use_type_invariant(&*self);
        }
        let ghost before = self@;
        let ghost text = line@;
        if self.capacity == 0 {
            proof {
                assert(before.push(text).skip(before.push(text).len() - 0) =~= before);
            }
            return ;
        }
        let mut lines: VecDeque<String> = VecDeque::new();
        std::mem::swap(&mut self.lines, &mut lines);
        if lines.len() == self.capacity {
            let _ = lines.pop_front();
        }
        lines.push_back(line);
        proof {
            assert(line_views(lines@) =~= most_recent(before.push(text), self.capacity as nat));
        }
        self.lines = lines;
    }

    /// The number of lines in the log. Never more than its capacity.
    pub fn len(&self) -> (n: usize)
        ensures
            n == self@.len(),
            n <= self.capacity(),
    {
        proof {
            use_type_invariant(self);
        }
        self.lines.len()
    }

    /// The lines of the log, oldest first.
    pub fn lines(&self) -> (lines: Vec<String>)
        ensures
            line_views(lines@) == self@,
    {
        let mut out: Vec<String> = Vec::new();
        let mut i: usize = 0;
        while i < self.lines.len()
            invariant
                i <= self.lines@.len(),
                out@.len() == i,
                forall|j: int| 0 <= j < i ==> (#[trigger] out@[j])@ == self.lines@[j]@,
            decreases self.lines@.len() - i,
        {
            out.push(self.lines[i].clone());
            i += 1;
        }
        proof {
            assert(line_views(out@) =~= self@);
        }
        out
    }

    /// Empties the log.
    pub fn clear(&mut self)
        ensures
            final(self).capacity() == old(self).capacity(),
            final(self)@ == Seq::<Seq<char>>::empty(),
    {
        let mut lines: VecDeque<String> = VecDeque::new();
        std::mem::swap(&mut self.lines, &mut lines);
        proof {
            assert(self@ =~= Seq::<Seq<char>>::empty());
        }
    }
}

/// A log made of the lines `lines`, recorded one after another, holds the
/// most recent of them, as many as its capacity.
pub open spec fn recorded(lines: Seq<Seq<char>>, capacity: nat) -> Seq<Seq<char>>
    decreases lines.len(),
{
    if lines.len() == 0 {
        Seq::empty()
    } else {
        most_recent(recorded(lines.drop_last(), capacity).push(lines.last()), capacity)
    }
}

/// Whatever was recorded into an empty log, the log holds exactly the most
/// recent lines, as many as its capacity, in the order in which they came.
pub proof fn lemma_log_keeps_most_recent(lines: Seq<Seq<char>>, capacity: nat)
    ensures
        recorded(lines, capacity) == most_recent(lines, capacity),
    decreases lines.len(),
{
    if lines.len() > 0 {
        lemma_log_keeps_most_recent(lines.drop_last(), capacity);
        lemma_most_recent_push(lines.drop_last(), lines.last(), capacity);
        assert(lines.drop_last().push(lines.last()) =~= lines);
    } else {
        assert(most_recent(lines, capacity) =~= Seq::<Seq<char>>::empty());
    }
}

} // verus!
