//! Server console output kept in a bounded buffer. Each pushed line is
//! handed back for the program to stream to live subscribers.
use vstd::prelude::*;
use std::collections::VecDeque;

verus! {

/// Number of lines kept unless configured otherwise.
pub const DEFAULT_MAX_LINES: usize = 10000;

/// The buffer after one more line arrives: the last `max_lines` lines of
/// the buffer with the new line appended (nothing when the limit is zero).
pub open spec fn pushed(lines: Seq<String>, max_lines: nat, line: String) -> Seq<String> {
    last_lines(lines.push(line), max_lines)
}

/// The last `n` lines, or all of them if there are fewer.
pub open spec fn last_lines(lines: Seq<String>, n: nat) -> Seq<String> {
    if n >= lines.len() {
        lines
    } else {
        lines.subrange(lines.len() - n, lines.len() as int)
    }
}

/// Captures Minecraft server log output.
#[derive(Debug)]
pub struct LogManager {
    /// Lines, oldest first.
    buffer: VecDeque<String>,
    /// Maximum number of lines kept.
    max_lines: usize,
}

impl LogManager {
    /// The buffered lines, oldest first.
    pub closed spec fn lines(&self) -> Seq<String> {
        self.buffer@
    }

    /// The configured limit.
    pub closed spec fn limit(&self) -> nat {
        self.max_lines as nat
    }

    /// The buffer holds no more lines than the limit.
    pub open spec fn bounded(&self) -> bool {
        self.lines().len() <= self.limit()
    }

    /// A log manager keeping at most `max_lines` lines.
    pub fn new(max_lines: usize) -> (r: Self)
        ensures
            r.lines().len() == 0,
            r.limit() == max_lines,
            r.bounded(),
    {
        LogManager {
            buffer: VecDeque::new(),
            max_lines,
        }
    }

    /// Appends a line, evicting the oldest one once the limit is exceeded
    /// (with a limit of zero nothing is kept), and returns the line to
    /// broadcast to live subscribers.
    pub fn push(&mut self, line: String) -> (r: String)
        requires
            old(self).bounded(),
        ensures
            final(self).lines() == pushed(old(self).lines(), old(self).limit(), line),
            final(self).limit() == old(self).limit(),
            final(self).bounded(),
            r@ == line@,
    {
        let ghost kept = line;
        let ghost before = self.buffer@;
        let out = line.clone();
        if self.max_lines == 0 {
            assert(pushed(before, 0, kept) =~= Seq::<String>::empty());
            assert(before.len() == 0);
            assert(self.buffer@ =~= Seq::<String>::empty());
            return out;
        }
        if self.buffer.len() >= self.max_lines {
            let _ = self.buffer.pop_front();
        }
        self.buffer.push_back(line);
        proof {
            assert(self.buffer@ =~= pushed(before, self.max_lines as nat, kept));
        }
        out
    }

    /// The last `n` lines (or fewer if not enough history), oldest first.
    pub fn tail(&self, n: usize) -> (r: Vec<String>)
        ensures
            r@ == last_lines(self.lines(), n as nat),
    {
        let len = self.buffer.len();
        let start = if len >= n { len - n } else { 0 };
        let mut r: Vec<String> = Vec::new();
        let mut i: usize = start;
        while i < len
            invariant
                start <= i <= len,
                len == self.buffer@.len(),
                start == (if len >= n { len - n } else { 0 }),
                r@ == self.buffer@.subrange(start as int, i as int),
            decreases len - i,
        {
            r.push(self.buffer[i].clone());
            assert(r@ =~= self.buffer@.subrange(start as int, i + 1));
            i = i + 1;
        }
        assert(self.buffer@.subrange(0, len as int) =~= self.buffer@);
        r
    }

    /// All buffered lines, oldest first.
    pub fn all(&self) -> (r: Vec<String>)
        ensures
            r@ == self.lines(),
    {
        let r = self.tail(self.buffer.len());
        r
    }

    /// Number of buffered lines.
    pub fn len(&self) -> (n: usize)
        ensures
            n == self.lines().len(),
    {
        self.buffer.len()
    }

    /// Whether no line has been captured yet.
    pub fn is_empty(&self) -> (b: bool)
        ensures
            b == (self.lines().len() == 0),
    {
        self.buffer.len() == 0
    }

    /// Forgets all buffered lines.
    pub fn clear(&mut self)
        ensures
            final(self).lines().len() == 0,
            final(self).limit() == old(self).limit(),
            final(self).bounded(),
    {
        self.buffer.clear();
    }

    /// Sets the limit and drops the oldest lines beyond it.
    pub fn set_max_lines(&mut self, max: usize)
        ensures
            final(self).limit() == max,
            final(self).lines() == last_lines(old(self).lines(), max as nat),
            final(self).bounded(),
    {
        self.max_lines = max;
        while self.buffer.len() > self.max_lines
            invariant
                self.max_lines == max,
                self.buffer@.len() >= max || self.buffer@ == old(self).buffer@,
                self.buffer@ == last_lines(old(self).buffer@, self.buffer@.len()),
            decreases self.buffer@.len(),
        {
            let ghost before = self.buffer@;
            let _ = self.buffer.pop_front();
            proof {
                assert(self.buffer@ =~= before.drop_first());
                assert(last_lines(old(self).buffer@, self.buffer@.len()) =~= before.drop_first());
            }
        }
        proof {
            if old(self).buffer@.len() <= max {
                assert(self.buffer@ == old(self).buffer@);
            }
        }
    }
}

impl Default for LogManager {
    /// A log manager keeping the default number of lines.
    fn default() -> (r: Self)
        ensures
            r.lines().len() == 0,
            r.limit() == DEFAULT_MAX_LINES,
            r.bounded(),
    {
        LogManager::new(DEFAULT_MAX_LINES)
    }
}

/// The buffer never grows past its limit: a push keeps at most `max_lines`
/// lines, and keeps the new line unless the limit is zero.
pub proof fn law_push_stays_bounded(lines: Seq<String>, max_lines: nat, line: String)
    requires
        lines.len() <= max_lines,
    ensures
        pushed(lines, max_lines, line).len() <= max_lines,
        pushed(lines, max_lines, line).len() == if lines.len() + 1 <= max_lines {
            lines.len() + 1
        } else {
            max_lines
        },
        max_lines == 0 ==> pushed(lines, max_lines, line).len() == 0,
{
}

/// With a limit of at least one, a push followed by a tail of one line
/// gives back the pushed line.
pub proof fn law_push_then_tail(lines: Seq<String>, max_lines: nat, line: String)
    requires
        max_lines >= 1,
    ensures
        last_lines(pushed(lines, max_lines, line), 1) == seq![line],
{
    let p = pushed(lines, max_lines, line);
    assert(p.len() >= 1);
    assert(p[p.len() - 1] == line);
    assert(last_lines(p, 1) =~= seq![line]);
}

} // verus!
