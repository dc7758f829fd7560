//! The last lines a server wrote to its standard error, kept for error reports.
use vstd::prelude::*;

use crate::runtime::join_texts;
use crate::text::{chars_of, string_of, trim, trim_str};

verus! {

/// How many lines of a server's standard error are kept.
pub const MAX_CAPTURED_STDERR_LINES: usize = 80;

/// The last non-blank lines, trimmed, that a server wrote to its standard error: at
/// most `MAX_CAPTURED_STDERR_LINES`, oldest first.
pub struct StderrTail {
    lines: Vec<String>,
}

/// The texts of a list of strings.
pub open spec fn line_texts(v: Seq<String>) -> Seq<Seq<char>> {
    v.map_values(|s: String| s@)
}

/// The kept lines after `line` was written: unchanged where it is blank, else with
/// its trimmed text added last and, where the tail was full, the oldest line dropped.
pub open spec fn tail_after(kept: Seq<Seq<char>>, line: Seq<char>) -> Seq<Seq<char>> {
    let t = trim(line);
    if t.len() == 0 {
        kept
    } else if kept.len() >= MAX_CAPTURED_STDERR_LINES {
        kept.drop_first().push(t)
    } else {
        kept.push(t)
    }
}

impl View for StderrTail {
    type V = Seq<Seq<char>>;

    closed spec fn view(&self) -> Seq<Seq<char>> {
        line_texts(self.lines@)
    }
}

impl StderrTail {
    #[verifier::type_invariant]
    spec fn bounded(self) -> bool {
        self.lines@.len() <= MAX_CAPTURED_STDERR_LINES
    }

    /// An empty tail.
    pub fn new() -> (t: Self)
        ensures
            t@ == Seq::<Seq<char>>::empty(),
    {
        let t = StderrTail { lines: Vec::new() };
        assert(t@ =~= Seq::<Seq<char>>::empty());
        t
    }

    /// How many lines are kept: never more than `MAX_CAPTURED_STDERR_LINES`.
    pub fn len(&self) -> (n: usize)
        ensures
            n == self@.len(),
            n <= MAX_CAPTURED_STDERR_LINES,
    {
        proof {
            use_type_invariant(self);
        }
        self.lines.len()
    }

    /// Records one line of standard error.
    pub fn record(&mut self, line: &str)
        ensures
            final(self)@ == tail_after(old(self)@, line@),
    {
        proof {
            use_type_invariant(&*self);
        }
        let t = trim_str(line);
        if t.as_str().is_empty() {
            return;
        }
        let mut lines: Vec<String> = Vec::new();
        std::mem::swap(&mut lines, &mut self.lines);
        let ghost before = line_texts(lines@);
        if lines.len() >= MAX_CAPTURED_STDERR_LINES {
            lines.remove(0);
            assert(line_texts(lines@) =~= before.drop_first());
        }
        let ghost mid = line_texts(lines@);
        let ghost tv = t@;
        lines.push(t);
        assert(line_texts(lines@) =~= mid.push(tv));
        self.lines = lines;
    }

    /// The kept lines, oldest first, joined by newlines.
    pub fn snapshot(&self) -> (s: String)
        ensures
            s@ == join_texts(self@, "\n"@),
    {
        proof {
            reveal_strlit("\n");
        }
        let mut out: Vec<char> = Vec::new();
        let mut i: usize = 0;
        let ghost all = line_texts(self.lines@);
        assert(all.take(0) =~= Seq::<Seq<char>>::empty());
        while i < self.lines.len()
            invariant
                i <= self.lines@.len(),
                all == line_texts(self.lines@),
                out@ == join_texts(all.take(i as int), "\n"@),
                "\n"@ == seq!['\n'],
            decreases self.lines@.len() - i,
        {
            let cs = chars_of(self.lines[i].as_str());
            let ghost before = out@;
            if i > 0 {
                out.push('\n');
            }
            let mut k: usize = 0;
            let ghost mid = out@;
            while k < cs.len()
                invariant
                    k <= cs@.len(),
                    out@ == mid + cs@.take(k as int),
                decreases cs@.len() - k,
            {
                out.push(cs[k]);
                assert(cs@.take(k as int + 1) == cs@.take(k as int).push(cs@[k as int]));
                k += 1;
            }
            assert(cs@.take(cs@.len() as int) == cs@);
            assert(all.take(i as int + 1).drop_last() == all.take(i as int));
            if i > 0 {
                assert(out@ =~= before + "\n"@ + all[i as int]);
            } else {
                assert(all.take(1) =~= seq![all[0]]);
                assert(out@ =~= all[0]);
            }
            i += 1;
        }
        assert(all.take(self.lines@.len() as int) == all);
        string_of(out.as_slice())
    }
}

} // verus!
