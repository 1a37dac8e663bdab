//! Data necessary to print a progress report.

use vstd::prelude::*;

verus! {

/// A monotonically maintained estimate of the total amount of work, next
/// to the amount already done.
pub struct ProgressStatus {
    pub total_no: usize,
    pub processed_no: usize,
}

impl ProgressStatus {
    /// `more` hints how many elements are left to be processed after the
    /// current one. Hints which indicate fewer elements than estimated
    /// previously will be disregarded: the estimate never decreases.
    pub fn estimate_more(&mut self, more: usize)
        requires
            old(self).processed_no + more <= usize::MAX,
        ensures
            final(self).processed_no == old(self).processed_no,
            final(self).total_no == (if old(self).total_no
                < old(self).processed_no + more {
                old(self).processed_no + more
            } else {
                old(self).total_no as int
            }),
            final(self).total_no >= old(self).total_no,
    {
        let new_total_no = self.processed_no + more;
        if self.total_no < new_total_no {
            self.total_no = new_total_no;
        }
    }

    /// Should be called each time an element is processed. The total grows
    /// along when it would otherwise be overtaken.
    pub fn processed(&mut self)
        requires
            old(self).processed_no < usize::MAX,
        ensures
            final(self).processed_no == old(self).processed_no + 1,
            final(self).total_no == (if old(self).total_no == old(self).processed_no {
                old(self).total_no + 1
            } else {
                old(self).total_no as int
            }),
            final(self).total_no >= old(self).total_no,
            old(self).processed_no <= old(self).total_no ==> final(self).processed_no
                <= final(self).total_no,
    {
        if self.total_no == self.processed_no {
            self.total_no = self.total_no + 1;
        }
        self.processed_no = self.processed_no + 1;
    }
}

impl Default for ProgressStatus {
    /// Starts with nothing processed and nothing expected.
    fn default() -> (r: Self)
        ensures
            r.total_no == 0,
            r.processed_no == 0,
    {
        Self { total_no: 0, processed_no: 0 }
    }
}

/// One whole progress step as a function on `(processed, total)`: what
/// `processed()` followed by `estimate_more(more)` does to the state.
pub open spec fn spec_progress_step(s: (nat, nat), more: nat) -> (nat, nat) {
    let p = s.0 + 1;
    let grown = if s.1 == s.0 {
        s.1 + 1
    } else {
        s.1
    };
    let t = if grown < p + more {
        p + more
    } else {
        grown
    };
    (p, t)
}

/// The state after processing `remaining` further elements, each step
/// hinting how many are left after it.
pub open spec fn run_progress(s: (nat, nat), remaining: nat) -> (nat, nat)
    decreases remaining,
{
    if remaining == 0 {
        s
    } else {
        run_progress(spec_progress_step(s, (remaining - 1) as nat), (remaining - 1) as nat)
    }
}

/// Progress converges: as long as the current estimate does not exceed the
/// true final count, the estimate is monotonically non-decreasing across
/// the remaining steps, never exceeds the true count, and equals it from
/// the first step on.
pub proof fn lemma_progress_converges(s: (nat, nat), remaining: nat)
    requires
        s.0 <= s.1,
        s.1 <= s.0 + remaining,
    ensures
        run_progress(s, remaining).0 == s.0 + remaining,
        run_progress(s, remaining).1 >= s.1,
        run_progress(s, remaining).1 <= s.0 + remaining,
        remaining > 0 ==> run_progress(s, remaining).1 == s.0 + remaining,
    decreases remaining,
{
    if remaining > 0 {
        let s2 = spec_progress_step(s, (remaining - 1) as nat);
        assert(s2.1 == s.0 + remaining);
        lemma_progress_converges(s2, (remaining - 1) as nat);
    }
}

} // verus!
