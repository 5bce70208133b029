//! The order of work in one pass of the recursive analysis / synthesis tree.
//!
//! A bank of `n` stages splits a buffer at stage 0, hands the low band down to
//! stage 1, and so on; the deepest low band (the residual) is shown to the
//! caller first, then, while the recursion unwinds, each stage shows its high
//! band (the detail) and recombines both bands into the buffer it split.
use vstd::prelude::*;

verus! {

/// `2^n`.
pub open spec fn two_to(n: nat) -> nat
    decreases n,
{
    if n == 0 {
        1
    } else {
        2 * two_to((n - 1) as nat)
    }
}

/// One piece of work in a pass over a bank of stages.
#[derive(Debug, Clone, Copy, PartialEq, Eq)]
pub enum Step {
    /// Split the buffer of this stage into its low and high bands.
    Analyze(usize),
    /// Show the low band of this stage, the deepest one, as the residual band.
    Residual(usize),
    /// Show the high band of this stage as its detail band.
    Detail(usize),
    /// Recombine the two bands of this stage into the buffer it split.
    Synthesize(usize),
    /// The pass is over.
    Done,
}

/// The band index that the caller is shown with a step, if the step shows a band:
/// the residual of the deepest stage `k` is band `k + 1`, the detail of stage `k` is band `k`.
pub open spec fn band_index(s: Step) -> Option<nat> {
    match s {
        Step::Residual(k) => Some((k + 1) as nat),
        Step::Detail(k) => Some(k as nat),
        _ => None,
    }
}

/// The `i`-th step of a pass over `n` stages: analysis from stage 0 down to
/// stage `n - 1`, the residual, then for each stage from `n - 1` up to 0 its
/// detail followed by its synthesis.
pub open spec fn step_at(n: nat, i: nat) -> Step {
    if i < n {
        Step::Analyze(i as usize)
    } else if i == n {
        Step::Residual((n - 1) as usize)
    } else if i <= 3 * n {
        let j = (i - n - 1) as nat;
        let k = (n - 1 - j / 2) as usize;
        if j % 2 == 0 {
            Step::Detail(k)
        } else {
            Step::Synthesize(k)
        }
    } else {
        Step::Done
    }
}

/// The number of steps in a pass over `n` stages, `Done` left out.
pub open spec fn pass_len(n: nat) -> nat {
    3 * n + 1
}

/// The band indices shown by the first `m` steps of a pass over `n` stages, in order.
pub open spec fn shown_bands(n: nat, m: nat) -> Seq<nat>
    decreases m,
{
    if m == 0 {
        seq![]
    } else {
        let before = shown_bands(n, (m - 1) as nat);
        match band_index(step_at(n, (m - 1) as nat)) {
            Some(b) => before.push(b),
            None => before,
        }
    }
}

/// `n, n - 1, ..., 0`.
pub open spec fn descending(n: nat) -> Seq<nat> {
    Seq::new(n + 1, |i: int| (n - i) as nat)
}

/// Walks through the steps of passes over a bank with a fixed number of stages.
#[derive(Debug, Clone, PartialEq, Eq)]
pub struct Schedule {
    levels: usize,
    pos: usize,
}

impl Schedule {
    /// The number of stages.
    pub closed spec fn levels(&self) -> nat {
        self.levels as nat
    }

    /// How many steps of the current pass have been taken.
    pub closed spec fn pos(&self) -> nat {
        self.pos as nat
    }

    pub closed spec fn wf(&self) -> bool {
        &&& self.levels >= 1
        &&& 3 * self.levels + 1 <= usize::MAX
        &&& self.pos <= 3 * self.levels + 1
    }

    /// A schedule for a bank of `levels` stages, at the start of a pass.
    pub fn new(levels: usize) -> (r: Self)
        requires
            levels >= 1,
            3 * levels + 1 <= usize::MAX,
        ensures
            r.wf(),
            r.levels() == levels,
            r.pos() == 0,
    {
        Schedule { levels, pos: 0 }
    }

    /// Goes back to the start of a pass.
    pub fn restart(&mut self)
        requires
            old(self).wf(),
        ensures
            final(self).wf(),
            final(self).levels() == old(self).levels(),
            final(self).pos() == 0,
    {
        self.pos = 0;
    }

    /// Takes the next step of the pass; once the pass is over, keeps answering `Done`.
    pub fn next(&mut self) -> (r: Step)
        requires
            old(self).wf(),
        ensures
            final(self).wf(),
            final(self).levels() == old(self).levels(),
            r == step_at(old(self).levels(), old(self).pos()),
            final(self).pos() == (if old(self).pos() < pass_len(old(self).levels()) {
                old(self).pos() + 1
            } else {
                old(self).pos()
            }),
    {
        let n = self.levels;
        let i = self.pos;
        if i > 3 * n {
            return Step::Done;
        }
        self.pos = i + 1;
        if i < n {
            Step::Analyze(i)
        } else if i == n {
            Step::Residual(n - 1)
        } else {
            let j = i - n - 1;
            let k = n - 1 - j / 2;
            if j % 2 == 0 {
                Step::Detail(k)
            } else {
                Step::Synthesize(k)
            }
        }
    }

    /// The latency of the bank in samples: `2^levels`. It reads the schedule
    /// and changes nothing, so every call gives the same answer.
    pub fn delay(&self) -> (r: usize)
        requires
            two_to(self.levels()) <= usize::MAX,
        ensures
            r == two_to(self.levels()),
    {
        let mut r: usize = 1;
        let mut i: usize = 0;
        while i < self.levels
            invariant
                i <= self.levels,
                r == two_to(i as nat),
                two_to(self.levels as nat) <= usize::MAX,
            decreases self.levels - i,
        {
            proof {
                lemma_two_to_grows(i as nat + 1, self.levels as nat);
            }
            r = r * 2;
            i = i + 1;
        }
        r
    }
}

proof fn lemma_two_to_grows(a: nat, b: nat)
    requires
        a <= b,
    ensures
        two_to(a) <= two_to(b),
    decreases b - a,
{
    if a < b {
        lemma_two_to_grows(a, (b - 1) as nat);
    }
}

/// During one pass over `n` stages the caller is shown exactly `n + 1` bands:
/// the residual, band `n`, first, then the details from band `n - 1` down to band 0.
pub proof fn lemma_bands_shown_deepest_first(n: nat)
    requires
        n >= 1,
        pass_len(n) <= usize::MAX,
    ensures
        shown_bands(n, pass_len(n)) == descending(n),
        step_at(n, pass_len(n)) == Step::Done,
{
    lemma_shown_prefix(n, pass_len(n));
    assert(shown_bands(n, pass_len(n)) =~= descending(n));
}

proof fn lemma_shown_prefix(n: nat, m: nat)
    requires
        n >= 1,
        pass_len(n) <= usize::MAX,
        m <= pass_len(n),
    ensures
        m <= n ==> shown_bands(n, m) == Seq::<nat>::empty(),
        m > n ==> shown_bands(n, m) =~= Seq::new(
            (1 + (m - n) as nat / 2) as nat,
            |i: int| (n - i) as nat,
        ),
    decreases m,
{
    if m > 0 {
        lemma_shown_prefix(n, (m - 1) as nat);
        let target = Seq::new((1 + (m - n) as nat / 2) as nat, |i: int| (n - i) as nat);
        if m == n + 1 {
            assert(step_at(n, n) == Step::Residual((n - 1) as usize));
            assert(shown_bands(n, m) =~= target);
        } else if m > n + 1 {
            let j = (m - 1 - n - 1) as nat;
            let prev = Seq::new((1 + (m - 1 - n) as nat / 2) as nat, |i: int| (n - i) as nat);
            if j % 2 == 0 {
                assert((m - n) as nat / 2 == 1 + (m - 1 - n) as nat / 2);
                assert(step_at(n, (m - 1) as nat) == Step::Detail((n - 1 - j / 2) as usize));
                assert(prev.push((n - 1 - j / 2) as nat) =~= target);
            } else {
                assert((m - n) as nat / 2 == (m - 1 - n) as nat / 2);
                assert(prev =~= target);
            }
        }
    }
}

} // verus!
