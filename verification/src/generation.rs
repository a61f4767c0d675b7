//! The bookkeeping of one Flappy Bird generation: which birds are still
//! flying, the score of the current run, and how many generations have
//! passed.

use vstd::prelude::*;

verus! {

/// The number of `true` flags.
pub open spec fn count_living(flags: Seq<bool>) -> nat
    decreases flags.len(),
{
    if flags.len() == 0 {
        0
    } else {
        count_living(flags.drop_last()) + if flags.last() { 1nat } else { 0nat }
    }
}

/// Flags that are all `value`.
pub open spec fn all_flags(flags: Seq<bool>, value: bool) -> bool {
    forall|i: int| 0 <= i < flags.len() ==> flags[i] == value
}

proof fn lemma_count_all(flags: Seq<bool>, value: bool)
    requires
        all_flags(flags, value),
    ensures
        count_living(flags) == if value { flags.len() } else { 0 },
    decreases flags.len(),
{
    if flags.len() > 0 {
        lemma_count_all(flags.drop_last(), value);
    }
}

/// Lowering one `true` flag lowers the count by one.
proof fn lemma_count_kill(flags: Seq<bool>, i: int)
    requires
        0 <= i < flags.len(),
        flags[i],
    ensures
        count_living(flags.update(i, false)) + 1 == count_living(flags),
    decreases flags.len(),
{
    if i == flags.len() - 1 {
        assert(flags.update(i, false).drop_last() =~= flags.drop_last());
    } else {
        lemma_count_kill(flags.drop_last(), i);
        assert(flags.update(i, false).drop_last() =~= flags.drop_last().update(i, false));
    }
}

/// `n` flags, all `value`.
fn flags_of(n: usize, value: bool) -> (flags: Vec<bool>)
    ensures
        flags@.len() == n,
        all_flags(flags@, value),
{
    let mut flags: Vec<bool> = Vec::new();
    let mut i: usize = 0;
    while i < n
        invariant
            0 <= i <= n,
            flags@.len() == i,
            all_flags(flags@, value),
        decreases n - i,
    {
        flags.push(value);
        i += 1;
    }
    flags
}

/// The state of the evolution between frames.
pub struct Generation {
    /// The number of birds in each generation.
    pub count: usize,
    /// The number of birds of this generation still alive.
    pub alive: usize,
    /// Whether each bird of this generation is still alive.
    pub living: Vec<bool>,
    /// The number of generations bred so far.
    pub evolution: u32,
    /// The pipes passed in this generation's run.
    pub score: u32,
}

impl Generation {
    /// There is a flag for each bird, and `alive` counts the living ones.
    pub open spec fn wf(&self) -> bool {
        &&& self.living@.len() == self.count
        &&& self.alive == count_living(self.living@)
    }

    /// The first generation: all `count` birds alive, no pipe passed yet.
    pub fn new(count: usize) -> (generation: Generation)
        ensures
            generation.wf(),
            generation.count == count,
            generation.alive == count,
            all_flags(generation.living@, true),
            generation.evolution == 0,
            generation.score == 0,
    {
        let living = flags_of(count, true);
        proof {
            lemma_count_all(living@, true);
        }
        Generation { count, alive: count, living, evolution: 0, score: 0 }
    }

    /// Whether bird `index` of this generation is still alive.
    pub fn is_alive(&self, index: usize) -> (alive: bool)
        requires
            index < self.living@.len(),
        ensures
            alive == self.living@[index as int],
    {
        self.living[index]
    }

    /// Whether the run is over and the next generation must be bred.
    pub fn is_over(&self) -> (over: bool)
        ensures
            over == (self.alive == 0),
    {
        self.alive == 0
    }

    /// Moves on to the next generation: its birds are all alive and its run
    /// starts from a score of zero.
    pub fn start_next(&mut self)
        requires
            old(self).evolution < u32::MAX,
        ensures
            final(self).wf(),
            final(self).count == old(self).count,
            final(self).alive == old(self).count,
            all_flags(final(self).living@, true),
            final(self).evolution == old(self).evolution + 1,
            final(self).score == 0,
    {
        self.score = 0;
        self.living = flags_of(self.count, true);
        proof {
            lemma_count_all(self.living@, true);
        }
        self.alive = self.count;
        self.evolution = self.evolution + 1;
    }

    /// A pipe was passed: the score goes up by one. Returns the new score.
    pub fn pipe_passed(&mut self) -> (score: u32)
        requires
            old(self).score < u32::MAX,
        ensures
            final(self).score == old(self).score + 1,
            score == final(self).score,
            final(self).count == old(self).count,
            final(self).alive == old(self).alive,
            final(self).living == old(self).living,
            final(self).evolution == old(self).evolution,
    {
        self.score = self.score + 1;
        self.score
    }

    /// Bird `index`, still alive, hit a pipe or the edge of the screen.
    pub fn bird_died(&mut self, index: usize)
        requires
            old(self).wf(),
            index < old(self).count,
            old(self).living@[index as int],
        ensures
            final(self).wf(),
            final(self).living@ == old(self).living@.update(index as int, false),
            final(self).alive == old(self).alive - 1,
            final(self).count == old(self).count,
            final(self).score == old(self).score,
            final(self).evolution == old(self).evolution,
    {
        proof {
            lemma_count_kill(self.living@, index as int);
        }
        self.living.set(index, false);
        self.alive = self.alive - 1;
    }

    /// Ends the run early: every bird counts as dead.
    pub fn end_early(&mut self)
        ensures
            final(self).wf(),
            final(self).alive == 0,
            all_flags(final(self).living@, false),
            final(self).count == old(self).count,
            final(self).score == old(self).score,
            final(self).evolution == old(self).evolution,
    {
        self.living = flags_of(self.count, false);
        proof {
            lemma_count_all(self.living@, false);
        }
        self.alive = 0;
    }
}

/// No more birds are alive than the generation holds, and the run is over
/// exactly when no bird is alive.
pub proof fn lemma_alive_counts_living(generation: &Generation)
    requires
        generation.wf(),
    ensures
        generation.alive <= generation.count,
        (generation.alive == 0) == (forall|i: int| 0 <= i < generation.count ==> !generation.living@[i]),
{
    lemma_count_bounds(generation.living@);
}

proof fn lemma_count_bounds(flags: Seq<bool>)
    ensures
        count_living(flags) <= flags.len(),
        (count_living(flags) == 0) == all_flags(flags, false),
    decreases flags.len(),
{
    if flags.len() > 0 {
        lemma_count_bounds(flags.drop_last());
        if count_living(flags) == 0 {
            assert forall|i: int| 0 <= i < flags.len() implies flags[i] == false by {
                if i < flags.len() - 1 {
                    assert(flags[i] == flags.drop_last()[i]);
                }
            }
        } else if all_flags(flags, false) {
            assert(all_flags(flags.drop_last(), false));
        }
    }
}

} // verus!
