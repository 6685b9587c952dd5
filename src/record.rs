use vstd::prelude::*;

verus! {

/// The persisted state of one training routine.
pub struct TrainingDetails {
    pub name: String,
    pub rest_days_remaining: u8,
    pub default_rest_days: u8,
    pub done_count: usize,
}

/// `max(0, rest - elapsed)`: what is left of a cooldown after `elapsed` days.
pub open spec fn decayed_rest(rest: int, elapsed: int) -> int {
    if rest - elapsed < 0 {
        0
    } else {
        rest - elapsed
    }
}

/// The completion counter after one more completion, held at its maximum.
pub open spec fn bumped_count(done: usize) -> usize {
    if done == usize::MAX {
        done
    } else {
        (done + 1) as usize
    }
}

/// A record after `elapsed` days have passed: only the cooldown changes.
pub open spec fn decayed(t: TrainingDetails, elapsed: int) -> TrainingDetails {
    TrainingDetails {
        name: t.name,
        rest_days_remaining: decayed_rest(t.rest_days_remaining as int, elapsed) as u8,
        default_rest_days: t.default_rest_days,
        done_count: t.done_count,
    }
}

/// A record after the routine was done today: the cooldown is reset to its
/// default and the counter goes up by one.
pub open spec fn completed(t: TrainingDetails) -> TrainingDetails {
    TrainingDetails {
        name: t.name,
        rest_days_remaining: t.default_rest_days,
        default_rest_days: t.default_rest_days,
        done_count: bumped_count(t.done_count),
    }
}

impl TrainingDetails {
    pub fn new(name: String, rest_days_remaining: u8, default_rest_days: u8, done_count: usize) -> (r:
        Self)
        ensures
            r.name == name,
            r.rest_days_remaining == rest_days_remaining,
            r.default_rest_days == default_rest_days,
            r.done_count == done_count,
    {
        TrainingDetails { name, rest_days_remaining, default_rest_days, done_count }
    }

    /// A copy of the record, field for field.
    pub fn duplicate(&self) -> (r: Self)
        ensures
            r == *self,
    {
        TrainingDetails {
            name: self.name.clone(),
            rest_days_remaining: self.rest_days_remaining,
            default_rest_days: self.default_rest_days,
            done_count: self.done_count,
        }
    }

    /// The record after `elapsed` days: the cooldown shrinks, floored at zero.
    pub fn decay_by(&mut self, elapsed: u8)
        ensures
            *final(self) == decayed(*old(self), elapsed as int),
    {
        if self.rest_days_remaining >= elapsed {
            self.rest_days_remaining = self.rest_days_remaining - elapsed;
        } else {
            self.rest_days_remaining = 0;
        }
    }

    /// Marks the routine as done today.
    pub fn complete(&mut self)
        ensures
            *final(self) == completed(*old(self)),
    {
        self.rest_days_remaining = self.default_rest_days;
        if self.done_count < usize::MAX {
            self.done_count = self.done_count + 1;
        }
    }
}

/// Completion resets the cooldown to the default and counts one more
/// completion, or keeps the counter where it already is at its maximum;
/// the name and the default stay as they were.
pub proof fn lemma_completion(t: TrainingDetails)
    ensures
        completed(t).rest_days_remaining == completed(t).default_rest_days,
        completed(t).default_rest_days == t.default_rest_days,
        completed(t).name == t.name,
        t.done_count < usize::MAX ==> completed(t).done_count == t.done_count + 1,
        t.done_count == usize::MAX ==> completed(t).done_count == t.done_count,
{
}

/// Decay by zero days changes nothing.
pub proof fn lemma_zero_decay_is_identity(t: TrainingDetails)
    ensures
        decayed(t, 0) == t,
{
}

} // verus!
