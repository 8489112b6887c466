//! The wake signal of a workflow consumer and the back-off of its natural
//! wakes.
//!
//! A trigger does not count: however often it is fired before the consumer
//! next looks, one wake is pending. A looping trigger also wakes the consumer
//! when nothing fires it, after an interval that starts at a minimum and
//! doubles with each such wake up to a maximum. Intervals are in
//! milliseconds.

use vstd::prelude::*;

verus! {

/// The interval that follows `interval` in a back-off bounded by `ceiling`:
/// twice as long, or the ceiling where that would pass it.
pub open spec fn doubled(interval: u64, ceiling: u64) -> u64 {
    if 2 * interval <= ceiling {
        (2 * interval) as u64
    } else {
        ceiling
    }
}

/// The interval before the natural wake that follows `wakes` natural wakes
/// in a row, in a back-off that starts at `first`.
pub open spec fn interval_after(first: u64, ceiling: u64, wakes: nat) -> u64
    decreases wakes,
{
    if wakes == 0 {
        first
    } else {
        doubled(interval_after(first, ceiling, (wakes - 1) as nat), ceiling)
    }
}

/// The back-off of a looping trigger.
#[derive(Clone, Copy, Debug, PartialEq, Eq)]
pub struct BackOff {
    /// The interval with which the back-off starts, and starts again.
    pub first: u64,
    /// The longest interval.
    pub ceiling: u64,
    /// The interval before the next natural wake.
    pub interval: u64,
    /// Whether firing the trigger starts the back-off again.
    pub reset_on_trigger: bool,
}

impl BackOff {
    /// Whether the intervals are in order: the next one lies between the
    /// first and the longest.
    pub open spec fn wf(&self) -> bool {
        self.first <= self.interval <= self.ceiling
    }

    /// The back-off in which a natural wake has just happened.
    pub open spec fn grown(&self) -> BackOff {
        BackOff { interval: doubled(self.interval, self.ceiling), ..*self }
    }

    /// The back-off that has been started again.
    pub open spec fn restarted(&self) -> BackOff {
        BackOff { interval: self.first, ..*self }
    }

    /// The back-off in which the trigger has just been fired.
    pub open spec fn fired(&self) -> BackOff {
        if self.reset_on_trigger {
            self.restarted()
        } else {
            *self
        }
    }

    /// A back-off over the intervals from `min` to `max`. Where `min` is
    /// beyond `max`, every interval is `max`.
    pub fn new(min: u64, max: u64, reset_on_trigger: bool) -> (back_off: Self)
        ensures
            back_off.wf(),
            back_off.first == if min <= max {
                min
            } else {
                max
            },
            back_off.ceiling == max,
            back_off.interval == back_off.first,
            back_off.reset_on_trigger == reset_on_trigger,
    {
        let first: u64 = if min <= max {
            min
        } else {
            max
        };
        BackOff { first, ceiling: max, interval: first, reset_on_trigger }
    }

    /// Records a natural wake: the next interval is twice the last, up to
    /// the ceiling.
    pub fn grow(&mut self)
        ensures
            *final(self) == old(self).grown(),
            old(self).wf() ==> final(self).wf() && old(self).interval <= final(self).interval,
    {
        self.interval =
        match self.interval.checked_mul(2) {
            Some(twice) if twice <= self.ceiling => twice,
            _ => self.ceiling,
        };
    }

    /// Starts the back-off again at its first interval.
    pub fn reset(&mut self)
        ensures
            *final(self) == old(self).restarted(),
            old(self).wf() ==> final(self).wf(),
    {
        self.interval = self.first;
    }
}

/// What the consumer of a trigger finds when it looks.
#[derive(Clone, Copy, Debug, PartialEq, Eq, Structural)]
pub enum Listen {
    /// A wake was pending and has been taken.
    Woken,
    /// Nothing is pending. The consumer sleeps until the trigger is fired
    /// or, where an interval is given, until that interval has passed.
    Sleep(Option<u64>),
}

/// The state that the two ends of a trigger share: whether a wake is
/// pending, and the back-off of a looping trigger.
#[derive(Clone, Copy, Debug, PartialEq, Eq)]
pub struct Trigger {
    /// Whether a wake is pending.
    pub pending: bool,
    /// The back-off, where the trigger loops.
    pub back_off: Option<BackOff>,
}

impl Trigger {
    /// Whether the back-off, if there is one, is in order.
    pub open spec fn wf(&self) -> bool {
        match self.back_off {
            Some(back_off) => back_off.wf(),
            None => true,
        }
    }

    /// The trigger after it has been fired.
    pub open spec fn fired(&self) -> Trigger {
        Trigger {
            pending: true,
            back_off: match self.back_off {
                Some(back_off) => Some(back_off.fired()),
                None => None,
            },
        }
    }

    /// The trigger after `n` firings in a row.
    pub open spec fn fired_times(&self, n: nat) -> Trigger
        decreases n,
    {
        if n == 0 {
            *self
        } else {
            self.fired_times((n - 1) as nat).fired()
        }
    }

    /// The trigger after its consumer has looked.
    pub open spec fn listened(&self) -> Trigger {
        Trigger { pending: false, ..*self }
    }

    /// What the consumer finds when it looks.
    pub open spec fn heard(&self) -> Listen {
        if self.pending {
            Listen::Woken
        } else {
            Listen::Sleep(
                match self.back_off {
                    Some(back_off) => Some(back_off.interval),
                    None => None,
                },
            )
        }
    }

    /// The trigger after its interval has passed with no firing. A trigger
    /// that does not loop has no such wakes and stays as it is.
    pub open spec fn woken_naturally(&self) -> Trigger {
        match self.back_off {
            Some(back_off) => Trigger { pending: true, back_off: Some(back_off.grown()) },
            None => *self,
        }
    }

    /// A trigger that wakes its consumer only when it is fired.
    pub fn new() -> (trigger: Self)
        ensures
            trigger == (Trigger { pending: false, back_off: None }),
            trigger.wf(),
    {
        Trigger { pending: false, back_off: None }
    }

    /// A trigger that also wakes its consumer when nothing fires it, after
    /// intervals that grow from `min` to `max`. With `reset_on_trigger`,
    /// firing the trigger starts the intervals again at `min`.
    pub fn new_with_loop(min: u64, max: u64, reset_on_trigger: bool) -> (trigger: Self)
        ensures
            trigger.wf(),
            !trigger.pending,
            trigger.back_off == Some(
                BackOff {
                    first: if min <= max {
                        min
                    } else {
                        max
                    },
                    ceiling: max,
                    interval: if min <= max {
                        min
                    } else {
                        max
                    },
                    reset_on_trigger,
                },
            ),
    {
        Trigger { pending: false, back_off: Some(BackOff::new(min, max, reset_on_trigger)) }
    }

    /// Fires the trigger: a wake is pending from now on, whether or not one
    /// was pending before.
    pub fn trigger(&mut self)
        ensures
            *final(self) == old(self).fired(),
            old(self).wf() ==> final(self).wf(),
    {
        self.pending = true;
        if let Some(back_off) = self.back_off {
            if back_off.reset_on_trigger {
                let mut restarted = back_off;
                restarted.reset();
                self.back_off = Some(restarted);
            }
        }
    }

    /// Looks for a wake and takes the one that is pending.
    pub fn listen(&mut self) -> (heard: Listen)
        ensures
            heard == old(self).heard(),
            *final(self) == old(self).listened(),
            old(self).wf() ==> final(self).wf(),
    {
        if self.pending {
            self.pending = false;
            Listen::Woken
        } else {
            match self.back_off {
                Some(back_off) => Listen::Sleep(Some(back_off.interval)),
                None => Listen::Sleep(None),
            }
        }
    }

    /// Records that the interval has passed with no firing: a wake is
    /// pending, and the next interval is longer.
    pub fn natural_wake(&mut self)
        ensures
            *final(self) == old(self).woken_naturally(),
            old(self).wf() ==> final(self).wf(),
    {
        if let Some(back_off) = self.back_off {
            let mut grown = back_off;
            grown.grow();
            self.pending = true;
            self.back_off = Some(grown);
        }
    }
}

/// However often a trigger is fired before its consumer looks, it is as if
/// it had been fired once: the consumer finds one wake, and nothing when it
/// looks again.
pub proof fn lemma_triggers_coalesce(trigger: Trigger, n: nat)
    requires
        n >= 1,
    ensures
        trigger.fired_times(n) == trigger.fired(),
        trigger.fired_times(n).heard() == Listen::Woken,
        trigger.fired_times(n).listened().heard() is Sleep,
        trigger.fired_times(n).listened() == trigger.fired().listened(),
    decreases n,
{
    if n > 1 {
        lemma_triggers_coalesce(trigger, (n - 1) as nat);
    } else {
        assert(trigger.fired_times(0) == trigger);
    }
}

/// The intervals of a back-off that nothing fires never shrink and never
/// pass the ceiling.
pub proof fn lemma_intervals_grow(first: u64, ceiling: u64, earlier: nat, later: nat)
    requires
        first <= ceiling,
        earlier <= later,
    ensures
        first <= interval_after(first, ceiling, earlier) <= interval_after(first, ceiling, later)
            <= ceiling,
    decreases later,
{
    if later > 0 {
        if earlier == later {
            lemma_intervals_grow(first, ceiling, (earlier - 1) as nat, (later - 1) as nat);
        } else {
            lemma_intervals_grow(first, ceiling, earlier, (later - 1) as nat);
        }
    }
}

/// The back-off after `wakes` natural wakes in a row.
pub open spec fn grown_times(back_off: BackOff, wakes: nat) -> BackOff
    decreases wakes,
{
    if wakes == 0 {
        back_off
    } else {
        grown_times(back_off, (wakes - 1) as nat).grown()
    }
}

/// After any number of natural wakes in a row, a back-off that was in order
/// is in order, its interval is the one that `interval_after` gives, no
/// shorter than the one before, and one firing of a trigger that resets
/// starts it again at its first interval.
pub proof fn lemma_back_off_grows_and_resets(back_off: BackOff, wakes: nat)
    requires
        back_off.wf(),
    ensures
        grown_times(back_off, wakes).wf(),
        grown_times(back_off, wakes).interval == interval_after(
            back_off.interval,
            back_off.ceiling,
            wakes,
        ),
        back_off.interval <= grown_times(back_off, wakes).interval <= grown_times(
            back_off,
            wakes + 1,
        ).interval <= back_off.ceiling,
        grown_times(back_off, wakes).first == back_off.first,
        grown_times(back_off, wakes).ceiling == back_off.ceiling,
        grown_times(back_off, wakes).reset_on_trigger == back_off.reset_on_trigger,
        back_off.reset_on_trigger ==> grown_times(back_off, wakes).fired().interval
            == back_off.first,
        !back_off.reset_on_trigger ==> grown_times(back_off, wakes).fired() == grown_times(
            back_off,
            wakes,
        ),
    decreases wakes,
{
    if wakes > 0 {
        lemma_back_off_grows_and_resets(back_off, (wakes - 1) as nat);
    }
    assert(grown_times(back_off, wakes + 1) == grown_times(back_off, wakes).grown());
}

} // verus!
