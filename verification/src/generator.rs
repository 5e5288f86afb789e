//! The monotonic generator: every value it hands out is greater than the one
//! before, also when the clock stands still or runs backwards.
//!
//! A request whose timestamp is not later than that of the previous value is
//! answered with the previous value plus one, so the previous timestamp is
//! kept and the random payload grows by one. This is also the answer to a
//! timestamp that lies before the previous one: the generator never adopts
//! the earlier timestamp, since that would break the order.

use crate::codec::{
    compose, join, random_of, random_span, split, timestamp_of, MAX_RANDOM, MAX_TIMESTAMP,
};
use crate::error::UlidError;
use crate::trusted::draw_ulid;
use vstd::prelude::*;

verus! {

/// Whether a request for `timestamp` is answered by incrementing `previous`:
/// there is a previous value and its timestamp is not earlier.
pub open spec fn must_increment(previous: Option<u128>, timestamp: u64) -> bool {
    previous matches Some(p) && timestamp <= timestamp_of(p)
}

/// The answer to a request for `timestamp` after `previous`, where `entropy`
/// supplies the payload of a fresh value in its low 80 bits.
pub open spec fn next_value(previous: Option<u128>, timestamp: u64, entropy: u128) -> Result<
    u128,
    UlidError,
> {
    if timestamp > MAX_TIMESTAMP {
        Err(UlidError::TimestampOverflow)
    } else if must_increment(previous, timestamp) {
        let p = previous->0;
        if random_of(p) == MAX_RANDOM {
            Err(UlidError::RandomOverflow)
        } else {
            Ok(compose(timestamp_of(p) as int, random_of(p) + 1) as u128)
        }
    } else {
        Ok(compose(timestamp as int, entropy as int % random_span()) as u128)
    }
}

/// The generator's memory after a request: the value handed out, or what it
/// was before when the request failed.
pub open spec fn next_state(previous: Option<u128>, outcome: Result<u128, UlidError>) -> Option<
    u128,
> {
    match outcome {
        Ok(value) => Some(value),
        Err(_) => previous,
    }
}

/// Whether `outcome` can be the answer to a request after `previous`: to a
/// request for the timestamp `pinned` if there is one, else for whatever
/// 48-bit timestamp the clock showed, with whatever entropy was drawn.
pub open spec fn may_follow(
    previous: Option<u128>,
    pinned: Option<u64>,
    outcome: Result<u128, UlidError>,
) -> bool {
    exists|now: u64, entropy: u128|
        {
            &&& match pinned {
                Some(timestamp) => now == timestamp,
                None => now <= MAX_TIMESTAMP,
            }
            &&& outcome == #[trigger] next_value(previous, now, entropy)
        }
}

/// The generator's memory after it has answered, in order, the first `n`
/// requests of a run that starts from `start`: request `i` is for
/// `timestamps[i]` with `entropies[i]`.
pub open spec fn state_after(
    start: Option<u128>,
    timestamps: Seq<u64>,
    entropies: Seq<u128>,
    n: int,
) -> Option<u128>
    decreases n,
{
    if n <= 0 {
        start
    } else {
        let before = state_after(start, timestamps, entropies, n - 1);
        next_state(before, next_value(before, timestamps[n - 1], entropies[n - 1]))
    }
}

/// The answer to request `i` of such a run.
pub open spec fn outcome_of(
    start: Option<u128>,
    timestamps: Seq<u64>,
    entropies: Seq<u128>,
    i: int,
) -> Result<u128, UlidError> {
    next_value(state_after(start, timestamps, entropies, i), timestamps[i], entropies[i])
}

/// A source of strictly increasing identifiers. It remembers the last value
/// it handed out and nothing else.
#[derive(Debug)]
pub struct Generator {
    previous: Option<u128>,
}

impl View for Generator {
    type V = Option<u128>;

    /// The last value handed out, if any.
    closed spec fn view(&self) -> Option<u128> {
        self.previous
    }
}

impl Generator {
    /// A generator that has not handed out any value yet.
    pub fn new() -> (generator: Generator)
        ensures
            generator@ is None,
    {
        Generator { previous: None }
    }

    /// A generator that continues after `previous`, as if that were the last
    /// value it handed out.
    pub fn resume(previous: u128) -> (generator: Generator)
        ensures
            generator@ == Some(previous),
    {
        Generator { previous: Some(previous) }
    }

    /// The last value handed out, if any.
    pub fn previous(&self) -> (previous: Option<u128>)
        ensures
            previous == self@,
    {
        self.previous
    }

    /// Answers a request for `timestamp` with the given entropy: a fresh
    /// value made of `timestamp` and the low 80 bits of `entropy` when there
    /// is no previous value or `timestamp` is later than the previous one's,
    /// else the previous value plus one. Fails with `TimestampOverflow` when
    /// `timestamp` does not fit in 48 bits and with `RandomOverflow` when the
    /// previous payload cannot be incremented; a failed request leaves the
    /// generator as it was.
    pub fn generate_with(&mut self, timestamp: u64, entropy: u128) -> (outcome: Result<
        u128,
        UlidError,
    >)
        ensures
            outcome == next_value(old(self)@, timestamp, entropy),
            final(self)@ == next_state(old(self)@, outcome),
            outcome matches Ok(value) ==> (old(self)@ matches Some(p) ==> p < value),
    {
        if timestamp > MAX_TIMESTAMP {
            return Err(UlidError::TimestampOverflow);
        }
        if let Some(p) = self.previous {
            let (previous_timestamp, previous_random) = split(p);
            if timestamp <= previous_timestamp {
                if previous_random == MAX_RANDOM {
                    return Err(UlidError::RandomOverflow);
                }
                let value: u128 = p + 1;
                self.previous = Some(value);
                return Ok(value);
            }
        }
        let made = join(timestamp, entropy);
        match made {
            Ok(value) => {
                self.previous = Some(value);
                Ok(value)
            },
            Err(e) => Err(e),
        }
    }

    /// Answers a request for `timestamp` with entropy drawn from the random
    /// number generator. Which value a fresh answer carries is open; that it
    /// is an answer to this request, and when the request fails, is not.
    pub fn generate_at(&mut self, timestamp: u64) -> (outcome: Result<u128, UlidError>)
        ensures
            may_follow(old(self)@, Some(timestamp), outcome),
            final(self)@ == next_state(old(self)@, outcome),
            outcome is Err <==> next_value(old(self)@, timestamp, 0) is Err,
            outcome is Err || must_increment(old(self)@, timestamp) ==> outcome == next_value(
                old(self)@,
                timestamp,
                0,
            ),
            outcome matches Ok(value) ==> (old(self)@ matches Some(p) ==> p < value),
    {
        let (_, entropy) = split(draw_ulid());
        self.generate_with(timestamp, entropy)
    }

    /// Answers a request for the current time with entropy drawn from the
    /// random number generator. The only failure is `RandomOverflow`, when
    /// the clock has not passed the previous timestamp and the previous
    /// payload cannot be incremented.
    pub fn generate(&mut self) -> (outcome: Result<u128, UlidError>)
        ensures
            may_follow(old(self)@, None, outcome),
            final(self)@ == next_state(old(self)@, outcome),
            outcome is Err ==> outcome == Err::<u128, UlidError>(UlidError::RandomOverflow)
                && old(self)@ is Some && random_of(old(self)@->0) == MAX_RANDOM,
            outcome matches Ok(value) ==> (old(self)@ matches Some(p) ==> p < value),
    {
        let (now, entropy) = split(draw_ulid());
        self.generate_with(now, entropy)
    }

    /// Answers a request for the timestamp `pinned`, if there is one, as
    /// `generate_at` does, and else a request for the current time, as
    /// `generate` does.
    pub fn request(&mut self, pinned: Option<u64>) -> (outcome: Result<u128, UlidError>)
        ensures
            may_follow(old(self)@, pinned, outcome),
            final(self)@ == next_state(old(self)@, outcome),
            pinned matches Some(timestamp) ==> (outcome is Err <==> next_value(
                old(self)@,
                timestamp,
                0,
            ) is Err),
            outcome matches Ok(value) ==> (old(self)@ matches Some(p) ==> p < value),
    {
        match pinned {
            Some(timestamp) => self.generate_at(timestamp),
            None => self.generate(),
        }
    }
}

impl Default for Generator {
    fn default() -> (generator: Generator)
        ensures
            generator@ is None,
    {
        Generator::new()
    }
}

} // verus!
