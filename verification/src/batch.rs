//! Runs of requests to one generator, with the text of each value.

use crate::codec::{render, render_spec};
use crate::error::UlidError;
use crate::generator::{may_follow, Generator};
use vstd::prelude::*;

verus! {

/// What a run of requests produced.
#[derive(Debug, PartialEq, Eq)]
pub struct Batch {
    /// The values handed out, in order.
    pub values: Vec<u128>,
    /// The text of each value, in the same order.
    pub lines: Vec<String>,
    /// Why the run stopped before it had answered every request, if it did.
    pub failure: Option<UlidError>,
}

/// The generator's memory before request `i` of a run that started from
/// `start` and has handed out `values` so far; with `i` the number of values,
/// its memory after the run.
pub open spec fn memory_at(start: Option<u128>, values: Seq<u128>, i: int) -> Option<u128> {
    if i <= 0 {
        start
    } else {
        Some(values[i - 1])
    }
}

/// Asks `generator` for `count` values, each for the timestamp `pinned` if
/// there is one and else for the time of the request, and writes each in the
/// requested case. The run stops at the first request that fails: the values
/// before it are kept and the failure is reported with them.
pub fn generate_ulids(
    generator: &mut Generator,
    pinned: Option<u64>,
    count: u32,
    lowercase: bool,
) -> (batch: Batch)
    ensures
        batch.values@.len() == batch.lines@.len(),
        batch.values@.len() <= count,
        forall|i: int|
            0 <= i < batch.lines@.len() ==> (#[trigger] batch.lines@[i])@ == render_spec(
                batch.values@[i],
                lowercase,
            ),
        forall|i: int|
            0 <= i < batch.values@.len() ==> may_follow(
                memory_at(old(generator)@, batch.values@, i),
                pinned,
                Ok(#[trigger] batch.values@[i]),
            ),
        final(generator)@ == memory_at(
            old(generator)@,
            batch.values@,
            batch.values@.len() as int,
        ),
        match batch.failure {
            None => batch.values@.len() == count,
            Some(e) => batch.values@.len() < count && may_follow(
                final(generator)@,
                pinned,
                Err(e),
            ),
        },
        forall|i: int, j: int|
            0 <= i < j < batch.values@.len() ==> batch.values@[i] < batch.values@[j],
        old(generator)@ is Some ==> forall|i: int|
            0 <= i < batch.values@.len() ==> old(generator)@->0 < #[trigger] batch.values@[i],
{
    let ghost start = generator@;
    let mut values: Vec<u128> = Vec::new();
    let mut lines: Vec<String> = Vec::new();
    let mut done: u32 = 0;
    while done < count
        invariant
            start == old(generator)@,
            done <= count,
            values@.len() == done,
            lines@.len() == done,
            forall|i: int|
                0 <= i < lines@.len() ==> (#[trigger] lines@[i])@ == render_spec(
                    values@[i],
                    lowercase,
                ),
            forall|i: int|
                0 <= i < values@.len() ==> may_follow(
                    memory_at(start, values@, i),
                    pinned,
                    Ok(#[trigger] values@[i]),
                ),
            generator@ == memory_at(start, values@, values@.len() as int),
            forall|i: int, j: int| 0 <= i < j < values@.len() ==> values@[i] < values@[j],
            start is Some ==> forall|i: int|
                0 <= i < values@.len() ==> start->0 < #[trigger] values@[i],
        decreases count - done,
    {
        let ghost before = values@;
        match generator.request(pinned) {
            Ok(value) => {
                lines.push(render(value, lowercase));
                values.push(value);
                proof {
                    assert forall|i: int| 0 <= i < values@.len() implies may_follow(
                        memory_at(start, values@, i),
                        pinned,
                        Ok(#[trigger] values@[i]),
                    ) by {
                        if i < before.len() {
                            assert(values@[i] == before[i]);
                            assert(memory_at(start, values@, i) == memory_at(start, before, i));
                        }
                    }
                }
            },
            Err(e) => {
                return Batch { values, lines, failure: Some(e) };
            },
        }
        done += 1;
    }
    Batch { values, lines, failure: None }
}

} // verus!
