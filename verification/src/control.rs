//! The control loop as a state machine: each cycle takes the outcome of one
//! temperature reading and says whether the fan control is to be written.
//!
//! The loop is edge-triggered. It remembers the state it last asked for and
//! asks for a write only when the temperature calls for the other state.

use crate::state::CpuFanState;
use crate::temperature::ReadError;
use vstd::prelude::*;

verus! {

/// Seconds to wait between two cycles.
pub const POLL_PERIOD_SECS: u64 = 2;

/// Degrees at and above which the fan is taken out of firmware control.
pub const CPU_TEMP_THRESHOLD: u64 = 90;

/// The state that a temperature calls for: `PwmOff` at or above the
/// threshold, `PwmOn` below it.
pub open spec fn desired(temp: u64) -> CpuFanState {
    if temp >= CPU_TEMP_THRESHOLD {
        CpuFanState::PwmOff
    } else {
        CpuFanState::PwmOn
    }
}

/// A write that a cycle asks for.
#[derive(Clone, Copy, Debug, PartialEq, Eq, Structural)]
pub struct Transition {
    /// The state to write to the fan control.
    pub state: CpuFanState,
    /// The temperature, in degrees, that called for it.
    pub temp: u64,
}

/// The state recorded after a cycle that began with `prev` recorded. A failed
/// reading leaves it as it was; a temperature replaces it by the state that
/// the temperature calls for.
pub open spec fn next_state(prev: CpuFanState, reading: Result<u64, ReadError>) -> CpuFanState {
    match reading {
        Ok(temp) => desired(temp),
        Err(_) => prev,
    }
}

/// The write that a cycle asks for when it began with `prev` recorded: none
/// after a failed reading, none when the temperature calls for the recorded
/// state, else the state that the temperature calls for.
pub open spec fn transition(prev: CpuFanState, reading: Result<u64, ReadError>) -> Option<
    Transition,
> {
    match reading {
        Ok(temp) => if desired(temp) != prev {
            Some(Transition { state: desired(temp), temp })
        } else {
            None
        },
        Err(_) => None,
    }
}

/// The state recorded after a run of cycles, one for each reading in turn,
/// that began with `prev` recorded.
pub open spec fn state_after(prev: CpuFanState, readings: Seq<Result<u64, ReadError>>) -> CpuFanState
    decreases readings.len(),
{
    if readings.len() == 0 {
        prev
    } else {
        next_state(state_after(prev, readings.drop_last()), readings.last())
    }
}

/// The states written, in order, during a run of cycles, one for each
/// reading in turn, that began with `prev` recorded.
pub open spec fn writes_of(prev: CpuFanState, readings: Seq<Result<u64, ReadError>>) -> Seq<
    CpuFanState,
>
    decreases readings.len(),
{
    if readings.len() == 0 {
        Seq::empty()
    } else {
        let before = writes_of(prev, readings.drop_last());
        match transition(state_after(prev, readings.drop_last()), readings.last()) {
            Some(t) => before.push(t.state),
            None => before,
        }
    }
}

/// Decides the state that a temperature calls for.
pub fn desired_state(temp: u64) -> (state: CpuFanState)
    ensures
        state == desired(temp),
{
    if temp >= CPU_TEMP_THRESHOLD {
        CpuFanState::PwmOff
    } else {
        CpuFanState::PwmOn
    }
}

/// The control loop between two cycles: the state it last asked for, which
/// it takes the fan control to be in.
#[derive(Clone, Copy, Debug)]
pub struct ControlLoop {
    prev_state: CpuFanState,
}

impl ControlLoop {
    /// The recorded state.
    pub closed spec fn recorded(self) -> CpuFanState {
        self.prev_state
    }

    /// A control loop that takes the fan control to be in `initial`, the
    /// state read from it at startup.
    pub fn new(initial: CpuFanState) -> (control: Self)
        ensures
            control.recorded() == initial,
    {
        ControlLoop { prev_state: initial }
    }

    /// The recorded state.
    pub fn prev_state(&self) -> (state: CpuFanState)
        ensures
            state == self.recorded(),
    {
        self.prev_state
    }

    /// Runs one cycle on the outcome of a temperature reading and returns the
    /// write to perform, if any.
    ///
    /// After a failed reading nothing changes and nothing is written. After a
    /// temperature, the state that it calls for is written if it differs from
    /// the recorded one, and is recorded in either case. The record does not
    /// wait for the write: should the write fail, the loop still takes the
    /// fan control to be in the new state.
    pub fn step(&mut self, reading: Result<u64, ReadError>) -> (write: Option<Transition>)
        ensures
            write == transition(old(self).recorded(), reading),
            final(self).recorded() == next_state(old(self).recorded(), reading),
    {
        match reading {
            Err(_) => None,
            Ok(temp) => {
                let current_state = desired_state(temp);
                let write = if current_state != self.prev_state {
                    Some(Transition { state: current_state, temp })
                } else {
                    None
                };
                self.prev_state = current_state;
                write
            },
        }
    }
}

/// A cycle writes exactly when its temperature calls for another state than
/// the one recorded, and then writes the state called for; after a cycle
/// with a temperature the state called for is recorded.
pub proof fn lemma_write_on_change(prev: CpuFanState, temp: u64)
    ensures
        transition(prev, Ok(temp)) is Some <==> desired(temp) != prev,
        transition(prev, Ok(temp)) matches Some(t) ==> t.state == desired(temp) && t.temp == temp,
        next_state(prev, Ok(temp)) == desired(temp),
{
}

/// Of two cycles in a row that each get a temperature, the second writes
/// exactly when the two temperatures lie on different sides of the
/// threshold, whatever was recorded before the first.
pub proof fn lemma_write_only_on_crossing(prev: CpuFanState, first: u64, second: u64)
    ensures
        transition(next_state(prev, Ok(first)), Ok(second)) is Some <==> (first
            >= CPU_TEMP_THRESHOLD) != (second >= CPU_TEMP_THRESHOLD),
{
}

/// A cycle whose reading failed records what was recorded before and writes
/// nothing.
pub proof fn lemma_failed_reading_holds(prev: CpuFanState, error: ReadError)
    ensures
        next_state(prev, Err(error)) == prev,
        transition(prev, Err(error)) is None,
{
}

/// A run of cycles splits at any point: the second part runs from the state
/// that the first part recorded, and the writes of both follow each other.
pub proof fn lemma_run_splits(
    prev: CpuFanState,
    first: Seq<Result<u64, ReadError>>,
    second: Seq<Result<u64, ReadError>>,
)
    ensures
        state_after(prev, first + second) == state_after(state_after(prev, first), second),
        writes_of(prev, first + second) == writes_of(prev, first) + writes_of(
            state_after(prev, first),
            second,
        ),
    decreases second.len(),
{
    let all = first + second;
    if second.len() == 0 {
        assert(all =~= first);
        assert(writes_of(prev, first) + Seq::<CpuFanState>::empty() =~= writes_of(prev, first));
    } else {
        lemma_run_splits(prev, first, second.drop_last());
        assert(all.drop_last() =~= first + second.drop_last());
        assert(all.last() == second.last());
        let mid = state_after(prev, first);
        let head = writes_of(prev, first);
        let tail = writes_of(mid, second.drop_last());
        match transition(state_after(mid, second.drop_last()), second.last()) {
            Some(t) => {
                assert((head + tail).push(t.state) =~= head + tail.push(t.state));
            },
            None => {},
        }
    }
}

/// A failed reading anywhere in a run changes neither what the run writes
/// nor what it records at its end: the cycles after it go on as if it had
/// not been there.
pub proof fn lemma_failed_reading_is_inert(
    prev: CpuFanState,
    before: Seq<Result<u64, ReadError>>,
    error: ReadError,
    after: Seq<Result<u64, ReadError>>,
)
    ensures
        state_after(prev, before.push(Err(error)) + after) == state_after(prev, before + after),
        writes_of(prev, before.push(Err(error)) + after) == writes_of(prev, before + after),
{
    let failed = before.push(Err(error));
    assert(failed.drop_last() =~= before);
    assert(failed.last() == Err::<u64, ReadError>(error));
    assert(state_after(prev, failed) == state_after(prev, before));
    assert(writes_of(prev, failed) == writes_of(prev, before));
    lemma_run_splits(prev, failed, after);
    lemma_run_splits(prev, before, after);
}

/// Writes happen on changes only: the first state that a run writes differs
/// from the state recorded at its start, each later one differs from the one
/// written before it, and the last one written is the state recorded at the
/// end. A run that writes nothing records at its end what was recorded at its
/// start.
pub proof fn lemma_writes_alternate(prev: CpuFanState, readings: Seq<Result<u64, ReadError>>)
    ensures
        writes_of(prev, readings).len() <= readings.len(),
        writes_of(prev, readings).len() == 0 ==> state_after(prev, readings) == prev,
        writes_of(prev, readings).len() > 0 ==> writes_of(prev, readings).first() != prev
            && writes_of(prev, readings).last() == state_after(prev, readings),
        forall|i: int|
            0 < i < writes_of(prev, readings).len() ==> #[trigger] writes_of(prev, readings)[i]
                != writes_of(prev, readings)[i - 1],
    decreases readings.len(),
{
    if readings.len() > 0 {
        lemma_writes_alternate(prev, readings.drop_last());
        let before = writes_of(prev, readings.drop_last());
        let all = writes_of(prev, readings);
        match transition(state_after(prev, readings.drop_last()), readings.last()) {
            Some(t) => {
                assert(all == before.push(t.state));
                assert forall|i: int| 0 < i < all.len() implies #[trigger] all[i] != all[i
                    - 1] by {
                    if i < before.len() {
                        assert(all[i] == before[i]);
                        assert(all[i - 1] == before[i - 1]);
                    } else {
                        assert(all[i - 1] == before.last());
                    }
                }
                if before.len() > 0 {
                    assert(all.first() == before.first());
                }
            },
            None => {},
        }
    }
}

} // verus!
