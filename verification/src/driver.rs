//! The load driver: the order in which a run is started, timed, stopped and
//! drained, as a machine that is told what happened and answers with what to
//! do next.
//!
//! The machine performs nothing itself. Whoever runs it carries out the
//! [`Command`] it is given (opens the channel, spawns a task, sleeps, reads
//! from the channel) and reports the outcome as an [`Event`].

use vstd::prelude::*;
use crate::results::{Results, ResultsView, Sample};
use crate::sampler::Reading;

verus! {

/// Slots in the channel that carries samples from the workers to the driver.
pub const CHANNEL_CAPACITY: usize = 10_000;

/// Time between two readings of the resource sampler, in nanoseconds.
pub const SAMPLE_INTERVAL: u128 = 100_000_000;

/// Where a run stands.
#[derive(Clone, Copy, Debug, PartialEq, Eq, Structural)]
pub enum Phase {
    /// Nothing has been done yet.
    Created,
    /// The channel exists.
    Opened,
    /// The run flag is set.
    Armed,
    /// The sampler runs, and so do the workers before the one with this
    /// index, which is to be spawned next.
    Spawning(usize),
    /// Every worker has been spawned; the start time is not yet recorded.
    Starting,
    /// The window is open.
    Running,
    /// The window has closed; the run flag is still set.
    Elapsed,
    /// The run flag is cleared; the driver still holds its sender.
    Stopping,
    /// The driver reads the channel until it is closed and empty.
    Draining,
    /// Every sample is in; the sampler's readings are not.
    Collecting,
    /// The record is complete and will not change.
    Finished,
}

/// What the driver asks for.
#[derive(Clone, Copy, Debug, PartialEq, Eq)]
pub enum Command {
    /// Allocate the bounded channel for samples.
    OpenChannel { capacity: usize },
    /// Set the shared run flag.
    RaiseFlag,
    /// Spawn the resource sampler, ticking every `interval` nanoseconds.
    SpawnSampler { interval: u128 },
    /// Spawn the worker with this index, with its own sender and operation.
    SpawnWorker { index: usize },
    /// Read the clock and report it.
    ReadClock,
    /// Wait for `duration` nanoseconds, then read the clock and report it.
    Sleep { duration: u128 },
    /// Clear the shared run flag.
    ClearFlag,
    /// Release the driver's own sender, so that the channel closes once
    /// the last worker has gone.
    DropSender,
    /// Take the next sample from the channel, or learn that it is closed.
    Receive,
    /// Wait for the sampler to end and report its readings.
    CollectReadings,
    /// Nothing is left to do: the record can be taken.
    Finish,
}

/// What the driver is told.
#[derive(Clone, Debug, PartialEq, Eq)]
pub enum Event {
    /// The command was carried out.
    Done,
    /// The clock was read: nanoseconds on a monotonic clock.
    Clock(u128),
    /// A sample came out of the channel.
    Sample(Sample),
    /// The channel is closed and empty.
    Closed,
    /// The sampler has ended with these readings.
    Readings(Vec<Reading>),
}

/// An [`Event`], as mathematical values.
pub enum EventView {
    Done,
    Clock(u128),
    Sample(Sample),
    Closed,
    Readings(Seq<Reading>),
}

impl View for Event {
    type V = EventView;

    open spec fn view(&self) -> EventView {
        match *self {
            Event::Done => EventView::Done,
            Event::Clock(now) => EventView::Clock(now),
            Event::Sample(sample) => EventView::Sample(sample),
            Event::Closed => EventView::Closed,
            Event::Readings(readings) => EventView::Readings(readings@),
        }
    }
}

/// The state of a driver, as mathematical values.
pub struct DriverView {
    pub concurrency: usize,
    pub duration: u128,
    pub phase: Phase,
    pub results: ResultsView,
}

impl DriverView {
    /// The state before anything has happened.
    pub open spec fn initial(concurrency: usize, duration: u128) -> DriverView {
        DriverView { concurrency, duration, phase: Phase::Created, results: ResultsView::empty() }
    }

    /// The phase that follows the spawning of `spawned` workers.
    pub open spec fn after_spawning(self, spawned: nat) -> Phase {
        if spawned >= self.concurrency {
            Phase::Starting
        } else {
            Phase::Spawning(spawned as usize)
        }
    }

    /// The command that is outstanding in this state.
    pub open spec fn pending(self) -> Command {
        match self.phase {
            Phase::Created => Command::OpenChannel { capacity: CHANNEL_CAPACITY },
            Phase::Opened => Command::RaiseFlag,
            Phase::Armed => Command::SpawnSampler { interval: SAMPLE_INTERVAL },
            Phase::Spawning(index) => Command::SpawnWorker { index },
            Phase::Starting => Command::ReadClock,
            Phase::Running => Command::Sleep { duration: self.duration },
            Phase::Elapsed => Command::ClearFlag,
            Phase::Stopping => Command::DropSender,
            Phase::Draining => Command::Receive,
            Phase::Collecting => Command::CollectReadings,
            Phase::Finished => Command::Finish,
        }
    }

    /// The state after `event`. An event that does not answer the
    /// outstanding command changes nothing.
    pub open spec fn advance(self, event: EventView) -> DriverView {
        match (self.phase, event) {
            (Phase::Created, EventView::Done) => DriverView { phase: Phase::Opened, ..self },
            (Phase::Opened, EventView::Done) => DriverView { phase: Phase::Armed, ..self },
            (Phase::Armed, EventView::Done) => DriverView {
                phase: self.after_spawning(0),
                ..self
            },
            (Phase::Spawning(index), EventView::Done) => DriverView {
                phase: self.after_spawning(index as nat + 1),
                ..self
            },
            (Phase::Starting, EventView::Clock(now)) => DriverView {
                phase: Phase::Running,
                results: ResultsView { start_time: Some(now), end_time: None, ..self.results },
                ..self
            },
            (Phase::Running, EventView::Clock(now)) => DriverView {
                phase: Phase::Elapsed,
                results: ResultsView {
                    end_time: Some(window_end(self.results.start_time, now)),
                    ..self.results
                },
                ..self
            },
            (Phase::Elapsed, EventView::Done) => DriverView { phase: Phase::Stopping, ..self },
            (Phase::Stopping, EventView::Done) => DriverView { phase: Phase::Draining, ..self },
            (Phase::Draining, EventView::Sample(sample)) => DriverView {
                results: ResultsView {
                    samples: self.results.samples.push(sample),
                    ..self.results
                },
                ..self
            },
            (Phase::Draining, EventView::Closed) => DriverView {
                phase: Phase::Collecting,
                ..self
            },
            (Phase::Collecting, EventView::Readings(readings)) => DriverView {
                phase: Phase::Finished,
                results: ResultsView {
                    cpu_samples: readings.map_values(|r: Reading| r.cpu),
                    mem_samples: readings.map_values(|r: Reading| r.mem),
                    ..self.results
                },
                ..self
            },
            _ => self,
        }
    }

    /// The state after each of `events` in turn.
    pub open spec fn advance_all(self, events: Seq<EventView>) -> DriverView
        decreases events.len(),
    {
        if events.len() == 0 {
            self
        } else {
            self.advance_all(events.drop_last()).advance(events.last())
        }
    }

    /// What holds of every state that a driver can reach.
    ///
    /// Both time stamps are unset until the window opens; the end is set
    /// when it closes and never precedes the start. No sample is in the
    /// record before the drain begins, and no reading before the end.
    pub open spec fn wf(self) -> bool {
        &&& self.results.window_ordered()
        &&& match self.phase {
            Phase::Created | Phase::Opened | Phase::Armed | Phase::Starting => {
                self.results == ResultsView::empty()
            },
            Phase::Spawning(index) => {
                &&& index < self.concurrency
                &&& self.results == ResultsView::empty()
            },
            Phase::Running => {
                &&& self.results.start_time is Some
                &&& self.results == (ResultsView {
                    start_time: self.results.start_time,
                    ..ResultsView::empty()
                })
            },
            Phase::Elapsed | Phase::Stopping => {
                &&& self.results.start_time is Some
                &&& self.results.end_time is Some
                &&& self.results.samples.len() == 0
                &&& self.results.cpu_samples.len() == 0
                &&& self.results.mem_samples.len() == 0
            },
            Phase::Draining | Phase::Collecting => {
                &&& self.results.start_time is Some
                &&& self.results.end_time is Some
                &&& self.results.cpu_samples.len() == 0
                &&& self.results.mem_samples.len() == 0
            },
            Phase::Finished => {
                &&& self.results.start_time is Some
                &&& self.results.end_time is Some
                &&& self.results.cpu_samples.len() == self.results.mem_samples.len()
            },
        }
    }
}

/// The end of the window, given the clock as read after the wait. A clock
/// is monotonic; a reading that lies before the start is taken as the start.
pub open spec fn window_end(start: Option<u128>, now: u128) -> u128 {
    match start {
        Some(start) => if now >= start { now } else { start },
        None => now,
    }
}

/// The driver of one run.
pub struct LoadDriver {
    concurrency: usize,
    duration: u128,
    phase: Phase,
    results: Results,
}

impl View for LoadDriver {
    type V = DriverView;

    closed spec fn view(&self) -> DriverView {
        DriverView {
            concurrency: self.concurrency,
            duration: self.duration,
            phase: self.phase,
            results: self.results@,
        }
    }
}

impl LoadDriver {
    /// A driver for a run of `concurrency` workers over a window of
    /// `duration` nanoseconds, with an empty record.
    pub fn new(concurrency: usize, duration: u128) -> (driver: LoadDriver)
        ensures
            driver@ == DriverView::initial(concurrency, duration),
            driver@.wf(),
    {
        LoadDriver { concurrency, duration, phase: Phase::Created, results: Results::new() }
    }

    /// Where the run stands.
    pub fn phase(&self) -> (phase: Phase)
        ensures
            phase == self@.phase,
    {
        self.phase
    }

    /// The command that is outstanding.
    pub fn pending(&self) -> (command: Command)
        ensures
            command == self@.pending(),
    {
        match self.phase {
            Phase::Created => Command::OpenChannel { capacity: CHANNEL_CAPACITY },
            Phase::Opened => Command::RaiseFlag,
            Phase::Armed => Command::SpawnSampler { interval: SAMPLE_INTERVAL },
            Phase::Spawning(index) => Command::SpawnWorker { index },
            Phase::Starting => Command::ReadClock,
            Phase::Running => Command::Sleep { duration: self.duration },
            Phase::Elapsed => Command::ClearFlag,
            Phase::Stopping => Command::DropSender,
            Phase::Draining => Command::Receive,
            Phase::Collecting => Command::CollectReadings,
            Phase::Finished => Command::Finish,
        }
    }

    /// Takes in what happened and answers with what to do next.
    pub fn step(&mut self, event: Event) -> (command: Command)
        ensures
            final(self)@ == old(self)@.advance(event@),
            command == final(self)@.pending(),
            old(self)@.wf() ==> final(self)@.wf(),
    {
        match (self.phase, event) {
            (Phase::Created, Event::Done) => {
                self.phase = Phase::Opened;
            },
            (Phase::Opened, Event::Done) => {
                self.phase = Phase::Armed;
            },
            (Phase::Armed, Event::Done) => {
                self.phase = if self.concurrency == 0 {
                    Phase::Starting
                } else {
                    Phase::Spawning(0)
                };
            },
            (Phase::Spawning(index), Event::Done) => {
                self.phase = if self.concurrency == 0 || index >= self.concurrency - 1 {
                    Phase::Starting
                } else {
                    Phase::Spawning(index + 1)
                };
            },
            (Phase::Starting, Event::Clock(now)) => {
                self.results.start_time = Some(now);
                self.results.end_time = None;
                self.phase = Phase::Running;
            },
            (Phase::Running, Event::Clock(now)) => {
                let end: u128 = match self.results.start_time {
                    Some(start) => if now >= start { now } else { start },
                    None => now,
                };
                self.results.end_time = Some(end);
                self.phase = Phase::Elapsed;
            },
            (Phase::Elapsed, Event::Done) => {
                self.phase = Phase::Stopping;
            },
            (Phase::Stopping, Event::Done) => {
                self.phase = Phase::Draining;
            },
            (Phase::Draining, Event::Sample(sample)) => {
                self.results.add_sample(sample);
            },
            (Phase::Draining, Event::Closed) => {
                self.phase = Phase::Collecting;
            },
            (Phase::Collecting, Event::Readings(readings)) => {
                let mut cpu: Vec<u32> = Vec::new();
                let mut mem: Vec<u64> = Vec::new();
                let mut i: usize = 0;
                while i < readings.len()
                    invariant
                        i <= readings@.len(),
                        cpu@ == readings@.take(i as int).map_values(|r: Reading| r.cpu),
                        mem@ == readings@.take(i as int).map_values(|r: Reading| r.mem),
                    decreases readings@.len() - i,
                {
                    cpu.push(readings[i].cpu);
                    mem.push(readings[i].mem);
                    i = i + 1;
                }
                proof {
                    assert(readings@.take(i as int) == readings@);
                }
                self.results.cpu_samples = cpu;
                self.results.mem_samples = mem;
                self.phase = Phase::Finished;
            },
            _ => {},
        }
        self.pending()
    }

    /// The record as it stands.
    pub fn results(&self) -> (results: &Results)
        ensures
            results@ == self@.results,
    {
        &self.results
    }

    /// Ends the driver and hands out the record.
    pub fn into_results(self) -> (results: Results)
        ensures
            results@ == self@.results,
    {
        self.results
    }
}

/// The events of a drain in which `samples` come out of the channel, in
/// this order.
pub open spec fn arrivals(samples: Seq<Sample>) -> Seq<EventView> {
    samples.map_values(|sample: Sample| EventView::Sample(sample))
}

/// The events of `count` commands carried out one after the other.
pub open spec fn acknowledgements(count: nat) -> Seq<EventView> {
    Seq::new(count, |i: int| EventView::Done)
}

/// The events of a whole run, as a driver of `concurrency` workers meets
/// them: the channel, the flag, the sampler and each worker are set up; the
/// clock reads `start` and, after the wait, `end`; the flag is cleared and
/// the sender released; `samples` arrive and the channel closes; the
/// sampler hands in `readings`.
pub open spec fn run_events(
    concurrency: usize,
    start: u128,
    end: u128,
    samples: Seq<Sample>,
    readings: Seq<Reading>,
) -> Seq<EventView> {
    acknowledgements(3 + concurrency as nat) + seq![
        EventView::Clock(start),
        EventView::Clock(end),
        EventView::Done,
        EventView::Done,
    ] + arrivals(samples) + seq![EventView::Closed, EventView::Readings(readings)]
}

/// No event leads out of the states that a driver can reach.
pub proof fn lemma_advance_keeps_wf(state: DriverView, event: EventView)
    requires
        state.wf(),
    ensures
        state.advance(event).wf(),
{
}

/// No sequence of events leads out of the states that a driver can reach:
/// in particular the end of the window never precedes its start.
pub proof fn lemma_advance_all_keeps_wf(state: DriverView, events: Seq<EventView>)
    requires
        state.wf(),
    ensures
        state.advance_all(events).wf(),
        state.advance_all(events).results.window_ordered(),
    decreases events.len(),
{
    if events.len() > 0 {
        lemma_advance_all_keeps_wf(state, events.drop_last());
        lemma_advance_keeps_wf(state.advance_all(events.drop_last()), events.last());
    }
}

/// The events of two stretches, one after the other, have the effect of
/// the first stretch followed by that of the second.
pub proof fn lemma_advance_all_concat(
    state: DriverView,
    first: Seq<EventView>,
    second: Seq<EventView>,
)
    ensures
        state.advance_all(first + second) == state.advance_all(first).advance_all(second),
    decreases second.len(),
{
    if second.len() == 0 {
        assert(first + second == first);
    } else {
        lemma_advance_all_concat(state, first, second.drop_last());
        assert((first + second).drop_last() == first + second.drop_last());
        assert((first + second).last() == second.last());
    }
}

/// Exactly `concurrency` workers are spawned: once the sampler runs, the
/// driver asks for the workers `0`, `1`, ... in turn, and after `count`
/// acknowledgements it waits for the next one, or, when that was the last,
/// for the clock.
pub proof fn lemma_spawns_each_worker_once(state: DriverView, count: nat)
    requires
        state.phase == Phase::Armed,
        count <= state.concurrency,
    ensures
        state.advance_all(acknowledgements(1 + count)) == (DriverView {
            phase: state.after_spawning(count),
            ..state
        }),
        count < state.concurrency ==> state.advance_all(acknowledgements(1 + count)).pending()
            == (Command::SpawnWorker { index: count as usize }),
        count == state.concurrency ==> state.advance_all(acknowledgements(1 + count)).pending()
            == Command::ReadClock,
    decreases count,
{
    let events = acknowledgements(1 + count);
    assert(events.drop_last() == acknowledgements(count));
    assert(events.last() == EventView::Done);
    if count == 0 {
        assert(acknowledgements(0) == Seq::<EventView>::empty());
        assert(state.advance_all(acknowledgements(0)) == state);
    } else {
        lemma_spawns_each_worker_once(state, (count - 1) as nat);
    }
}

/// Drain completeness: every sample that comes out of the channel while the
/// driver drains it is appended to the record, in the order of arrival, and
/// nothing else changes.
pub proof fn lemma_drain_keeps_every_sample(state: DriverView, samples: Seq<Sample>)
    requires
        state.phase == Phase::Draining,
    ensures
        state.advance_all(arrivals(samples)) == (DriverView {
            results: ResultsView { samples: state.results.samples + samples, ..state.results },
            ..state
        }),
    decreases samples.len(),
{
    let events = arrivals(samples);
    if samples.len() == 0 {
        assert(state.results.samples + samples == state.results.samples);
    } else {
        lemma_drain_keeps_every_sample(state, samples.drop_last());
        assert(events.drop_last() == arrivals(samples.drop_last()));
        assert(events.last() == EventView::Sample(samples.last()));
        assert((state.results.samples + samples.drop_last()).push(samples.last())
            == state.results.samples + samples);
    }
}

/// The drain ends with the channel and not before: as long as the channel
/// has not been reported closed, the driver goes on reading it.
pub proof fn lemma_drain_ends_only_when_closed(state: DriverView, events: Seq<EventView>)
    requires
        state.phase == Phase::Draining,
        !events.contains(EventView::Closed),
    ensures
        state.advance_all(events).phase == Phase::Draining,
        state.advance_all(events).pending() == Command::Receive,
    decreases events.len(),
{
    if events.len() > 0 {
        let earlier = events.drop_last();
        assert forall|i: int| 0 <= i < earlier.len() implies earlier[i] != EventView::Closed by {
            assert(earlier[i] == events[i]);
            assert(events.contains(events[i]));
        }
        lemma_drain_ends_only_when_closed(state, earlier);
        assert(events.contains(events[events.len() - 1]));
    }
}

/// Once the record is complete, nothing changes it.
pub proof fn lemma_finished_is_frozen(state: DriverView, events: Seq<EventView>)
    requires
        state.phase == Phase::Finished,
    ensures
        state.advance_all(events) == state,
    decreases events.len(),
{
    if events.len() > 0 {
        lemma_finished_is_frozen(state, events.drop_last());
    }
}

/// A whole run, from a new driver to the finished record: the record holds
/// the start as read, an end that does not precede it, exactly the samples
/// that arrived, in their order, and the sampler's readings.
pub proof fn lemma_run_collects_everything(
    concurrency: usize,
    duration: u128,
    start: u128,
    end: u128,
    samples: Seq<Sample>,
    readings: Seq<Reading>,
)
    ensures
        DriverView::initial(concurrency, duration).advance_all(
            run_events(concurrency, start, end, samples, readings),
        ) == (DriverView {
            concurrency,
            duration,
            phase: Phase::Finished,
            results: ResultsView {
                samples,
                start_time: Some(start),
                end_time: Some(window_end(Some(start), end)),
                cpu_samples: readings.map_values(|r: Reading| r.cpu),
                mem_samples: readings.map_values(|r: Reading| r.mem),
            },
        }),
{
    let initial = DriverView::initial(concurrency, duration);
    let setup = acknowledgements(3 + concurrency as nat);
    let timing = seq![
        EventView::Clock(start),
        EventView::Clock(end),
        EventView::Done,
        EventView::Done,
    ];
    let closing = seq![EventView::Closed, EventView::Readings(readings)];

    // Channel and flag, then the sampler and the workers.
    let armed = DriverView { phase: Phase::Armed, ..initial };
    let head = acknowledgements(2);
    let tail = acknowledgements(1 + concurrency as nat);
    assert(setup == head + tail);
    assert(initial.advance_all(head) == armed) by {
        reveal_with_fuel(DriverView::advance_all, 3);
        assert(head.drop_last() == acknowledgements(1));
        assert(head.drop_last().drop_last() == acknowledgements(0));
        assert(acknowledgements(0).len() == 0);
    }
    lemma_advance_all_concat(initial, head, tail);
    lemma_spawns_each_worker_once(armed, concurrency as nat);
    let starting = DriverView { phase: Phase::Starting, ..initial };
    assert(initial.advance_all(setup) == starting);

    // The window, the flag and the sender.
    let draining = DriverView {
        phase: Phase::Draining,
        results: ResultsView {
            start_time: Some(start),
            end_time: Some(window_end(Some(start), end)),
            ..initial.results
        },
        ..initial
    };
    assert(starting.advance_all(timing) == draining) by {
        reveal_with_fuel(DriverView::advance_all, 5);
        let t3 = timing.drop_last();
        let t2 = t3.drop_last();
        let t1 = t2.drop_last();
        assert(t1.drop_last().len() == 0);
        assert(t1.last() == EventView::Clock(start));
        assert(t2.last() == EventView::Clock(end));
        assert(t3.last() == EventView::Done);
        assert(timing.last() == EventView::Done);
    }

    // The drain.
    lemma_drain_keeps_every_sample(draining, samples);
    assert(Seq::<Sample>::empty() + samples == samples);
    let drained = DriverView {
        results: ResultsView { samples, ..draining.results },
        ..draining
    };
    assert(draining.advance_all(arrivals(samples)) == drained);

    // The end.
    let finished = DriverView {
        phase: Phase::Finished,
        results: ResultsView {
            cpu_samples: readings.map_values(|r: Reading| r.cpu),
            mem_samples: readings.map_values(|r: Reading| r.mem),
            ..drained.results
        },
        ..drained
    };
    assert(drained.advance_all(closing) == finished) by {
        reveal_with_fuel(DriverView::advance_all, 3);
        assert(closing.drop_last().drop_last().len() == 0);
        assert(closing.drop_last().last() == EventView::Closed);
        assert(closing.last() == EventView::Readings(readings));
    }

    lemma_advance_all_concat(initial, setup, timing);
    lemma_advance_all_concat(initial, setup + timing, arrivals(samples));
    lemma_advance_all_concat(initial, setup + timing + arrivals(samples), closing);
}

} // verus!
