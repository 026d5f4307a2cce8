//! The resource sampler: a periodic reader of the driving process's CPU load
//! and resident memory, which runs beside the workers and stops with them.

use vstd::prelude::*;

verus! {

/// One reading of the driving process.
#[derive(Clone, Copy, Debug, PartialEq, Eq)]
pub struct Reading {
    /// CPU load, in hundredths of a percent.
    pub cpu: u32,
    /// Resident memory, in bytes.
    pub mem: u64,
}

/// What the sampler does next.
#[derive(Clone, Copy, Debug, PartialEq, Eq)]
pub enum SamplerAction {
    /// Wait for the next tick, `interval` nanoseconds after the last one,
    /// then read the process and hand the reading to [`Sampler::record`].
    Wait { interval: u128 },
    /// The run flag was cleared: take no more readings.
    Stop,
}

/// The state of a sampler, as mathematical values.
pub struct SamplerView {
    pub interval: u128,
    pub readings: Seq<Reading>,
    pub stopped: bool,
}

/// The sampler's side of a run.
pub struct Sampler {
    interval: u128,
    readings: Vec<Reading>,
    stopped: bool,
}

impl View for Sampler {
    type V = SamplerView;

    closed spec fn view(&self) -> SamplerView {
        SamplerView { interval: self.interval, readings: self.readings@, stopped: self.stopped }
    }
}

impl Sampler {
    /// A sampler that has read nothing yet and ticks every `interval`
    /// nanoseconds.
    pub fn new(interval: u128) -> (s: Sampler)
        ensures
            s@ == (SamplerView { interval, readings: Seq::empty(), stopped: false }),
    {
        Sampler { interval, readings: Vec::new(), stopped: false }
    }

    /// Decides, from the run flag as read just now, whether to wait for
    /// another tick. A sampler that has stopped stays stopped.
    pub fn poll(&mut self, running: bool) -> (action: SamplerAction)
        ensures
            final(self)@ == (SamplerView {
                stopped: old(self)@.stopped || !running,
                ..old(self)@
            }),
            action == if final(self)@.stopped {
                SamplerAction::Stop
            } else {
                SamplerAction::Wait { interval: old(self)@.interval }
            },
    {
        if self.stopped || !running {
            self.stopped = true;
            SamplerAction::Stop
        } else {
            SamplerAction::Wait { interval: self.interval }
        }
    }

    /// Appends a reading. A tick on which the process could not be read
    /// (`None`) leaves the sampler as it is.
    pub fn record(&mut self, reading: Option<Reading>)
        ensures
            final(self)@ == match reading {
                Some(r) => SamplerView { readings: old(self)@.readings.push(r), ..old(self)@ },
                None => old(self)@,
            },
    {
        match reading {
            Some(r) => {
                self.readings.push(r);
            },
            None => {},
        }
    }

    /// The number of readings taken so far.
    pub fn len(&self) -> (n: usize)
        ensures
            n == self@.readings.len(),
    {
        self.readings.len()
    }

    /// Ends the sampler and hands out its readings, in sampling order.
    pub fn into_readings(self) -> (readings: Vec<Reading>)
        ensures
            readings@ == self@.readings,
    {
        self.readings
    }
}

} // verus!
