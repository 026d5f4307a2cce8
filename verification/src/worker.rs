//! The workers: what one of them does between two invocations of the
//! operation.
//!
//! A worker checks the run flag before each new invocation, never in the
//! middle of one, and never repeats a failed invocation: a failure is a
//! sample like any other. Performing the invocation, timing it and sending
//! the sample is left to whoever runs the worker.

use rand::rngs::OsRng;
use rand::rngs::StdRng;
use rand::seq::SliceRandom;
use rand::SeedableRng;
use vstd::prelude::*;
use crate::results::Sample;

verus! {

/// The generator `rand::rngs::StdRng`. Nothing is known of its state.
#[verifier::external_type_specification]
#[verifier::external_body]
pub struct ExStdRng(StdRng);

/// `StdRng::from_rng(OsRng)`: a generator seeded from the operating
/// system's entropy, or `None` where the system hands out none. Nothing is
/// claimed of the generator.
#[verifier::external_body]
fn seeded_rng() -> (rng: Option<StdRng>) {
    StdRng::from_rng(OsRng).ok()
}

/// `SliceRandom::choose` on the keys, the chosen one cloned: `None` for an
/// empty slice, else one of its elements. Which one is not said.
#[verifier::external_body]
fn choose_key(keys: &Vec<String>, rng: &mut StdRng) -> (key: Option<String>)
    ensures
        key is None <==> keys@.len() == 0,
        key matches Some(k) ==> keys.deep_view().contains(k@),
{
    keys.choose(rng).cloned()
}

/// The state of a [`Worker`], as far as its decisions depend on it.
pub struct WorkerView {
    /// The keys, each as its text.
    pub keys: Seq<Seq<char>>,
    pub stopped: bool,
}

/// A worker that invokes the operation on a key picked at random from a
/// key set, with a generator of its own.
pub struct Worker {
    keys: Vec<String>,
    rng: StdRng,
    stopped: bool,
}

impl View for Worker {
    type V = WorkerView;

    closed spec fn view(&self) -> WorkerView {
        WorkerView { keys: self.keys.deep_view(), stopped: self.stopped }
    }
}

impl Worker {
    /// A worker over `keys` that draws from `rng`.
    pub fn with_rng(keys: Vec<String>, rng: StdRng) -> (worker: Worker)
        ensures
            worker@ == (WorkerView { keys: keys.deep_view(), stopped: false }),
    {
        Worker { keys, rng, stopped: false }
    }

    /// A worker over `keys` with a generator seeded from the operating
    /// system. `None` where no seed could be had: such a worker
    /// contributes no samples.
    pub fn start(keys: Vec<String>) -> (worker: Option<Worker>)
        ensures
            worker matches Some(w) ==> w@ == (WorkerView {
                keys: keys.deep_view(),
                stopped: false,
            }),
    {
        Worker::seeded(keys, seeded_rng())
    }

    /// A worker over `keys` that draws from the generator that an attempt
    /// at seeding gave, and no worker where the attempt gave none.
    pub fn seeded(keys: Vec<String>, rng: Option<StdRng>) -> (worker: Option<Worker>)
        ensures
            worker is Some <==> rng is Some,
            worker matches Some(w) ==> w@ == (WorkerView {
                keys: keys.deep_view(),
                stopped: false,
            }),
    {
        match rng {
            Some(rng) => Some(Worker::with_rng(keys, rng)),
            None => None,
        }
    }

    /// Whether the worker has left its loop.
    pub fn is_stopped(&self) -> (stopped: bool)
        ensures
            stopped == self@.stopped,
    {
        self.stopped
    }

    /// The key of the next invocation, or `None` when the worker is to
    /// leave its loop.
    ///
    /// `running` is the run flag as read just now. The worker goes on
    /// exactly when the flag is set, it has not stopped before, and there
    /// is a key to pick. A worker that has stopped stays stopped.
    pub fn next(&mut self, running: bool) -> (key: Option<String>)
        ensures
            final(self)@.keys == old(self)@.keys,
            final(self)@.stopped == (old(self)@.stopped || !running || old(self)@.keys.len() == 0),
            key is Some <==> !final(self)@.stopped,
            key matches Some(k) ==> old(self)@.keys.contains(k@),
    {
        if self.stopped || !running {
            self.stopped = true;
            return None;
        }
        let key = choose_key(&self.keys, &mut self.rng);
        if key.is_none() {
            self.stopped = true;
        }
        key
    }

    /// Takes note of whether the channel accepted the last sample. A
    /// channel that refuses one has lost its receiver: the worker stops.
    pub fn delivered(&mut self, accepted: bool)
        ensures
            final(self)@ == (WorkerView {
                stopped: old(self)@.stopped || !accepted,
                ..old(self)@
            }),
    {
        if !accepted {
            self.stopped = true;
        }
    }
}

/// What a stream handed to its reader.
#[derive(Clone, Copy, Debug, PartialEq, Eq, Structural)]
pub enum StreamItem {
    /// One more message.
    Message,
    /// An error in place of a message.
    Failure,
    /// The stream has ended.
    End,
}

/// The state of a [`StreamWorker`].
pub struct StreamWorkerView {
    pub last_event: u128,
    pub stopped: bool,
}

/// A worker that reads one stream and reports, for each item that the
/// stream hands out, the time since the item before it.
pub struct StreamWorker {
    last_event: u128,
    stopped: bool,
}

impl View for StreamWorker {
    type V = StreamWorkerView;

    closed spec fn view(&self) -> StreamWorkerView {
        StreamWorkerView { last_event: self.last_event, stopped: self.stopped }
    }
}

/// The time from `earlier` to `later`, zero where `later` is not later.
pub open spec fn elapsed_between(earlier: u128, later: u128) -> u128 {
    if later >= earlier {
        (later - earlier) as u128
    } else {
        0
    }
}

impl StreamWorker {
    /// A worker whose stream was opened at `now`.
    pub fn new(now: u128) -> (worker: StreamWorker)
        ensures
            worker@ == (StreamWorkerView { last_event: now, stopped: false }),
    {
        StreamWorker { last_event: now, stopped: false }
    }

    /// Whether the worker has left its loop.
    pub fn is_stopped(&self) -> (stopped: bool)
        ensures
            stopped == self@.stopped,
    {
        self.stopped
    }

    /// Whether to wait for the next item of the stream, given the run flag
    /// as read just now. A worker that has stopped stays stopped.
    pub fn poll(&mut self, running: bool) -> (go_on: bool)
        ensures
            final(self)@ == (StreamWorkerView {
                stopped: old(self)@.stopped || !running,
                ..old(self)@
            }),
            go_on == !final(self)@.stopped,
    {
        if self.stopped || !running {
            self.stopped = true;
            false
        } else {
            true
        }
    }

    /// Takes in an item of the stream, read at `now`.
    ///
    /// A message and a failure each give one sample, whose latency is the
    /// time since the item before it (since the opening, for the first),
    /// and move the mark to `now`: the sample of a message is a success,
    /// that of a failure is not, and the worker goes on after either. The
    /// end of the stream stops the worker and gives no sample, as does
    /// anything that reaches a stopped worker.
    pub fn observe(&mut self, item: StreamItem, now: u128) -> (sample: Option<Sample>)
        ensures
            final(self)@ == if old(self)@.stopped {
                old(self)@
            } else if item == StreamItem::End {
                StreamWorkerView { stopped: true, ..old(self)@ }
            } else {
                StreamWorkerView { last_event: now, stopped: false }
            },
            sample == if old(self)@.stopped || item == StreamItem::End {
                None::<Sample>
            } else {
                Some(
                    Sample {
                        latency: elapsed_between(old(self)@.last_event, now),
                        success: item == StreamItem::Message,
                    },
                )
            },
    {
        if self.stopped {
            return None;
        }
        let success = match item {
            StreamItem::Message => true,
            StreamItem::Failure => false,
            StreamItem::End => {
                self.stopped = true;
                return None;
            },
        };
        let latency: u128 = if now >= self.last_event {
            now - self.last_event
        } else {
            0
        };
        self.last_event = now;
        Some(Sample { latency, success })
    }

    /// Takes note of whether the channel accepted the last sample. A
    /// channel that refuses one has lost its receiver: the worker stops.
    pub fn delivered(&mut self, accepted: bool)
        ensures
            final(self)@ == (StreamWorkerView {
                stopped: old(self)@.stopped || !accepted,
                ..old(self)@
            }),
    {
        if !accepted {
            self.stopped = true;
        }
    }
}

/// The sample of one request over HTTP that took `latency` nanoseconds.
///
/// `status` is the status code of the response, `None` where the request
/// brought none. The request succeeded exactly when a response came with a
/// code from 200 to 299.
pub fn http_sample(latency: u128, status: Option<u16>) -> (sample: Sample)
    ensures
        sample.latency == latency,
        sample.success == (status matches Some(code) && 200 <= code <= 299),
{
    let success = match status {
        Some(code) => 200 <= code && code <= 299,
        None => false,
    };
    Sample { latency, success }
}

} // verus!
