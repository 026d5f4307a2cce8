//! The configuration of a run, as it is checked before anything starts.

use vstd::prelude::*;
use crate::duration::{duration_of, parse_duration, DurationError, Fault};
use crate::text::same_text;

verus! {

/// What a run exercises.
#[derive(Clone, Copy, Debug, PartialEq, Eq, Structural)]
pub enum Scenario {
    /// Single requests for the balance of an account picked at random.
    Balance,
    /// One long-lived stream of events per worker.
    Stream,
}

/// How the target is reached.
#[derive(Clone, Copy, Debug, PartialEq, Eq, Structural)]
pub enum Protocol {
    Grpc,
    Rest,
}

/// The scenario with this name.
pub open spec fn scenario_named(name: Seq<char>) -> Option<Scenario> {
    if name == "balance"@ {
        Some(Scenario::Balance)
    } else if name == "stream"@ {
        Some(Scenario::Stream)
    } else {
        None
    }
}

/// The protocol with this name.
pub open spec fn protocol_named(name: Seq<char>) -> Option<Protocol> {
    if name == "grpc"@ {
        Some(Protocol::Grpc)
    } else if name == "rest"@ {
        Some(Protocol::Rest)
    } else {
        None
    }
}

/// Whether the scenario can be run over the protocol. Streams are read
/// over gRPC only.
pub open spec fn supported(scenario: Scenario, protocol: Protocol) -> bool {
    !(scenario == Scenario::Stream && protocol == Protocol::Rest)
}

impl Scenario {
    /// The scenario with this name, if there is one.
    pub fn from_name(name: &str) -> (scenario: Option<Scenario>)
        ensures
            scenario == scenario_named(name@),
    {
        if same_text(name, "balance") {
            Some(Scenario::Balance)
        } else if same_text(name, "stream") {
            Some(Scenario::Stream)
        } else {
            None
        }
    }

    /// The name of the scenario.
    pub fn name(self) -> (name: &'static str)
        ensures
            scenario_named(name@) == Some(self),
    {
        proof {
            reveal_strlit("balance");
            reveal_strlit("stream");
            assert("balance"@.len() != "stream"@.len());
        }
        match self {
            Scenario::Balance => "balance",
            Scenario::Stream => "stream",
        }
    }
}

impl Protocol {
    /// The protocol with this name, if there is one.
    pub fn from_name(name: &str) -> (protocol: Option<Protocol>)
        ensures
            protocol == protocol_named(name@),
    {
        if same_text(name, "grpc") {
            Some(Protocol::Grpc)
        } else if same_text(name, "rest") {
            Some(Protocol::Rest)
        } else {
            None
        }
    }

    /// The name of the protocol.
    pub fn name(self) -> (name: &'static str)
        ensures
            protocol_named(name@) == Some(self),
    {
        proof {
            reveal_strlit("grpc");
            reveal_strlit("rest");
            assert("grpc"@[0] != "rest"@[0]);
        }
        match self {
            Protocol::Grpc => "grpc",
            Protocol::Rest => "rest",
        }
    }
}

/// Why a configuration is refused.
#[derive(Clone, Debug, PartialEq, Eq)]
pub enum ConfigError {
    /// The scenario is neither `balance` nor `stream`.
    InvalidScenario,
    /// The protocol is neither `grpc` nor `rest`.
    InvalidProtocol,
    /// The duration is not one.
    InvalidDuration(DurationError),
    /// The scenario cannot be run over the protocol.
    Unsupported,
}

/// A [`ConfigError`], as mathematical values.
pub enum ConfigFault {
    InvalidScenario,
    InvalidProtocol,
    InvalidDuration(Fault),
    Unsupported,
}

impl View for ConfigError {
    type V = ConfigFault;

    open spec fn view(&self) -> ConfigFault {
        match *self {
            ConfigError::InvalidScenario => ConfigFault::InvalidScenario,
            ConfigError::InvalidProtocol => ConfigFault::InvalidProtocol,
            ConfigError::InvalidDuration(error) => ConfigFault::InvalidDuration(error@),
            ConfigError::Unsupported => ConfigFault::Unsupported,
        }
    }
}

/// The configuration of one run. It does not change while the run lasts.
#[derive(Clone, Copy, Debug, PartialEq, Eq)]
pub struct RunConfig {
    pub scenario: Scenario,
    pub protocol: Protocol,
    /// The number of workers.
    pub concurrency: usize,
    /// The length of the window, in nanoseconds.
    pub duration: u128,
    /// Events per second that a stream is asked to keep to; 0 for no limit.
    pub rate: i32,
}

/// The configuration that the given texts and numbers stand for.
///
/// The scenario is checked first, then the protocol, then the duration,
/// and last whether the two go together.
pub open spec fn config_of(
    scenario: Seq<char>,
    protocol: Seq<char>,
    concurrency: usize,
    duration: Seq<char>,
    rate: i32,
) -> Result<RunConfig, ConfigFault> {
    match (scenario_named(scenario), protocol_named(protocol), duration_of(duration)) {
        (None, _, _) => Err(ConfigFault::InvalidScenario),
        (Some(_), None, _) => Err(ConfigFault::InvalidProtocol),
        (Some(_), Some(_), Err(fault)) => Err(ConfigFault::InvalidDuration(fault)),
        (Some(scenario), Some(protocol), Ok(duration)) => if supported(scenario, protocol) {
            Ok(RunConfig { scenario, protocol, concurrency, duration, rate })
        } else {
            Err(ConfigFault::Unsupported)
        },
    }
}

/// What a result of [`RunConfig::new`] says, as mathematical values.
pub open spec fn config_outcome(result: Result<RunConfig, ConfigError>) -> Result<
    RunConfig,
    ConfigFault,
> {
    match result {
        Ok(config) => Ok(config),
        Err(error) => Err(error@),
    }
}

impl RunConfig {
    /// Checks what was given for a run and puts it together.
    pub fn new(
        scenario: &str,
        protocol: &str,
        concurrency: usize,
        duration: &str,
        rate: i32,
    ) -> (result: Result<RunConfig, ConfigError>)
        ensures
            config_outcome(result) == config_of(
                scenario@,
                protocol@,
                concurrency,
                duration@,
                rate,
            ),
    {
        let scenario = match Scenario::from_name(scenario) {
            Some(scenario) => scenario,
            None => {
                return Err(ConfigError::InvalidScenario);
            },
        };
        let protocol = match Protocol::from_name(protocol) {
            Some(protocol) => protocol,
            None => {
                return Err(ConfigError::InvalidProtocol);
            },
        };
        let duration = match parse_duration(duration) {
            Ok(duration) => duration,
            Err(error) => {
                return Err(ConfigError::InvalidDuration(error));
            },
        };
        match (scenario, protocol) {
            (Scenario::Stream, Protocol::Rest) => Err(ConfigError::Unsupported),
            _ => Ok(RunConfig { scenario, protocol, concurrency, duration, rate }),
        }
    }
}

} // verus!
