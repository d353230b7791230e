//! Power handling.
//!
//! The kernel exposes 5V power output and bus power as voltage regulators. TOH driver allows to
//! request these to be powered on but other kernel drivers may also turn them on.
//!
//! The types here name the attributes involved and decide what their contents mean; reading and
//! writing the attribute files is left to the caller.

use crate::attr::{access, Attribute};
use crate::paths::PWR_PATH;
use crate::text::{has_prefix, join_path, path_join, starts_with, trim_end, trimmed_equals};
use vstd::prelude::*;

pub use crate::attr::{Read, ReadWrite};

verus! {

/// Content of a regulator state attribute, or of a power request attribute, that is not
/// understood, or a combination of regulator states that cannot be.
#[derive(Debug, Clone, Copy, PartialEq, Eq)]
pub enum PowerDataError {
    /// Regulator state was neither "enabled" nor "disabled".
    InvalidRegulatorState,
    /// Power request was not one of "0", "1" and "2".
    InvalidPowerRequestState,
    /// Bus is powered but 5V out is off.
    BusPoweredWithoutOut,
    /// No regulator named "toh-5v" was found.
    PowerRegulatorNotFound,
    /// No regulator named "toh-bus" was found.
    BusRegulatorNotFound,
}

impl PowerDataError {
    /// Human readable description.
    pub fn message(&self) -> (res: &'static str)
        ensures
            res@ == match self {
                PowerDataError::InvalidRegulatorState => "Invalid regulator state"@,
                PowerDataError::InvalidPowerRequestState => "Invalid power request state"@,
                PowerDataError::BusPoweredWithoutOut =>
                    "Invalid power state, bus is powered but 5V out is off"@,
                PowerDataError::PowerRegulatorNotFound =>
                    "5V out voltage regulator device not found"@,
                PowerDataError::BusRegulatorNotFound => "Bus voltage regulator device not found"@,
            },
    {
        match self {
            PowerDataError::InvalidRegulatorState => "Invalid regulator state",
            PowerDataError::InvalidPowerRequestState => "Invalid power request state",
            PowerDataError::BusPoweredWithoutOut => {
                "Invalid power state, bus is powered but 5V out is off"
            },
            PowerDataError::PowerRegulatorNotFound => {
                "5V out voltage regulator device not found"
            },
            PowerDataError::BusRegulatorNotFound => "Bus voltage regulator device not found",
        }
    }
}

/// Whether a regulator state attribute holding `content` says that the regulator is enabled.
pub open spec fn regulator_state(content: Seq<char>) -> Result<bool, PowerDataError> {
    if trim_end(content) == "enabled"@ {
        Ok(true)
    } else if trim_end(content) == "disabled"@ {
        Ok(false)
    } else {
        Err(PowerDataError::InvalidRegulatorState)
    }
}

/// Voltage regulator.
pub struct Regulator {
    /// The state attribute of the regulator.
    pub attr: Attribute<Read>,
}

impl Regulator {
    /// Voltage regulator whose device directory is `path`.
    pub fn new(path: &str) -> (res: Self)
        ensures
            res.attr.path@ == path_join(path@, "state"@),
    {
        Regulator { attr: Attribute::readable(join_path(path, "state")) }
    }

    /// Checks if the voltage regulator is enabled, given what its state attribute holds.
    pub fn is_enabled(&self, content: &str) -> (res: Result<bool, PowerDataError>)
        ensures
            res == regulator_state(content@),
    {
        if trimmed_equals(content, "enabled") {
            Ok(true)
        } else if trimmed_equals(content, "disabled") {
            Ok(false)
        } else {
            Err(PowerDataError::InvalidRegulatorState)
        }
    }
}

/// TOH voltage regulators.
pub struct Regulators {
    /// 5V out voltage regulator.
    pub power: Regulator,
    /// Bus voltage regulator.
    pub bus: Regulator,
}

/// Whether the directory entry `name` under the regulator class directory is a regulator
/// device: its name begins with `regulator.`.
pub fn is_regulator_dir(name: &str) -> (res: bool)
    ensures
        res == has_prefix(name@, "regulator."@),
{
    starts_with(name, "regulator.")
}

/// Index of the last of `candidates` whose name, without trailing whitespace, is `name`.
pub open spec fn last_named(candidates: Seq<(String, String)>, name: Seq<char>) -> Option<int>
    decreases candidates.len(),
{
    if candidates.len() == 0 {
        None
    } else if trim_end(candidates.last().1@) == name {
        Some(candidates.len() - 1)
    } else {
        last_named(candidates.drop_last(), name)
    }
}

proof fn lemma_last_named_bounds(candidates: Seq<(String, String)>, name: Seq<char>)
    ensures
        last_named(candidates, name) matches Some(i) ==> 0 <= i < candidates.len(),
    decreases candidates.len(),
{
    if candidates.len() > 0 {
        lemma_last_named_bounds(candidates.drop_last(), name);
    }
}

impl Regulators {
    /// Picks the TOH voltage regulators among `candidates`, the regulator devices as pairs of the
    /// device directory and the content of its name attribute, in the order they were found.
    ///
    /// The 5V out regulator is named "toh-5v" and the bus regulator "toh-bus"; where a name occurs
    /// more than once, the last device with it is taken.
    pub fn new(candidates: &Vec<(String, String)>) -> (res: Result<Self, PowerDataError>)
        ensures
            match (last_named(candidates@, "toh-5v"@), last_named(candidates@, "toh-bus"@)) {
                (Some(p), Some(b)) => res matches Ok(r) && r.power.attr.path@ == path_join(
                    candidates@[p].0@,
                    "state"@,
                ) && r.bus.attr.path@ == path_join(candidates@[b].0@, "state"@),
                (None, _) => res == Err::<Self, PowerDataError>(
                    PowerDataError::PowerRegulatorNotFound,
                ),
                (Some(_), None) => res == Err::<Self, PowerDataError>(
                    PowerDataError::BusRegulatorNotFound,
                ),
            },
    {
        let mut power: Option<usize> = None;
        let mut bus: Option<usize> = None;
        let mut i: usize = 0;
        while i < candidates.len()
            invariant
                i <= candidates@.len(),
                power == (match last_named(candidates@.take(i as int), "toh-5v"@) {
                    Some(p) => Some(p as usize),
                    None => None::<usize>,
                }),
                bus == (match last_named(candidates@.take(i as int), "toh-bus"@) {
                    Some(b) => Some(b as usize),
                    None => None::<usize>,
                }),
            decreases candidates.len() - i,
        {
            proof {
                lemma_last_named_bounds(candidates@.take(i as int), "toh-5v"@);
                lemma_last_named_bounds(candidates@.take(i as int), "toh-bus"@);
                assert(candidates@.take(i + 1).drop_last() =~= candidates@.take(i as int));
                assert(candidates@.take(i + 1).last() == candidates@[i as int]);
                reveal_strlit("toh-5v");
                reveal_strlit("toh-bus");
                assert("toh-5v"@.len() != "toh-bus"@.len());
            }
            if trimmed_equals(candidates[i].1.as_str(), "toh-5v") {
                power = Some(i);
            } else if trimmed_equals(candidates[i].1.as_str(), "toh-bus") {
                bus = Some(i);
            }
            i = i + 1;
        }
        assert(candidates@.take(candidates@.len() as int) =~= candidates@);
        proof {
            lemma_last_named_bounds(candidates@, "toh-5v"@);
            lemma_last_named_bounds(candidates@, "toh-bus"@);
        }
        match power {
            Some(p) => match bus {
                Some(b) => Ok(
                    Regulators {
                        power: Regulator::new(candidates[p].0.as_str()),
                        bus: Regulator::new(candidates[b].0.as_str()),
                    },
                ),
                None => Err(PowerDataError::BusRegulatorNotFound),
            },
            None => Err(PowerDataError::PowerRegulatorNotFound),
        }
    }
}

/// Power state.
#[derive(Clone, Copy, Debug, PartialEq, Eq, Structural)]
pub enum State {
    /// Power is off.
    Off,
    /// 5V out is enabled but bus is not powered.
    Out,
    /// Bus is powered and 5V out is enabled.
    Bus,
}

/// The digit that stands for `s` in the power request attribute.
pub open spec fn state_digit(s: State) -> u8 {
    match s {
        State::Off => 0x30,
        State::Out => 0x31,
        State::Bus => 0x32,
    }
}

/// The state that the power request attribute content `value` stands for.
pub open spec fn state_from_text(value: Seq<char>) -> Option<State> {
    if value.len() != 1 {
        None
    } else if value[0] == '0' {
        Some(State::Off)
    } else if value[0] == '1' {
        Some(State::Out)
    } else if value[0] == '2' {
        Some(State::Bus)
    } else {
        None
    }
}

impl State {
    /// State written as `value`: "0", "1" or "2".
    pub fn from_str(value: &str) -> (res: Option<Self>)
        ensures
            res == state_from_text(value@),
    {
        if value.unicode_len() != 1 {
            return None;
        }
        let c = value.get_char(0);
        assert(value@ =~= seq![c]);
        if c == '0' {
            Some(State::Off)
        } else if c == '1' {
            Some(State::Out)
        } else if c == '2' {
            Some(State::Bus)
        } else {
            None
        }
    }

    /// The bytes to write to the power request attribute for this state.
    pub fn to_bytes(self) -> (res: Vec<u8>)
        ensures
            res@ == seq![state_digit(self)],
    {
        let d: u8 = match self {
            State::Off => 0x30,
            State::Out => 0x31,
            State::Bus => 0x32,
        };
        let mut res = Vec::new();
        res.push(d);
        assert(res@ =~= seq![d]);
        res
    }
}

/// Reading back what a power request wrote gives the requested state.
pub proof fn lemma_state_text_roundtrip(s: State)
    ensures
        state_from_text(seq![state_digit(s) as char]) == Some(s),
{
    assert(0x30u8 as char == '0');
    assert(0x31u8 as char == '1');
    assert(0x32u8 as char == '2');
}

/// The state that the regulators give when bus power is `bus_powered` and 5V out power is
/// `powered`.
pub open spec fn combined_state(bus_powered: bool, powered: bool) -> Result<State, PowerDataError> {
    match (bus_powered, powered) {
        (true, true) => Ok(State::Bus),
        (true, false) => Err(PowerDataError::BusPoweredWithoutOut),
        (false, true) => Ok(State::Out),
        (false, false) => Ok(State::Off),
    }
}

/// Power state request failed.
#[derive(Debug)]
pub enum PowerStateRequestError {
    /// IO error while setting state.
    IoWhileSetting(std::io::Error),
    /// IO error while checking state.
    ///
    /// The state may have changed.
    IoWhileChecking(std::io::Error),
    /// Power state did not change as expected.
    UnexpectedChange(State),
}

/// Result for power state request.
///
/// To know whether the state was taken into use or if some driver kept the power on.
#[derive(Debug, Clone, Copy, PartialEq, Eq, Structural)]
pub enum StateInUse {
    /// Requested state is in use.
    Expected,
    /// Bus is powered by something else and cannot be turned off.
    BusInUse,
    /// 5V out is powered by something else and cannot be turned off.
    OutInUse,
}

/// What requesting `requested` means when the regulators then show `observed`: whether the
/// request took effect, some other user keeps power on, or the state changed unexpectedly (in
/// which case the observed state is returned).
pub open spec fn request_outcome(requested: State, observed: State) -> Result<StateInUse, State> {
    match (requested, observed) {
        (State::Off, State::Bus) | (State::Out, State::Bus) => Ok(StateInUse::BusInUse),
        (State::Off, State::Out) => Ok(StateInUse::OutInUse),
        _ => if requested == observed {
            Ok(StateInUse::Expected)
        } else {
            Err(observed)
        },
    }
}

/// Power output pin state handling.
pub struct Power<A: access::Access + Send> {
    /// The power request attribute.
    pub power_request: Attribute<A>,
    /// The voltage regulators.
    pub reg: Regulators,
}

impl Power<Read> {
    /// Power output pin state reader for the voltage regulators `reg`.
    ///
    /// This uses the power request device file directly.
    pub fn read_only(reg: Regulators) -> (res: Self)
        ensures
            res.power_request.path@ == PWR_PATH@,
            res.reg == reg,
    {
        Power { power_request: Attribute::readable(String::from_str(PWR_PATH)), reg }
    }
}

impl Power<ReadWrite> {
    /// Power output pin state handler for the voltage regulators `reg`.
    ///
    /// This uses the power request device file directly.
    pub fn new(reg: Regulators) -> (res: Self)
        ensures
            res.power_request.path@ == PWR_PATH@,
            res.reg == reg,
    {
        Power { power_request: Attribute::read_and_writable(String::from_str(PWR_PATH)), reg }
    }
}

impl<A: access::Access + access::Write + Send> Power<A> {
    /// The content to write to the power request attribute to request `state`.
    ///
    /// Kernel drivers may affect whether power state actually changes.
    pub fn set_power_request(&self, state: State) -> (res: Vec<u8>)
        ensures
            res@ == seq![state_digit(state)],
    {
        state.to_bytes()
    }
}

impl<A: access::Access + access::Read + Send> Power<A> {
    /// The current power request, given what the power request attribute holds.
    ///
    /// This may not necessarily reflect the true power state if there are other users of the 5V
    /// output voltage regulator or bus voltage regulator.
    pub fn power_request(&self, content: &str) -> (res: Result<State, PowerDataError>)
        ensures
            res == match state_from_text(trim_end(content@)) {
                Some(s) => Ok(s),
                None => Err(PowerDataError::InvalidPowerRequestState),
            },
    {
        let n = crate::text::trim_end_len(content);
        let trimmed = content.substring_char(0, n);
        assert(trimmed@ =~= trim_end(content@));
        match State::from_str(trimmed) {
            Some(s) => Ok(s),
            None => Err(PowerDataError::InvalidPowerRequestState),
        }
    }

    /// Checks if 5V power output is enabled, given what the state attribute of its regulator
    /// holds.
    pub fn is_powered(&self, content: &str) -> (res: Result<bool, PowerDataError>)
        ensures
            res == regulator_state(content@),
    {
        self.reg.power.is_enabled(content)
    }

    /// Checks if bus power is enabled, given what the state attribute of its regulator holds.
    pub fn is_bus_powered(&self, content: &str) -> (res: Result<bool, PowerDataError>)
        ensures
            res == regulator_state(content@),
    {
        self.reg.bus.is_enabled(content)
    }

    /// Power state combined from the states of the voltage regulators.
    pub fn state(&self, bus_powered: bool, powered: bool) -> (res: Result<State, PowerDataError>)
        ensures
            res == combined_state(bus_powered, powered),
            res matches Ok(s) ==> (s == State::Bus <==> bus_powered),
    {
        match (bus_powered, powered) {
            (true, true) => Ok(State::Bus),
            (true, false) => Err(PowerDataError::BusPoweredWithoutOut),
            (false, true) => Ok(State::Out),
            (false, false) => Ok(State::Off),
        }
    }
}

impl<A: access::Access + access::Read + access::Write + Send> Power<A> {
    /// Decides what requesting `requested` resulted in, when the state then read from the
    /// regulators is `observed`.
    ///
    /// Kernel drivers may affect the result.
    pub fn request_state(&self, requested: State, observed: State) -> (res: Result<
        StateInUse,
        PowerStateRequestError,
    >)
        ensures
            match request_outcome(requested, observed) {
                Ok(u) => res matches Ok(v) && v == u,
                Err(s) => res matches Err(PowerStateRequestError::UnexpectedChange(t)) && t == s,
            },
    {
        match (requested, observed) {
            (State::Off, State::Bus) | (State::Out, State::Bus) => Ok(StateInUse::BusInUse),
            (State::Off, State::Out) => Ok(StateInUse::OutInUse),
            _ => if requested == observed {
                Ok(StateInUse::Expected)
            } else {
                Err(PowerStateRequestError::UnexpectedChange(observed))
            },
        }
    }
}

/// A request is fulfilled exactly when the regulators then show the requested state, and power
/// can only be found in use by others when more power than requested is on.
pub proof fn lemma_request_outcome(requested: State, observed: State)
    ensures
        request_outcome(requested, observed) == Ok::<StateInUse, State>(StateInUse::Expected)
            <==> requested == observed,
        request_outcome(requested, observed) is Err ==> (requested == State::Bus && observed
            != State::Bus) || (requested == State::Out && observed == State::Off),
{
}

} // verus!
