//! The NETIO PowerPDU 4C power distribution unit: its wire codes, decoding its status
//! response into per-outlet reports, and the mocked unit used without hardware.
use vstd::prelude::*;

verus! {

/// An action requested of a PDU outlet; `code` gives its number on the wire.
#[derive(Clone, Copy, PartialEq, Eq, Structural, Debug)]
pub enum PowerAction {
    Off,
    On,
    ShortOff,
    ShortOn,
    Toggle,
    NoChange,
    Ignore,
}

/// The state of a PDU outlet; `code` gives its number on the wire.
#[derive(Clone, Copy, PartialEq, Eq, Structural, Debug)]
pub enum PowerState {
    Off,
    On,
}

pub open spec fn action_code(a: PowerAction) -> u32 {
    match a {
        PowerAction::Off => 0,
        PowerAction::On => 1,
        PowerAction::ShortOff => 2,
        PowerAction::ShortOn => 3,
        PowerAction::Toggle => 4,
        PowerAction::NoChange => 5,
        PowerAction::Ignore => 6,
    }
}

pub open spec fn state_code(s: PowerState) -> u32 {
    match s {
        PowerState::Off => 0,
        PowerState::On => 1,
    }
}

pub open spec fn action_of_code(code: u32) -> Option<PowerAction> {
    if code == 0 {
        Some(PowerAction::Off)
    } else if code == 1 {
        Some(PowerAction::On)
    } else if code == 2 {
        Some(PowerAction::ShortOff)
    } else if code == 3 {
        Some(PowerAction::ShortOn)
    } else if code == 4 {
        Some(PowerAction::Toggle)
    } else if code == 5 {
        Some(PowerAction::NoChange)
    } else if code == 6 {
        Some(PowerAction::Ignore)
    } else {
        None
    }
}

pub open spec fn state_of_code(code: u32) -> Option<PowerState> {
    if code == 0 {
        Some(PowerState::Off)
    } else if code == 1 {
        Some(PowerState::On)
    } else {
        None
    }
}

impl PowerAction {
    /// The action's number on the wire.
    pub fn code(&self) -> (r: u32)
        ensures
            r == action_code(*self),
    {
        match self {
            PowerAction::Off => 0,
            PowerAction::On => 1,
            PowerAction::ShortOff => 2,
            PowerAction::ShortOn => 3,
            PowerAction::Toggle => 4,
            PowerAction::NoChange => 5,
            PowerAction::Ignore => 6,
        }
    }

    /// The action with the given wire number, if there is one.
    pub fn from_code(code: u32) -> (r: Option<PowerAction>)
        ensures
            r == action_of_code(code),
    {
        match code {
            0 => Some(PowerAction::Off),
            1 => Some(PowerAction::On),
            2 => Some(PowerAction::ShortOff),
            3 => Some(PowerAction::ShortOn),
            4 => Some(PowerAction::Toggle),
            5 => Some(PowerAction::NoChange),
            6 => Some(PowerAction::Ignore),
            _ => None,
        }
    }
}

impl PowerState {
    /// The state's number on the wire.
    pub fn code(&self) -> (r: u32)
        ensures
            r == state_code(*self),
    {
        match self {
            PowerState::Off => 0,
            PowerState::On => 1,
        }
    }

    /// The state with the given wire number, if there is one.
    pub fn from_code(code: u32) -> (r: Option<PowerState>)
        ensures
            r == state_of_code(code),
    {
        match code {
            0 => Some(PowerState::Off),
            1 => Some(PowerState::On),
            _ => None,
        }
    }
}

/// Every action's wire number decodes to the action, and so does every state's; every
/// wire number that decodes encodes back to itself.
pub proof fn lemma_codes_round_trip(a: PowerAction, s: PowerState, code: u32)
    ensures
        action_of_code(action_code(a)) == Some(a),
        state_of_code(state_code(s)) == Some(s),
        action_of_code(code) matches Some(b) ==> action_code(b) == code,
        state_of_code(code) matches Some(t) ==> state_code(t) == code,
{
}

/// The part of one outlet of a PDU status response that the reports are made of.
#[derive(Clone, Copy, Debug)]
pub struct OutletReading {
    /// Outlet number, from 1.
    pub id: u32,
    /// Current drawn, in milliamperes.
    pub current: u32,
    pub state: PowerState,
}

/// Reports of a four-outlet PDU, outlet by outlet.
#[derive(Debug)]
pub struct PowerPdu4CReports {
    pub power: Vec<bool>,
    /// Current drawn by each outlet, in milliamperes.
    pub current_milliamps: Vec<u32>,
}

/// Power of outlet `o` (0-based) after the readings: the last reading for the outlet wins;
/// outlets without a reading are off.
pub open spec fn outlet_power(readings: Seq<OutletReading>, o: int) -> bool
    decreases readings.len(),
{
    if readings.len() == 0 {
        false
    } else if readings.last().id - 1 == o {
        readings.last().state == PowerState::On
    } else {
        outlet_power(readings.drop_last(), o)
    }
}

/// Current of outlet `o` (0-based) after the readings: the last reading for the outlet
/// wins; outlets without a reading draw none.
pub open spec fn outlet_current(readings: Seq<OutletReading>, o: int) -> u32
    decreases readings.len(),
{
    if readings.len() == 0 {
        0
    } else if readings.last().id - 1 == o {
        readings.last().current
    } else {
        outlet_current(readings.drop_last(), o)
    }
}

/// Turns the outlets of a PDU status response into reports of power and current per
/// outlet. Every outlet number must lie between 1 and 4.
pub fn handle_response(outputs: &Vec<OutletReading>) -> (r: PowerPdu4CReports)
    requires
        forall|i: int| 0 <= i < outputs@.len() ==> 1 <= (#[trigger] outputs@[i]).id <= 4,
    ensures
        r.power@.len() == 4,
        r.current_milliamps@.len() == 4,
        forall|o: int| 0 <= o < 4 ==> #[trigger] r.power@[o] == outlet_power(outputs@, o),
        forall|o: int| 0 <= o < 4 ==> #[trigger] r.current_milliamps@[o] == outlet_current(outputs@, o),
{
    let mut power: Vec<bool> = vec![false, false, false, false];
    let mut current: Vec<u32> = vec![0, 0, 0, 0];
    let n = outputs.len();
    let mut i: usize = 0;
    while i < n
        invariant
            n == outputs@.len(),
            i <= n,
            forall|j: int| 0 <= j < outputs@.len() ==> 1 <= (#[trigger] outputs@[j]).id <= 4,
            power@.len() == 4,
            current@.len() == 4,
            forall|o: int| 0 <= o < 4 ==> #[trigger] power@[o] == outlet_power(outputs@.take(i as int), o),
            forall|o: int| 0 <= o < 4 ==> #[trigger] current@[o] == outlet_current(outputs@.take(i as int), o),
        decreases n - i,
    {
        let reading = outputs[i];
        let channel = (reading.id - 1) as usize;
        power.set(channel, reading.state == PowerState::On);
        current.set(channel, reading.current);
        proof {
            assert(outputs@.take(i as int + 1).drop_last() =~= outputs@.take(i as int));
            assert(outputs@.take(i as int + 1).last() == reading);
        }
        i = i + 1;
    }
    proof {
        assert(outputs@.take(n as int) =~= outputs@);
    }
    PowerPdu4CReports { power, current_milliamps: current }
}

/// A PDU without hardware: it keeps the power of its four outlets and reports it.
#[derive(Debug)]
pub struct Netio4cMocked {
    pub state: Vec<bool>,
}

impl Netio4cMocked {
    /// All four outlets off.
    pub fn new() -> (r: Self)
        ensures
            r.state@ == seq![false, false, false, false],
    {
        Netio4cMocked { state: vec![false, false, false, false] }
    }

    /// Switches one outlet (0-based) on or off.
    pub fn set_power_channel(&mut self, channel: usize, value: bool)
        requires
            channel < old(self).state@.len(),
        ensures
            final(self).state@ == old(self).state@.update(channel as int, value),
    {
        self.state.set(channel, value);
    }

    /// The reports of a poll: the power of every outlet, no current.
    pub fn poll(&self) -> (r: Vec<bool>)
        ensures
            r@ == self.state@,
    {
        self.state.clone()
    }
}

/// Configuration of a NETIO PowerPDU 4C.
#[derive(Debug)]
pub struct Netio4Config {
    pub instance: String,
    pub address: String,
    pub username: String,
    pub password: String,
}

/// Configuration of a mocked PDU.
#[derive(Clone, Copy, Debug)]
pub struct Netio4MockedConfig;

/// Configuration of a NETIO device.
#[derive(Debug)]
pub enum NetioConfig {
    PowerPdu4c(Netio4Config),
    PowerPdu4cMocked(Netio4MockedConfig),
}

} // verus!
