//! The decisions of the daemon's main loop, from what the back cover told to what to do next.
//!
//! The loop waits for a TOH, powers it up, reads its chip, publishes it and waits for it to be
//! disconnected. Right after the daemon starts, a TOH that is already connected is taken as
//! present since before: units that only start on service start are started for it. Once a
//! round finds the cover absent at first, later rounds no longer ask.

use vstd::prelude::*;

verus! {

/// Milliseconds to wait after powering up a TOH before reading its chip.
pub const CHIP_SETTLE_MS: u64 = 100;

/// Seconds to wait before trying again after an unsupported TOH or a failed power up.
pub const RETRY_SECS: u64 = 10;

/// Seconds to pause after the chip of a TOH has been read, before the next round.
pub const ROUND_PAUSE_SECS: u64 = 1;

/// What powering up a connected TOH gave.
#[derive(Debug, Clone, Copy, PartialEq, Eq)]
pub enum PowerUpResult {
    /// A TOH with a memory chip that can be read.
    Chip,
    /// A TOH of an unsupported type.
    Unsupported,
    /// Power up failed.
    Failed,
}

/// What to do after powering up a TOH.
#[derive(Debug, Clone, Copy, PartialEq, Eq)]
pub enum AfterPowerUp {
    /// Wait `settle_ms` milliseconds, then read the chip.
    ReadChip { settle_ms: u64 },
    /// Log that the TOH type is unsupported where `log` is set, then wait for the TOH to be
    /// disconnected, at most `retry_secs` seconds.
    WaitUnsupported { log: bool, retry_secs: u64 },
    /// Wait `retry_secs` seconds before trying again.
    Retry { retry_secs: u64 },
}

/// What the main loop remembers between rounds.
#[derive(Debug)]
pub struct Daemon {
    /// Whether the TOH has been connected since the daemon started, as far as the rounds so far
    /// have asked.
    pub toh_already_present: bool,
    /// Whether an unsupported TOH has been logged.
    pub unsupported_logged: bool,
}

/// What to do after powering up gave `result`, where an unsupported TOH has been logged before
/// or not (`logged`).
pub open spec fn after_power_up_spec(result: PowerUpResult, logged: bool) -> AfterPowerUp {
    match result {
        PowerUpResult::Chip => AfterPowerUp::ReadChip { settle_ms: CHIP_SETTLE_MS },
        PowerUpResult::Unsupported => AfterPowerUp::WaitUnsupported {
            log: !logged,
            retry_secs: RETRY_SECS,
        },
        PowerUpResult::Failed => AfterPowerUp::Retry { retry_secs: RETRY_SECS },
    }
}

impl Daemon {
    /// The state right after start: the TOH counts as present since before until a round finds
    /// it absent.
    pub fn new() -> (res: Self)
        ensures
            res.toh_already_present,
            !res.unsupported_logged,
    {
        Daemon { toh_already_present: true, unsupported_logged: false }
    }

    /// Whether this round asks the back cover whether it is present, before waiting for it.
    pub fn asks_presence(&self) -> (res: bool)
        ensures
            res == self.toh_already_present,
    {
        self.toh_already_present
    }

    /// Takes in whether the back cover was present when asked.
    pub fn presence(&mut self, present: bool)
        ensures
            final(self).toh_already_present == (old(self).toh_already_present && present),
            final(self).unsupported_logged == old(self).unsupported_logged,
    {
        self.toh_already_present = self.toh_already_present && present;
    }

    /// Decides what to do after powering up gave `result`.
    pub fn after_power_up(&mut self, result: PowerUpResult) -> (res: AfterPowerUp)
        ensures
            res == after_power_up_spec(result, old(self).unsupported_logged),
            final(self).unsupported_logged == (old(self).unsupported_logged || result
                == PowerUpResult::Unsupported),
            final(self).toh_already_present == old(self).toh_already_present,
    {
        match result {
            PowerUpResult::Chip => AfterPowerUp::ReadChip { settle_ms: CHIP_SETTLE_MS },
            PowerUpResult::Unsupported => {
                let log = !self.unsupported_logged;
                self.unsupported_logged = true;
                AfterPowerUp::WaitUnsupported { log, retry_secs: RETRY_SECS }
            },
            PowerUpResult::Failed => AfterPowerUp::Retry { retry_secs: RETRY_SECS },
        }
    }

    /// Whether the units of a TOH found in this round are started as on service start: only
    /// those marked to run on start are, for a TOH that was connected when the daemon started.
    pub fn on_service_start(&self) -> (res: bool)
        ensures
            res == self.toh_already_present,
    {
        self.toh_already_present
    }
}

/// An unsupported TOH is logged once: after it has been logged, later unsupported TOHs are not.
pub proof fn lemma_unsupported_logged_once(logged: bool)
    ensures
        after_power_up_spec(PowerUpResult::Unsupported, logged) matches AfterPowerUp::WaitUnsupported {
            log,
            ..
        } && log == !logged,
        !(after_power_up_spec(PowerUpResult::Unsupported, true) matches AfterPowerUp::WaitUnsupported {
            log: true,
            ..
        }),
{
}

} // verus!
