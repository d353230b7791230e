//! TOH communication: the states of a back cover and the decisions taken while it is detected,
//! identified and read over I²C.
//!
//! The device files are read and written by the caller, which hands the readings to the
//! functions here and performs what they decide.

use crate::id::{identify_reading, AdcValue, TohId, PRESENCE_LIMIT};
use crate::interrupt::IntState;
use vstd::prelude::*;
use vstd::relations::{sorted_by, total_ordering};

verus! {

/// State of a back cover.
pub trait State {}

/// TOH has not been been detected.
#[derive(Debug)]
pub struct Detached {}

/// TOH has been detected but not identified.
#[derive(Debug)]
pub struct Attached {}

/// Memory chip is readable with 8-bit data addressing.
///
/// This is the variant that has a memory chip with small blocks (up to 256 bytes).
#[derive(Debug)]
pub struct Present256BBlocks {}

/// Memory chip is readable with 16-bit data addressing.
///
/// This is the variant that has a memory chip with large (up to 64 kibibyte) blocks.
#[derive(Debug)]
pub struct Present64kBBlocks {}

impl State for Detached {}

impl State for Attached {}

impl State for Present256BBlocks {}

impl State for Present64kBBlocks {}

/// Error during reading ADC multiple times.
#[derive(Debug)]
pub enum AdcReadError {
    /// IO error while reading ADC.
    Io(std::io::Error),
    /// Inconsistent results.
    Inconsistent,
}

/// Error when identifying back cover.
#[derive(Debug)]
pub enum IdentificationError {
    /// IO error while identifying cover.
    ///
    /// This can happen when INT pin state is read again, or when power is enabled or disabled.
    Io(std::io::Error),
    /// IO error while reading ADC.
    AdcIo(std::io::Error),
    /// Cover got removed before identification.
    Disconnected,
    /// Badly seated back cover detected.
    ///
    /// In that case it is probably best to try again until cover is properly in place or removed.
    BadlySeated,
    /// ID resistor is not detected.
    ///
    /// In other words INT was low but ADC read as disconnected. This may be an intermittent error.
    IdResistorNotDetected,
}

impl From<AdcReadError> for IdentificationError {
    fn from(error: AdcReadError) -> (res: Self) {
        match error {
            AdcReadError::Io(error) => IdentificationError::AdcIo(error),
            AdcReadError::Inconsistent => IdentificationError::BadlySeated,
        }
    }
}

impl vstd::std_specs::convert::FromSpecImpl<AdcReadError> for IdentificationError {
    open spec fn obeys_from_spec() -> bool {
        true
    }

    open spec fn from_spec(error: AdcReadError) -> IdentificationError {
        match error {
            AdcReadError::Io(error) => IdentificationError::AdcIo(error),
            AdcReadError::Inconsistent => IdentificationError::BadlySeated,
        }
    }
}

/// Number of ADC readings that are taken to identify a TOH.
pub const ADC_READINGS: usize = 5;

/// The order of readings.
pub open spec fn reading_le() -> spec_fn(u16, u16) -> bool {
    |a: u16, b: u16| a <= b
}

/// The values of the readings `r`.
pub open spec fn reading_values(r: Seq<AdcValue>) -> Seq<u16> {
    r.map_values(|a: AdcValue| a.reading())
}

/// The readings `r` in ascending order.
pub open spec fn sorted_readings(r: Seq<AdcValue>) -> Seq<u16> {
    reading_values(r).sort_by(reading_le())
}

/// Whether the sorted readings `s` (of which there are five) are inconsistent: their spread, the
/// largest less the smallest, exceeds 0.5 % of their median.
pub open spec fn readings_inconsistent(s: Seq<u16>) -> bool {
    200 * (s[4] - s[0]) > s[2]
}

proof fn lemma_reading_le_total()
    ensures
        total_ordering(reading_le()),
{
}

/// The median of the five readings `readings`, or [`AdcReadError::Inconsistent`] where their
/// spread exceeds 0.5 % of the median.
pub fn adc_median(readings: [AdcValue; 5]) -> (res: Result<AdcValue, AdcReadError>)
    ensures
        sorted_readings(readings@).len() == 5,
        readings_inconsistent(sorted_readings(readings@)) ==> res matches Err(
            AdcReadError::Inconsistent,
        ),
        !readings_inconsistent(sorted_readings(readings@)) ==> (res matches Ok(v) && v.reading()
            == sorted_readings(readings@)[2]),
{
    let ghost vals = reading_values(readings@);
    let mut sorted: Vec<u16> = Vec::new();
    let mut i: usize = 0;
    proof {
        assert(vals.take(0) =~= Seq::<u16>::empty());
    }
    while i < 5
        invariant
            i <= 5,
            vals == reading_values(readings@),
            vals.len() == 5,
            sorted@.len() == i,
            sorted_by(sorted@, reading_le()),
            sorted@.to_multiset() == vals.take(i as int).to_multiset(),
        decreases 5 - i,
    {
        let x: u16 = u16::from(readings[i]);
        assert(x == vals[i as int]);
        let mut j: usize = 0;
        while j < sorted.len() && sorted[j] <= x
            invariant
                j <= sorted@.len(),
                forall|k: int| 0 <= k < j ==> sorted@[k] <= x,
            decreases sorted@.len() - j,
        {
            j = j + 1;
        }
        let ghost before = sorted@;
        sorted.insert(j, x);
        proof {
            assert(sorted@ == before.insert(j as int, x));
            assert forall|a: int, b: int| 0 <= a < b < sorted@.len() implies #[trigger] (reading_le())(
                sorted@[a],
                sorted@[b],
            ) by {
                if b < j {
                    assert(sorted@[a] == before[a] && sorted@[b] == before[b]);
                    assert((reading_le())(before[a], before[b]));
                } else if b == j {
                    assert(sorted@[a] == before[a]);
                } else if a < j {
                    assert(sorted@[a] == before[a] && sorted@[b] == before[b - 1]);
                    assert((reading_le())(before[a], before[b - 1]));
                } else if a == j {
                    assert(sorted@[b] == before[b - 1]);
                    assert(j < before.len());
                    assert(before[j as int] > x);
                    if b - 1 > j {
                        assert((reading_le())(before[j as int], before[b - 1]));
                    }
                } else {
                    assert(sorted@[a] == before[a - 1] && sorted@[b] == before[b - 1]);
                    assert((reading_le())(before[a - 1], before[b - 1]));
                }
            }
            vstd::seq_lib::to_multiset_insert(before, j as int, x);
            assert(vals.take(i + 1) =~= vals.take(i as int).push(x));
            vstd::seq_lib::to_multiset_build(vals.take(i as int), x);
        }
        i = i + 1;
    }
    proof {
        assert(vals.take(5) =~= vals);
        lemma_reading_le_total();
        vals.lemma_sort_by_ensures(reading_le());
        vstd::seq_lib::lemma_sorted_unique(sorted@, vals.sort_by(reading_le()), reading_le());
    }
    let min = sorted[0];
    let median = sorted[2];
    let max = sorted[4];
    proof {
        assert((reading_le())(sorted@[0], sorted@[4]));
    }
    if 200 * ((max - min) as u32) > median as u32 {
        Err(AdcReadError::Inconsistent)
    } else {
        Ok(AdcValue::new(median))
    }
}

/// What powering up an attached TOH leads to.
#[derive(Debug, Clone, Copy, PartialEq, Eq, Structural)]
pub enum PowerUpStep {
    /// TOH with memory chip containing up to 256 byte blocks; power stays on.
    Present256BBlocks,
    /// TOH with memory chip containing up to 64 kiB blocks; power stays on.
    Present64kBBlocks,
    /// TOH of an unsupported type; power goes off and the TOH stays attached.
    Unsupported,
    /// TOH got disconnected; power goes off.
    Disconnected,
    /// No ID resistor was found though the interrupt pin says that a TOH is there; power goes off.
    IdResistorNotDetected,
}

/// What powering up leads to, where the ADC reads `reading` and then the interrupt pin is in
/// `int_state`.
pub open spec fn power_up_step(reading: u16, int_state: IntState) -> PowerUpStep {
    if int_state != IntState::Low {
        PowerUpStep::Disconnected
    } else {
        match identify_reading(reading) {
            TohId::R10k => PowerUpStep::Present256BBlocks,
            TohId::R15k => PowerUpStep::Present64kBBlocks,
            TohId::NotPresent => PowerUpStep::IdResistorNotDetected,
            TohId::Unknown => PowerUpStep::Unsupported,
        }
    }
}

impl PowerUpStep {
    /// Decides what powering up leads to, where the ADC reads `adc` after power was turned on and
    /// then the interrupt pin is in `int_state`.
    pub fn decide(adc: AdcValue, int_state: IntState) -> (res: Self)
        ensures
            res == power_up_step(adc.reading(), int_state),
    {
        if int_state != IntState::Low {
            return PowerUpStep::Disconnected;
        }
        match adc.identify() {
            TohId::R10k => PowerUpStep::Present256BBlocks,
            TohId::R15k => PowerUpStep::Present64kBBlocks,
            TohId::NotPresent => PowerUpStep::IdResistorNotDetected,
            TohId::Unknown => PowerUpStep::Unsupported,
        }
    }

    /// Whether the power stays on.
    pub fn keeps_power(&self) -> (res: bool)
        ensures
            res == (*self == PowerUpStep::Present256BBlocks || *self
                == PowerUpStep::Present64kBBlocks),
    {
        match self {
            PowerUpStep::Present256BBlocks | PowerUpStep::Present64kBBlocks => true,
            _ => false,
        }
    }
}

/// Power stays on exactly when a supported TOH with its ID resistor is found while the interrupt
/// pin stays low.
pub proof fn lemma_power_up_keeps_power(reading: u16, int_state: IntState)
    ensures
        (power_up_step(reading, int_state) == PowerUpStep::Present256BBlocks || power_up_step(
            reading,
            int_state,
        ) == PowerUpStep::Present64kBBlocks) <==> (int_state == IntState::Low && 800 <= reading
            <= 1199),
{
}

/// What powering up leads to, by the ADC reading: with the interrupt pin low, no ID resistor is
/// found exactly when the reading is at or above the presence limit, and the TOH is unsupported
/// exactly when the reading is below it and identifies no known resistor; with the pin not low,
/// the TOH is gone.
pub proof fn lemma_power_up_outcomes(reading: u16, int_state: IntState)
    ensures
        int_state != IntState::Low ==> power_up_step(reading, int_state)
            == PowerUpStep::Disconnected,
        int_state == IntState::Low ==> ((power_up_step(reading, int_state)
            == PowerUpStep::IdResistorNotDetected) <==> reading >= PRESENCE_LIMIT),
        int_state == IntState::Low ==> ((power_up_step(reading, int_state)
            == PowerUpStep::Unsupported) <==> (reading < 800 || (1200 <= reading
            && reading < PRESENCE_LIMIT))),
        int_state == IntState::Low && identify_reading(reading) == TohId::Unknown ==> power_up_step(
            reading,
            int_state,
        ) == PowerUpStep::Unsupported,
        int_state == IntState::Low ==> ((power_up_step(reading, int_state)
            == PowerUpStep::Present256BBlocks) <==> (800 <= reading && reading <= 999)),
        int_state == IntState::Low ==> ((power_up_step(reading, int_state)
            == PowerUpStep::Present64kBBlocks) <==> (1000 <= reading && reading <= 1199)),
{
}

/// Whether a TOH is present, where the interrupt pin was low, then the ADC read `adc` and then
/// the interrupt pin was in `int_after`.
pub fn still_present(adc: AdcValue, int_after: IntState) -> (res: bool)
    ensures
        res == (adc.reading() < PRESENCE_LIMIT && int_after == IntState::Low),
{
    adc.is_toh_present() && int_after == IntState::Low
}

/// Address of the first block of the memory chip on the bus.
pub const FIRST_BLOCK_ADDRESS: u8 = 0x50;

/// Address after the last block of the memory chip on the bus.
pub const END_BLOCK_ADDRESS: u8 = 0x60;

/// What reading the memory chip does after setting the data address of the block at an address.
#[derive(Debug, Clone, Copy, PartialEq, Eq, Structural)]
pub enum ChipReadStep {
    /// The block is there: read it and go on with the next address.
    ReadBlock,
    /// There are no more blocks: the content is complete.
    Finish,
    /// Reading failed.
    Fail,
}

/// What reading the memory chip does after setting the data address of the block at `address`,
/// where `written` tells whether that worked and `no_device` whether the failure said that there
/// is no device at the address. The first block must be there.
pub open spec fn chip_read_step(address: u8, written: bool, no_device: bool) -> ChipReadStep {
    if written {
        ChipReadStep::ReadBlock
    } else if no_device && address != FIRST_BLOCK_ADDRESS {
        ChipReadStep::Finish
    } else {
        ChipReadStep::Fail
    }
}

impl ChipReadStep {
    /// Decides what reading the memory chip does after setting the data address of the block at
    /// `address`.
    pub fn decide(address: u8, written: bool, no_device: bool) -> (res: Self)
        ensures
            res == chip_read_step(address, written, no_device),
    {
        if written {
            ChipReadStep::ReadBlock
        } else if no_device && address != FIRST_BLOCK_ADDRESS {
            ChipReadStep::Finish
        } else {
            ChipReadStep::Fail
        }
    }
}

/// Size of a block of the memory chip.
pub const CHIP_BLOCK_SIZE: u64 = 256;

/// Number of blocks of the memory chips that can be written.
pub const CHIP_BLOCKS: u64 = 8;

/// Whether content of `size` bytes fits the memory chip.
pub fn fits_chip(size: u64) -> (res: bool)
    ensures
        res == (size <= CHIP_BLOCK_SIZE * CHIP_BLOCKS),
{
    size <= CHIP_BLOCK_SIZE * CHIP_BLOCKS
}

/// Number of blocks that content of `size` bytes takes.
pub fn blocks_for(size: u64) -> (res: u64)
    ensures
        res * CHIP_BLOCK_SIZE >= size,
        res == 0 || (res - 1) * CHIP_BLOCK_SIZE < size,
{
    size / CHIP_BLOCK_SIZE + if size % CHIP_BLOCK_SIZE != 0 {
        1
    } else {
        0
    }
}

/// The data address and the largest length of the next page write, where `written` bytes are
/// written and the current block begins at `block_start`: a page does not cross the end of the
/// block and holds at most `page_size` bytes.
pub fn page_write(written: u64, block_start: u64, page_size: u64) -> (res: (u8, u64))
    requires
        block_start <= written < block_start + CHIP_BLOCK_SIZE,
    ensures
        res.0 == written - block_start,
        res.1 == if CHIP_BLOCK_SIZE - (written - block_start) < page_size {
            CHIP_BLOCK_SIZE - (written - block_start)
        } else {
            page_size as int
        },
{
    let data_address = written - block_start;
    let room = CHIP_BLOCK_SIZE - data_address;
    let length = if room < page_size {
        room
    } else {
        page_size
    };
    (data_address as u8, length)
}

/// What verifying the memory chip does next, where content of `size` bytes is verified up to
/// `verified` bytes.
#[derive(Debug, Clone, Copy, PartialEq, Eq, Structural)]
pub enum VerifyStep {
    /// All bytes are verified.
    Done,
    /// Less than a block is left: read what the content has left, up to a block.
    ReadPartial,
    /// Read a whole block.
    ReadFull,
}

/// What verifying does next, where content of `size` bytes is verified up to `verified` bytes.
pub open spec fn verify_step(size: u64, verified: u64) -> VerifyStep {
    if verified == size {
        VerifyStep::Done
    } else if size - verified < CHIP_BLOCK_SIZE {
        VerifyStep::ReadPartial
    } else {
        VerifyStep::ReadFull
    }
}

impl VerifyStep {
    /// Decides what verifying does next, where content of `size` bytes is verified up to
    /// `verified` bytes.
    pub fn decide(size: u64, verified: u64) -> (res: Self)
        requires
            verified <= size,
        ensures
            res == verify_step(size, verified),
    {
        if verified == size {
            VerifyStep::Done
        } else if size - verified < CHIP_BLOCK_SIZE {
            VerifyStep::ReadPartial
        } else {
            VerifyStep::ReadFull
        }
    }
}

/// Whether the first `length` bytes of `expected` and `got` are the same.
pub fn same_prefix(expected: &[u8], got: &[u8], length: usize) -> (res: bool)
    requires
        length <= expected@.len(),
        length <= got@.len(),
    ensures
        res == (expected@.take(length as int) == got@.take(length as int)),
{
    let mut i: usize = 0;
    while i < length
        invariant
            i <= length,
            length <= expected@.len(),
            length <= got@.len(),
            forall|j: int| 0 <= j < i ==> expected@[j] == got@[j],
        decreases length - i,
    {
        if expected[i] != got[i] {
            assert(expected@.take(length as int)[i as int] != got@.take(length as int)[i as int]);
            return false;
        }
        i = i + 1;
    }
    assert(expected@.take(length as int) =~= got@.take(length as int));
    true
}

/// What a block read for verifying the chip tells.
#[derive(Debug, Clone, Copy, PartialEq, Eq, Structural)]
pub enum BlockCheck {
    /// The block matched and is verified; go on.
    Matched,
    /// The bytes from `from` up to `to` of the content differ: verifying failed.
    Mismatch { from: u64, to: u64 },
    /// Nothing was read: stop reading.
    Empty,
}

/// Verifying the memory chip against content of `size` bytes, of which the first `verified`
/// bytes have been read back from the chip and found the same.
#[derive(Debug)]
pub struct ChipVerify {
    pub size: u64,
    pub verified: u64,
}

impl ChipVerify {
    /// Whether no more bytes are verified than the content has.
    pub open spec fn wf(&self) -> bool {
        self.verified <= self.size
    }

    /// Verifying content of `size` bytes, nothing verified yet.
    pub fn new(size: u64) -> (res: Self)
        ensures
            res.wf(),
            res.size == size,
            res.verified == 0,
    {
        ChipVerify { size, verified: 0 }
    }

    /// What to read next.
    pub fn next(&self) -> (res: VerifyStep)
        requires
            self.wf(),
        ensures
            res == verify_step(self.size, self.verified),
    {
        VerifyStep::decide(self.size, self.verified)
    }

    /// Takes in a block of `length` bytes read from the content (`expected`) and from the chip
    /// (`got`): where they are the same, they count as verified; where they differ, verifying
    /// fails at them; where nothing was read, reading stops.
    pub fn check_block(&mut self, expected: &[u8], got: &[u8], length: usize) -> (res: BlockCheck)
        requires
            old(self).wf(),
            length <= expected@.len(),
            length <= got@.len(),
            old(self).verified + length <= old(self).size,
        ensures
            final(self).wf(),
            final(self).size == old(self).size,
            length == 0 ==> res == BlockCheck::Empty && final(self).verified == old(self).verified,
            length > 0 && expected@.take(length as int) == got@.take(length as int) ==> res
                == BlockCheck::Matched && final(self).verified == old(self).verified + length,
            length > 0 && expected@.take(length as int) != got@.take(length as int) ==> res
                == (BlockCheck::Mismatch {
                from: old(self).verified,
                to: (old(self).verified + length) as u64,
            }) && final(self).verified == old(self).verified,
    {
        if length == 0 {
            return BlockCheck::Empty;
        }
        let end = self.verified + length as u64;
        if !same_prefix(expected, got, length) {
            return BlockCheck::Mismatch { from: self.verified, to: end };
        }
        self.verified = end;
        BlockCheck::Matched
    }

    /// The outcome once reading has stopped: the number of verified bytes, as `Ok` where it is
    /// the whole content and as `Err` where the chip gave fewer bytes.
    pub fn finish(&self) -> (res: Result<u64, u64>)
        ensures
            self.verified == self.size ==> res == Ok::<u64, u64>(self.verified),
            self.verified != self.size ==> res == Err::<u64, u64>(self.verified),
    {
        if self.verified == self.size {
            Ok(self.verified)
        } else {
            Err(self.verified)
        }
    }
}

} // verus!
