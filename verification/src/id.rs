//! ID pin handling: what the ADC value of the ID pin says of the connected TOH.

use crate::text::{parse_unsigned, parse_unsigned_range, trim_end, trim_end_len, NumberError};
use vstd::prelude::*;

verus! {

/// Identified TOH types according to read ADC value.
#[derive(Debug, Clone, Copy, PartialEq, Eq)]
pub enum TohId {
    /// Nominally 10k ohm resistor.
    R10k,
    /// Nominally 15k ohm resistor.
    R15k,
    /// Unknown value resistor.
    Unknown,
    /// Resistor not present or value too low to detect.
    NotPresent,
}

/// Value read from ID pin ADC.
///
/// Convertible to u16 for the inner value.
#[derive(Copy, Clone, Debug, Ord, PartialOrd, PartialEq, Eq)]
pub struct AdcValue(u16);

/// Readings from 0 up to (not including) this value mean that a TOH is present.
pub const PRESENCE_LIMIT: u16 = 1750;

/// The TOH type that an ADC reading of `v` stands for.
pub open spec fn identify_reading(v: u16) -> TohId {
    if 800 <= v <= 999 {
        TohId::R10k
    } else if 1000 <= v <= 1199 {
        TohId::R15k
    } else if v >= PRESENCE_LIMIT {
        TohId::NotPresent
    } else {
        TohId::Unknown
    }
}

impl AdcValue {
    /// The reading.
    pub closed spec fn reading(self) -> u16 {
        self.0
    }

    /// ADC value of reading `value`.
    pub fn new(value: u16) -> (res: Self)
        ensures
            res.reading() == value,
    {
        AdcValue(value)
    }

    /// Parses what the ADC value attribute holds: a decimal number, possibly followed by
    /// whitespace.
    pub fn parse(content: &str) -> (res: Result<Self, NumberError>)
        ensures
            match parse_unsigned(trim_end(content@), 10, u16::MAX as int) {
                Ok(v) => res matches Ok(a) && a.reading() == v,
                Err(e) => res == Err::<Self, NumberError>(e),
            },
    {
        let n = trim_end_len(content);
        assert(content@.subrange(0, n as int) =~= trim_end(content@));
        let r = parse_unsigned_range(content, 0, n, 10, u16::MAX as u64);
        match r {
            Ok(v) => {
                let res = AdcValue(v as u16);
                assert(res.reading() == v);
                Ok(res)
            },
            Err(e) => Err(e),
        }
    }

    /// Whether TOH is present according to the value.
    ///
    /// Note that implementations should also observe interrupt pin.
    pub fn is_toh_present(&self) -> (res: bool)
        ensures
            res == (self.reading() < PRESENCE_LIMIT),
    {
        self.0 < PRESENCE_LIMIT
    }

    /// Identify the resistor in the TOH.
    pub fn identify(&self) -> (res: TohId)
        ensures
            res == identify_reading(self.reading()),
    {
        if 800 <= self.0 && self.0 <= 999 {
            TohId::R10k
        } else if 1000 <= self.0 && self.0 <= 1199 {
            TohId::R15k
        } else if self.0 >= PRESENCE_LIMIT {
            TohId::NotPresent
        } else {
            TohId::Unknown
        }
    }
}

/// A reading identifies no resistor exactly when it says that no TOH is present.
pub proof fn lemma_not_present_iff_absent(v: AdcValue)
    ensures
        (identify_reading(v.reading()) == TohId::NotPresent) <==> !(v.reading() < PRESENCE_LIMIT),
{
}

impl From<AdcValue> for u16 {
    fn from(value: AdcValue) -> (res: u16) {
        value.0
    }
}

impl vstd::std_specs::convert::FromSpecImpl<AdcValue> for u16 {
    open spec fn obeys_from_spec() -> bool {
        true
    }

    open spec fn from_spec(v: AdcValue) -> u16 {
        v.reading()
    }
}

} // verus!
