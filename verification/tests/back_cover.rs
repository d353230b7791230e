use symbiosis::back_cover::{
    BlockCheck, ChipVerify,
    adc_median, blocks_for, fits_chip, page_write, same_prefix, still_present, AdcReadError,
    ChipReadStep, IdentificationError, PowerUpStep, VerifyStep,
};
use symbiosis::id::AdcValue;
use symbiosis::interrupt::IntState;

fn readings(values: [u16; 5]) -> [AdcValue; 5] {
    values.map(AdcValue::new)
}

fn median_of(values: [u16; 5]) -> Option<u16> {
    match adc_median(readings(values)) {
        Ok(v) => Some(u16::from(v)),
        Err(AdcReadError::Inconsistent) => None,
        Err(AdcReadError::Io(e)) => panic!("unexpected {e}"),
    }
}

/// The check as written with floating point numbers.
fn float_consistent(values: [u16; 5]) -> bool {
    let mut sorted = values;
    sorted.sort();
    f64::from(sorted[4] - sorted[0]) / f64::from(sorted[2]) <= 0.005
}

#[test]
fn median_of_consistent_readings() {
    assert_eq!(median_of([1004, 1000, 1002, 1001, 1003]), Some(1002));
    assert_eq!(median_of([900, 900, 900, 900, 900]), Some(900));
}

#[test]
fn inconsistent_readings() {
    assert_eq!(median_of([900, 1000, 1000, 1000, 1100]), None);
}

#[test]
fn spread_limit_is_half_a_percent() {
    assert_eq!(median_of([995, 1000, 1000, 1000, 1000]), Some(1000));
    assert_eq!(median_of([994, 1000, 1000, 1000, 1000]), None);
    for values in [[995, 1000, 1000, 1000, 1000], [994, 1000, 1000, 1000, 1000], [1, 2, 3, 4, 5]] {
        assert_eq!(median_of(values).is_some(), float_consistent(values));
    }
}

#[test]
fn zero_median() {
    assert_eq!(median_of([0, 0, 0, 0, 0]), Some(0));
    assert_eq!(median_of([0, 0, 0, 0, 1]), None);
}

#[test]
fn power_up_steps() {
    let step = |v: u16, int: IntState| PowerUpStep::decide(AdcValue::new(v), int);
    assert_eq!(step(900, IntState::Low), PowerUpStep::Present256BBlocks);
    assert_eq!(step(1100, IntState::Low), PowerUpStep::Present64kBBlocks);
    assert_eq!(step(1500, IntState::Low), PowerUpStep::Unsupported);
    assert_eq!(step(1800, IntState::Low), PowerUpStep::IdResistorNotDetected);
    assert_eq!(step(900, IntState::High), PowerUpStep::Disconnected);
    assert!(PowerUpStep::Present256BBlocks.keeps_power());
    assert!(PowerUpStep::Present64kBBlocks.keeps_power());
    assert!(!PowerUpStep::Unsupported.keeps_power());
    assert!(!PowerUpStep::Disconnected.keeps_power());
}

#[test]
fn presence_after_reading_adc() {
    assert!(still_present(AdcValue::new(900), IntState::Low));
    assert!(!still_present(AdcValue::new(900), IntState::High));
    assert!(!still_present(AdcValue::new(1750), IntState::Low));
}

#[test]
fn chip_read_steps() {
    assert_eq!(ChipReadStep::decide(0x50, true, false), ChipReadStep::ReadBlock);
    assert_eq!(ChipReadStep::decide(0x51, false, true), ChipReadStep::Finish);
    assert_eq!(ChipReadStep::decide(0x50, false, true), ChipReadStep::Fail);
    assert_eq!(ChipReadStep::decide(0x52, false, false), ChipReadStep::Fail);
}

#[test]
fn adc_errors_become_identification_errors() {
    let e = IdentificationError::from(AdcReadError::Inconsistent);
    assert!(matches!(e, IdentificationError::BadlySeated));
    let e = IdentificationError::from(AdcReadError::Io(std::io::Error::other("x")));
    assert!(matches!(e, IdentificationError::AdcIo(_)));
}

#[test]
fn chip_writing_pages() {
    assert!(fits_chip(2048));
    assert!(!fits_chip(2049));
    assert_eq!(blocks_for(0), 0);
    assert_eq!(blocks_for(1), 1);
    assert_eq!(blocks_for(256), 1);
    assert_eq!(blocks_for(257), 2);
    assert_eq!(page_write(0, 0, 16), (0, 16));
    assert_eq!(page_write(250, 0, 16), (250, 6));
    assert_eq!(page_write(512 + 32, 512, 16), (32, 16));
}

#[test]
fn chip_verifying_steps() {
    assert_eq!(VerifyStep::decide(300, 300), VerifyStep::Done);
    assert_eq!(VerifyStep::decide(300, 256), VerifyStep::ReadPartial);
    assert_eq!(VerifyStep::decide(300, 0), VerifyStep::ReadFull);
    assert!(same_prefix(&[1, 2, 3], &[1, 2, 4], 2));
    assert!(!same_prefix(&[1, 2, 3], &[1, 2, 4], 3));
    assert!(same_prefix(&[], &[], 0));
}

#[test]
fn chip_verify_counts_matching_blocks() {
    let mut state = ChipVerify::new(300);
    assert_eq!(state.next(), VerifyStep::ReadFull);
    let block = [7u8; 256];
    assert_eq!(state.check_block(&block, &block, 256), BlockCheck::Matched);
    assert_eq!(state.verified, 256);
    assert_eq!(state.next(), VerifyStep::ReadPartial);
    assert_eq!(state.check_block(&[1, 2, 3], &[1, 2, 3, 9], 3), BlockCheck::Matched);
    assert_eq!(state.finish(), Err(259));
    assert_eq!(state.check_block(&[], &[], 0), BlockCheck::Empty);
    assert_eq!(state.verified, 259);
}

#[test]
fn chip_verify_fails_at_first_difference() {
    let mut state = ChipVerify::new(4);
    assert_eq!(state.check_block(&[1, 2, 3, 4], &[1, 2, 0, 4], 4), BlockCheck::Mismatch { from: 0, to: 4 });
    assert_eq!(state.verified, 0);
    assert_eq!(state.check_block(&[1, 2, 3, 4], &[1, 2, 3, 4], 4), BlockCheck::Matched);
    assert_eq!(state.next(), VerifyStep::Done);
    assert_eq!(state.finish(), Ok(4));
}
