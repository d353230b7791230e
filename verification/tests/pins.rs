use symbiosis::attr::Attribute;
use symbiosis::id::{AdcValue, TohId};
use symbiosis::interrupt::{IntState, IntStateError};
use symbiosis::power::{
    is_regulator_dir, Power, PowerDataError, PowerStateRequestError, Regulator, Regulators, State,
    StateInUse,
};
use symbiosis::text::NumberError;

fn regulators() -> Regulators {
    let candidates = vec![
        ("/sys/class/regulator/regulator.1".to_string(), "toh-bus\n".to_string()),
        ("/sys/class/regulator/regulator.2".to_string(), "other\n".to_string()),
        ("/sys/class/regulator/regulator.3".to_string(), "toh-5v\n".to_string()),
    ];
    Regulators::new(&candidates).unwrap()
}

#[test]
fn adc_identifies_resistors() {
    assert!(matches!(AdcValue::new(800).identify(), TohId::R10k));
    assert!(matches!(AdcValue::new(999).identify(), TohId::R10k));
    assert!(matches!(AdcValue::new(1000).identify(), TohId::R15k));
    assert!(matches!(AdcValue::new(1199).identify(), TohId::R15k));
    assert!(matches!(AdcValue::new(1200).identify(), TohId::Unknown));
    assert!(matches!(AdcValue::new(799).identify(), TohId::Unknown));
    assert!(matches!(AdcValue::new(1750).identify(), TohId::NotPresent));
}

#[test]
fn adc_presence_limit() {
    assert!(AdcValue::new(0).is_toh_present());
    assert!(AdcValue::new(1749).is_toh_present());
    assert!(!AdcValue::new(1750).is_toh_present());
}

#[test]
fn adc_parses_attribute_content() {
    assert_eq!(AdcValue::parse("1234\n").map(u16::from), Ok(1234));
    assert_eq!(AdcValue::parse("+7").map(u16::from), Ok(7));
    assert_eq!(AdcValue::parse("65536").map(u16::from), Err(NumberError::PosOverflow));
    assert_eq!(AdcValue::parse("12a").map(u16::from), Err(NumberError::InvalidDigit));
    assert_eq!(AdcValue::parse(" \n").map(u16::from), Err(NumberError::Empty));
}

#[test]
fn interrupt_states() {
    assert_eq!(IntState::Low.toggle(), IntState::High);
    assert_eq!(IntState::High.toggle().toggle(), IntState::High);
    assert_eq!(IntState::from_content("0\n"), Ok(IntState::Low));
    assert_eq!(IntState::from_content("1"), Ok(IntState::High));
    assert_eq!(IntState::from_content("2"), Err(IntStateError::InvalidState));
    assert_eq!(
        IntState::from_content("x"),
        Err(IntStateError::NotANumber(NumberError::InvalidDigit))
    );
}

#[test]
fn regulator_states() {
    let reg = Regulator::new("/sys/class/regulator/regulator.3");
    assert_eq!(reg.attr.path, "/sys/class/regulator/regulator.3/state");
    assert_eq!(reg.is_enabled("enabled\n"), Ok(true));
    assert_eq!(reg.is_enabled("disabled"), Ok(false));
    assert_eq!(reg.is_enabled("on"), Err(PowerDataError::InvalidRegulatorState));
}

#[test]
fn regulators_by_name() {
    let reg = regulators();
    assert_eq!(reg.power.attr.path, "/sys/class/regulator/regulator.3/state");
    assert_eq!(reg.bus.attr.path, "/sys/class/regulator/regulator.1/state");
    let missing = vec![("/a".to_string(), "toh-bus".to_string())];
    assert!(matches!(Regulators::new(&missing), Err(PowerDataError::PowerRegulatorNotFound)));
    let missing = vec![("/a".to_string(), "toh-5v".to_string())];
    assert!(matches!(Regulators::new(&missing), Err(PowerDataError::BusRegulatorNotFound)));
}

#[test]
fn power_request_states() {
    let power = Power::new(regulators());
    assert_eq!(power.power_request.path, "/sys/class/yft_pogo_pin/yft_pogo_pin_5v_out_state");
    assert_eq!(power.set_power_request(State::Bus), vec![b'2']);
    assert_eq!(power.set_power_request(State::Off), vec![b'0']);
    assert_eq!(power.power_request("1\n"), Ok(State::Out));
    assert_eq!(power.power_request("3"), Err(PowerDataError::InvalidPowerRequestState));
    assert_eq!(power.is_powered("enabled"), Ok(true));
    assert_eq!(power.is_bus_powered("disabled"), Ok(false));
}

#[test]
fn combined_power_state() {
    let power = Power::read_only(regulators());
    assert_eq!(power.state(true, true), Ok(State::Bus));
    assert_eq!(power.state(false, true), Ok(State::Out));
    assert_eq!(power.state(false, false), Ok(State::Off));
    assert_eq!(power.state(true, false), Err(PowerDataError::BusPoweredWithoutOut));
}

#[test]
fn requested_states_in_use() {
    let power = Power::new(regulators());
    assert!(matches!(power.request_state(State::Off, State::Off), Ok(StateInUse::Expected)));
    assert!(matches!(power.request_state(State::Off, State::Bus), Ok(StateInUse::BusInUse)));
    assert!(matches!(power.request_state(State::Out, State::Bus), Ok(StateInUse::BusInUse)));
    assert!(matches!(power.request_state(State::Off, State::Out), Ok(StateInUse::OutInUse)));
    assert!(matches!(
        power.request_state(State::Bus, State::Out),
        Err(PowerStateRequestError::UnexpectedChange(State::Out))
    ));
}

#[test]
fn state_text_roundtrip() {
    for state in [State::Off, State::Out, State::Bus] {
        let bytes = state.to_bytes();
        let text = String::from_utf8(bytes).unwrap();
        assert_eq!(State::from_str(&text), Some(state));
    }
}

#[test]
fn attributes_keep_paths() {
    let attr = Attribute::readable("/sys/x".to_string());
    assert_eq!(attr.clone().path, "/sys/x");
    assert_eq!(Attribute::writable("/sys/y".to_string()).path, "/sys/y");
    assert_eq!(Attribute::read_and_writable("/sys/z".to_string()).path, "/sys/z");
}

#[test]
fn power_data_error_messages() {
    assert_eq!(PowerDataError::InvalidRegulatorState.message(), "Invalid regulator state");
    assert_eq!(
        PowerDataError::BusPoweredWithoutOut.message(),
        "Invalid power state, bus is powered but 5V out is off"
    );
    assert_eq!(
        PowerDataError::BusRegulatorNotFound.message(),
        "Bus voltage regulator device not found"
    );
}

#[test]
fn regulator_devices_are_named_regulator_dot() {
    assert!(is_regulator_dir("regulator.0"));
    assert!(is_regulator_dir("regulator.12"));
    assert!(!is_regulator_dir("regulator"));
    assert!(!is_regulator_dir("dummy"));
    assert!(!is_regulator_dir("xregulator.1"));
}
