use symbiosis::daemon::{AfterPowerUp, Daemon, PowerUpResult, CHIP_SETTLE_MS, RETRY_SECS};

#[test]
fn toh_counts_as_present_until_found_absent() {
    let mut state = Daemon::new();
    assert!(state.asks_presence());
    state.presence(true);
    assert!(state.on_service_start());
    assert!(state.asks_presence());
    state.presence(false);
    assert!(!state.on_service_start());
    assert!(!state.asks_presence());
    state.presence(true);
    assert!(!state.on_service_start());
}

#[test]
fn unsupported_toh_is_logged_once() {
    let mut state = Daemon::new();
    assert_eq!(
        state.after_power_up(PowerUpResult::Unsupported),
        AfterPowerUp::WaitUnsupported { log: true, retry_secs: 10 }
    );
    assert_eq!(
        state.after_power_up(PowerUpResult::Unsupported),
        AfterPowerUp::WaitUnsupported { log: false, retry_secs: 10 }
    );
}

#[test]
fn chip_is_read_after_settling_and_failures_retry() {
    let mut state = Daemon::new();
    assert_eq!(state.after_power_up(PowerUpResult::Chip), AfterPowerUp::ReadChip { settle_ms: 100 });
    assert_eq!(state.after_power_up(PowerUpResult::Failed), AfterPowerUp::Retry { retry_secs: 10 });
    assert_eq!((CHIP_SETTLE_MS, RETRY_SECS), (100, 10));
}
