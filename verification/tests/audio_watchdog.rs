use avl_basic::watchdog::{
    needs_wsl_pulse, CallbackWatchdog, Failure, CALLBACK_TIMEOUT_NS, PULSE_CALLBACK_TIMEOUT_NS,
};

const MS: u64 = 1_000_000;
const SECOND: u64 = 1_000_000_000;

#[test]
fn runtime_failure_is_recorded_without_panicking() {
    let mut failure = Failure::new();
    assert_eq!(failure.message(), None);
    failure.record("Device disconnected".to_string());
    failure.record("Later failure".to_string());
    assert_eq!(failure.message().as_deref(), Some("Device disconnected"));
}

#[test]
fn callback_watchdog_allows_startup_then_detects_no_progress() {
    let start = 7 * SECOND;
    let mut watchdog = CallbackWatchdog::new(0, start);
    assert!(!watchdog.stalled(0, start + 1999 * MS, 48000));
    assert!(watchdog.stalled(0, start + CALLBACK_TIMEOUT_NS, 48000));
}

#[test]
fn pulse_watchdog_tolerates_two_second_sink_requests_and_detects_a_stall() {
    let start = 7 * SECOND;
    let mut watchdog = CallbackWatchdog::with_timeout(0, start, 5 * SECOND);
    assert_eq!(PULSE_CALLBACK_TIMEOUT_NS, 5 * SECOND);
    assert!(!watchdog.stalled(4800, start + 100 * MS, 48000));
    assert!(!watchdog.stalled(4800, start + 2 * SECOND, 48000));
    assert!(!watchdog.stalled(96000, start + 2100 * MS, 48000));
    assert!(!watchdog.stalled(96000, start + 4 * SECOND, 48000));
    assert!(!watchdog.stalled(192000, start + 4100 * MS, 48000));
    assert!(watchdog.stalled(192000, start + 9100 * MS, 48000));
}

#[test]
fn callback_progress_renews_watchdog_even_after_a_long_poll_gap() {
    let start = 7 * SECOND;
    let mut watchdog = CallbackWatchdog::new(0, start);
    let resumed = start + 60 * SECOND;
    let frames = 60 * 48000;
    assert!(!watchdog.stalled(frames, resumed, 48000));
    assert!(!watchdog.stalled(frames, resumed + 1999 * MS, 48000));
    assert!(watchdog.stalled(frames, resumed + CALLBACK_TIMEOUT_NS, 48000));
}

#[test]
fn occasional_callbacks_cannot_keep_a_slow_output_alive_forever() {
    let start = 7 * SECOND;
    let mut watchdog = CallbackWatchdog::new(0, start);
    assert!(!watchdog.stalled(48000, start + SECOND, 48000));
    assert!(!watchdog.stalled(96000, start + 2 * SECOND, 48000));
    assert!(!watchdog.stalled(97024, start + 3 * SECOND, 48000));
    assert!(watchdog.stalled(98048, start + 4 * SECOND, 48000));
}

#[test]
fn callback_watchdog_tolerates_bursts_and_scheduling_jitter() {
    let start = 7 * SECOND;
    let mut watchdog = CallbackWatchdog::new(0, start);
    assert!(!watchdog.stalled(48000, start + 100 * MS, 48000));
    assert!(!watchdog.stalled(48000, start + 1900 * MS, 48000));
    assert!(!watchdog.stalled(72000, start + 2 * SECOND, 48000));
}

#[test]
fn wsl_audio_uses_explicit_pulse_without_affecting_native_linux() {
    assert!(needs_wsl_pulse(Some("unix:/mnt/wslg/PulseServer"), false, false));
    assert!(needs_wsl_pulse(None, true, false));
    assert!(needs_wsl_pulse(None, false, true));
    assert!(!needs_wsl_pulse(Some("unix:/run/user/1000/pulse/native"), false, false));
    assert!(!needs_wsl_pulse(None, false, false));
}
