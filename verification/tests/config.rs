use k8s_workflow_deploy::config::{
    Reconciler, Settings, SettingsError, Stats, MIN_DELAY_SECONDS, MIN_INITIAL_DELAY_SECONDS,
};
use std::collections::HashMap;

fn settings(enabled: bool, sink: &str, initial: u32, delay: u32) -> Settings {
    Settings {
        stats: Stats {
            enabled,
            statsd_sink: sink.to_string(),
            metric_prefix: "kwd".to_string(),
            global_tags: HashMap::new(),
        },
        reconciler: Reconciler { delay_seconds: delay, initial_delay_seconds: initial },
    }
}

#[test]
fn settings_within_the_rules_pass() {
    assert_eq!(MIN_INITIAL_DELAY_SECONDS, 15);
    assert_eq!(MIN_DELAY_SECONDS, 60);
    assert_eq!(settings(true, "127.0.0.1:8125", 15, 60).validate(), Ok(()));
    assert_eq!(settings(false, "", 15, 60).validate(), Ok(()));
    assert_eq!(settings(false, "", u32::MAX, u32::MAX).validate(), Ok(()));
}

#[test]
fn enabled_stats_need_a_sink() {
    assert_eq!(settings(true, "", 15, 60).validate(), Err(SettingsError::StatsdSinkMissing));
    assert_eq!(settings(true, "", 0, 0).validate(), Err(SettingsError::StatsdSinkMissing));
}

#[test]
fn the_initial_delay_is_at_least_fifteen_seconds() {
    assert_eq!(settings(false, "", 14, 60).validate(), Err(SettingsError::InitialDelayTooShort));
    assert_eq!(settings(false, "", 14, 0).validate(), Err(SettingsError::InitialDelayTooShort));
}

#[test]
fn the_delay_is_at_least_sixty_seconds() {
    assert_eq!(settings(true, "sink", 15, 59).validate(), Err(SettingsError::DelayTooShort));
}

#[test]
fn errors_have_their_messages() {
    assert_eq!(
        SettingsError::StatsdSinkMissing.message(),
        "statsd_sink must be set when stats are enabled"
    );
    assert_eq!(
        SettingsError::InitialDelayTooShort.message(),
        "reconciler.initial_delay_seconds must be at least 15 seconds"
    );
    assert_eq!(
        SettingsError::DelayTooShort.message(),
        "reconciler.delay_seconds must at least 60 seconds"
    );
}
