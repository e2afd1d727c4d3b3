//! Settings of the controller and the rules they must meet.

use std::collections::HashMap;
use vstd::prelude::*;
use vstd::string::StringExecFns;

verus! {

/// The least `reconciler.initial_delay_seconds` that is accepted.
pub const MIN_INITIAL_DELAY_SECONDS: u32 = 15;

/// The least `reconciler.delay_seconds` that is accepted.
pub const MIN_DELAY_SECONDS: u32 = 60;

/// When a workflow is looked at again without an event.
#[derive(Debug)]
pub struct Reconciler {
    pub delay_seconds: u32,
    pub initial_delay_seconds: u32,
}

/// Where metrics go.
#[derive(Debug)]
pub struct Stats {
    pub enabled: bool,
    pub statsd_sink: String,
    pub metric_prefix: String,
    pub global_tags: HashMap<String, String>,
}

#[derive(Debug)]
pub struct Settings {
    pub stats: Stats,
    pub reconciler: Reconciler,
}

/// Why settings are refused.
#[derive(Debug, PartialEq, Eq, Clone, Copy, Structural)]
pub enum SettingsError {
    /// Stats are enabled and no sink is named.
    StatsdSinkMissing,
    /// `reconciler.initial_delay_seconds` is under 15.
    InitialDelayTooShort,
    /// `reconciler.delay_seconds` is under 60.
    DelayTooShort,
}

impl SettingsError {
    /// The message shown to the operator.
    pub fn message(&self) -> (text: String)
        ensures
            *self == SettingsError::StatsdSinkMissing ==> text@
                == "statsd_sink must be set when stats are enabled"@,
            *self == SettingsError::InitialDelayTooShort ==> text@
                == "reconciler.initial_delay_seconds must be at least 15 seconds"@,
            *self == SettingsError::DelayTooShort ==> text@
                == "reconciler.delay_seconds must at least 60 seconds"@,
    {
        match self {
            SettingsError::StatsdSinkMissing => String::from_str(
                "statsd_sink must be set when stats are enabled",
            ),
            SettingsError::InitialDelayTooShort => String::from_str(
                "reconciler.initial_delay_seconds must be at least 15 seconds",
            ),
            SettingsError::DelayTooShort => String::from_str(
                "reconciler.delay_seconds must at least 60 seconds",
            ),
        }
    }
}

impl Settings {
    /// The first rule that the settings break, in the order in which the
    /// rules are tested; `Ok` where they break none.
    pub open spec fn spec_validate(&self) -> Result<(), SettingsError> {
        if self.stats.enabled && self.stats.statsd_sink@.len() == 0 {
            Err(SettingsError::StatsdSinkMissing)
        } else if self.reconciler.initial_delay_seconds < MIN_INITIAL_DELAY_SECONDS {
            Err(SettingsError::InitialDelayTooShort)
        } else if self.reconciler.delay_seconds < MIN_DELAY_SECONDS {
            Err(SettingsError::DelayTooShort)
        } else {
            Ok(())
        }
    }

    pub fn validate(&self) -> (r: Result<(), SettingsError>)
        ensures
            r == self.spec_validate(),
    {
        if self.stats.enabled && self.stats.statsd_sink.as_str().is_empty() {
            return Err(SettingsError::StatsdSinkMissing);
        }
        if self.reconciler.initial_delay_seconds < MIN_INITIAL_DELAY_SECONDS {
            return Err(SettingsError::InitialDelayTooShort);
        }
        if self.reconciler.delay_seconds < MIN_DELAY_SECONDS {
            return Err(SettingsError::DelayTooShort);
        }
        Ok(())
    }
}

} // verus!
