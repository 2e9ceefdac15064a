//! The client's configuration: which source each monitor shows.

use crate::source_selector::MonitorId;
use vstd::prelude::*;

verus! {

/// The whole configuration file.
#[derive(Clone, Debug)]
pub struct Config {
    /// One entry per configured monitor (the `screen` tables of the file).
    pub screens: Vec<ScreenConfig>,
    /// Whether rendering waits until every screen has a new frame.
    pub synchronize_screens: bool,
}

/// The source one monitor shows.
#[derive(Clone, Debug)]
pub struct ScreenConfig {
    /// The monitor, by name.
    pub monitor: MonitorId,
    /// The name of the NDI source shown on it.
    pub source: String,
}

impl Default for Config {
    fn default() -> (config: Config)
        ensures
            config.screens@.len() == 0,
            !config.synchronize_screens,
    {
        Config { screens: Vec::new(), synchronize_screens: false }
    }
}

} // verus!
