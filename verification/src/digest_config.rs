//! The digest's configuration file, `digest.toml`: every entry is optional, and
//! an absent one has its default.
//!
//! The two thresholds in per cent are floating-point numbers; whoever reads the
//! file keeps them.
use vstd::prelude::*;

use crate::digest::DigestConfig;

verus! {

/// The table `[volume]`.
#[derive(Debug)]
pub struct VolumeToml {
    pub new_source_always_flag: Option<bool>,
}

/// The table `[coverage]`.
#[derive(Debug)]
pub struct CoverageToml {
    pub unparsed_min_events: Option<u64>,
    pub coverage_lookback_hours: Option<u64>,
}

/// The table `[network]`.
#[derive(Debug)]
pub struct NetworkToml {
    pub new_destination_always_flag: Option<bool>,
    pub wan_interface: Option<String>,
    pub top_blocked_limit: Option<usize>,
}

/// The tables of the file.
#[derive(Debug)]
pub struct RawDigestToml {
    pub volume: Option<VolumeToml>,
    pub coverage: Option<CoverageToml>,
    pub network: Option<NetworkToml>,
}

/// An entry, or its default.
pub open spec fn or_default<A>(given: Option<A>, default: A) -> A {
    match given {
        Some(x) => x,
        None => default,
    }
}

/// The configuration of a file: its entries, and the defaults of those that it
/// does not have.
pub fn merge(raw: RawDigestToml, defaults: DigestConfig) -> (r: DigestConfig)
    ensures
        r.new_source_always_flag == match raw.volume {
            Some(t) => or_default(t.new_source_always_flag, defaults.new_source_always_flag),
            None => defaults.new_source_always_flag,
        },
        r.unparsed_min_events == match raw.coverage {
            Some(t) => or_default(t.unparsed_min_events, defaults.unparsed_min_events),
            None => defaults.unparsed_min_events,
        },
        r.coverage_lookback_hours == match raw.coverage {
            Some(t) => or_default(t.coverage_lookback_hours, defaults.coverage_lookback_hours),
            None => defaults.coverage_lookback_hours,
        },
        r.wan_interface == match raw.network {
            Some(t) => or_default(t.wan_interface, defaults.wan_interface),
            None => defaults.wan_interface,
        },
        r.top_blocked_limit == match raw.network {
            Some(t) => or_default(t.top_blocked_limit, defaults.top_blocked_limit),
            None => defaults.top_blocked_limit,
        },
        r.new_destination_always_flag == match raw.network {
            Some(t) => or_default(
                t.new_destination_always_flag,
                defaults.new_destination_always_flag,
            ),
            None => defaults.new_destination_always_flag,
        },
{
    let mut r = defaults;
    if let Some(t) = raw.volume {
        if let Some(x) = t.new_source_always_flag {
            r.new_source_always_flag = x;
        }
    }
    if let Some(t) = raw.coverage {
        if let Some(x) = t.unparsed_min_events {
            r.unparsed_min_events = x;
        }
        if let Some(x) = t.coverage_lookback_hours {
            r.coverage_lookback_hours = x;
        }
    }
    if let Some(t) = raw.network {
        if let Some(x) = t.new_destination_always_flag {
            r.new_destination_always_flag = x;
        }
        if let Some(x) = t.wan_interface {
            r.wan_interface = x;
        }
        if let Some(x) = t.top_blocked_limit {
            r.top_blocked_limit = x;
        }
    }
    r
}

} // verus!
