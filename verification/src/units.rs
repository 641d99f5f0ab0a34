//! The closed set of unit tags a metric-stream record may carry, with a
//! catch-all `Unknown` arm for tags outside the enumeration. A record whose
//! unit is `Unknown` is dropped with a diagnostic and never merged into a
//! numeric series.

use vstd::prelude::*;
use vstd::string::StringExecFns;
use crate::text::str_eq;

verus! {

#[derive(Clone, Copy, Debug, PartialEq, Eq, Structural)]
pub enum MetricUnit {
    Unknown,
    Bytes,
    Count,
    Percent,
    Seconds,
    Average,
    Milliseconds,
    Microseconds,
    CountPerSecond,
    BytesPerSecond,
    NoUnit,
}

/// The unit named by a raw tag string; tags outside the enumeration map to
/// `Unknown`, never to a numeric unit.
pub open spec fn unit_from_tag(s: Seq<char>) -> MetricUnit {
    if s == "Bytes"@ {
        MetricUnit::Bytes
    } else if s == "Count"@ {
        MetricUnit::Count
    } else if s == "Percent"@ {
        MetricUnit::Percent
    } else if s == "Seconds"@ {
        MetricUnit::Seconds
    } else if s == "Average"@ {
        MetricUnit::Average
    } else if s == "Milliseconds"@ {
        MetricUnit::Milliseconds
    } else if s == "Microseconds"@ {
        MetricUnit::Microseconds
    } else if s == "Count/Second"@ {
        MetricUnit::CountPerSecond
    } else if s == "Bytes/Second"@ {
        MetricUnit::BytesPerSecond
    } else if s == "None"@ {
        MetricUnit::NoUnit
    } else {
        MetricUnit::Unknown
    }
}

/// The snake_case name of the unit, used as a segment of the series family
/// name.
pub open spec fn unit_suffix(u: MetricUnit) -> Seq<char> {
    match u {
        MetricUnit::Unknown => "unknown"@,
        MetricUnit::Bytes => "bytes"@,
        MetricUnit::Count => "count"@,
        MetricUnit::Percent => "percent"@,
        MetricUnit::Seconds => "seconds"@,
        MetricUnit::Average => "average"@,
        MetricUnit::Milliseconds => "milliseconds"@,
        MetricUnit::Microseconds => "microseconds"@,
        MetricUnit::CountPerSecond => "count_per_second"@,
        MetricUnit::BytesPerSecond => "bytes_per_second"@,
        MetricUnit::NoUnit => "none"@,
    }
}

impl MetricUnit {
    /// Parses a raw unit tag; any tag outside the enumeration yields
    /// `Unknown`.
    pub fn from_tag(s: &str) -> (r: MetricUnit)
        ensures
            r == unit_from_tag(s@),
    {
        if str_eq(s, "Bytes") {
            MetricUnit::Bytes
        } else if str_eq(s, "Count") {
            MetricUnit::Count
        } else if str_eq(s, "Percent") {
            MetricUnit::Percent
        } else if str_eq(s, "Seconds") {
            MetricUnit::Seconds
        } else if str_eq(s, "Average") {
            MetricUnit::Average
        } else if str_eq(s, "Milliseconds") {
            MetricUnit::Milliseconds
        } else if str_eq(s, "Microseconds") {
            MetricUnit::Microseconds
        } else if str_eq(s, "Count/Second") {
            MetricUnit::CountPerSecond
        } else if str_eq(s, "Bytes/Second") {
            MetricUnit::BytesPerSecond
        } else if str_eq(s, "None") {
            MetricUnit::NoUnit
        } else {
            MetricUnit::Unknown
        }
    }

    /// The snake_case family-name segment for this unit.
    pub fn suffix(&self) -> (r: String)
        ensures
            r@ == unit_suffix(*self),
    {
        match self {
            MetricUnit::Unknown => String::from_str("unknown"),
            MetricUnit::Bytes => String::from_str("bytes"),
            MetricUnit::Count => String::from_str("count"),
            MetricUnit::Percent => String::from_str("percent"),
            MetricUnit::Seconds => String::from_str("seconds"),
            MetricUnit::Average => String::from_str("average"),
            MetricUnit::Milliseconds => String::from_str("milliseconds"),
            MetricUnit::Microseconds => String::from_str("microseconds"),
            MetricUnit::CountPerSecond => String::from_str("count_per_second"),
            MetricUnit::BytesPerSecond => String::from_str("bytes_per_second"),
            MetricUnit::NoUnit => String::from_str("none"),
        }
    }

    /// True for every unit of the enumeration but the catch-all `Unknown`.
    pub fn is_known(&self) -> (r: bool)
        ensures
            r == !(*self is Unknown),
    {
        !matches!(self, MetricUnit::Unknown)
    }
}

} // verus!
