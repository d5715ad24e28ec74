use vstd::prelude::*;

verus! {

/// An ordered logging severity, `Trace < Debug < Info < Warning < Error < Critical < Off`.
///
/// `Off` is a sentinel above every real severity: as a threshold it lets
/// nothing through, and a record tagged `Off` never passes.
#[derive(Clone, Copy, Debug, PartialEq, Eq, Structural)]
pub enum Severity {
    Off,
    Critical,
    Error,
    Warning,
    Info,
    Debug,
    Trace,
}

/// Position of a severity in the total order; `Trace` is lowest.
pub open spec fn rank(s: Severity) -> nat {
    match s {
        Severity::Trace => 0,
        Severity::Debug => 1,
        Severity::Info => 2,
        Severity::Warning => 3,
        Severity::Error => 4,
        Severity::Critical => 5,
        Severity::Off => 6,
    }
}

/// Whether a record of severity `record` passes a threshold of `threshold`.
pub open spec fn spec_passes(record: Severity, threshold: Severity) -> bool {
    record != Severity::Off && rank(record) >= rank(threshold)
}

impl Severity {
    /// The position of this severity in the total order (`Trace` is 0, `Off` is 6).
    pub fn rank(&self) -> (r: u8)
        ensures
            r as nat == rank(*self),
    {
        match self {
            Severity::Trace => 0,
            Severity::Debug => 1,
            Severity::Info => 2,
            Severity::Warning => 3,
            Severity::Error => 4,
            Severity::Critical => 5,
            Severity::Off => 6,
        }
    }

    /// Whether `self` is at or above `other` in the severity order.
    pub fn at_least(&self, other: Severity) -> (r: bool)
        ensures
            r == (rank(*self) >= rank(other)),
    {
        self.rank() >= other.rank()
    }
}

/// Decides whether a record passes a threshold: it does iff it is not `Off`
/// and its severity is at or above the threshold. An `Off` threshold lets
/// nothing pass.
pub fn passes(record: Severity, threshold: Severity) -> (r: bool)
    ensures
        r == spec_passes(record, threshold),
        threshold == Severity::Off ==> !r,
{
    match record {
        Severity::Off => false,
        _ => record.at_least(threshold),
    }
}

} // verus!
