//! The push cycle controller's decisions: counting each transmission,
//! classifying the remote store's response, and clearing the registry
//! whatever the outcome, so an already-rejected snapshot is never retried.

use vstd::prelude::*;
use crate::errors::PushError;
use crate::registry::{clear_collectors, CollectorV, Registry};
use crate::text::{str_eq, trim_ascii, trimmed};

verus! {

/// The classification of one transmission outcome.
#[derive(Clone, Copy, Debug, PartialEq, Eq, Structural)]
pub enum PushClass {
    /// The store accepted the snapshot.
    Success,
    /// The store rejected samples it already has or cannot order; a retry
    /// would not help, so the cycle ends without an error.
    NonFatalDuplicate,
    /// Any other rejection: surfaced to the caller as `PushError`.
    Fatal,
}

/// Whether a response body, trimmed, names the benign rejection of samples
/// the store already has or cannot order.
pub open spec fn duplicate_body(b: Seq<char>) -> bool {
    trimmed(b) == "out of order sample"@ || trimmed(b) == "duplicate sample for timestamp"@
        || trimmed(b) == "Out of order sample from remote write"@
}

/// How one transmission outcome is classified: any 2xx status is a
/// success, a 400 whose body names a duplicate or out-of-order sample is
/// non-fatal, and everything else is fatal.
pub open spec fn classify(status: u16, body: Seq<char>) -> PushClass {
    if 200 <= status < 300 {
        PushClass::Success
    } else if status == 400 && duplicate_body(body) {
        PushClass::NonFatalDuplicate
    } else {
        PushClass::Fatal
    }
}

/// Classifies the status code and body the transport reported.
pub fn classify_push_response(status: u16, body: &str) -> (r: PushClass)
    ensures
        r == classify(status, body@),
{
    if 200 <= status && status < 300 {
        PushClass::Success
    } else if status == 400 {
        let t = trim_ascii(body);
        if str_eq(t, "out of order sample") || str_eq(t, "duplicate sample for timestamp")
            || str_eq(t, "Out of order sample from remote write") {
            PushClass::NonFatalDuplicate
        } else {
            PushClass::Fatal
        }
    } else {
        PushClass::Fatal
    }
}

/// A counter one below its ceiling counts one more; at the ceiling it
/// saturates.
pub open spec fn bump(x: u64) -> u64 {
    if x == u64::MAX {
        x
    } else {
        (x + 1) as u64
    }
}

/// Process-wide observability counters: inbound batches received, and push
/// transmissions grouped by status-code class.
#[derive(Clone, Copy, Debug, PartialEq, Eq, Structural)]
pub struct Counters {
    pub batches_received: u64,
    pub writes_informational: u64,
    pub writes_success: u64,
    pub writes_redirection: u64,
    pub writes_client_error: u64,
    pub writes_server_error: u64,
    pub writes_other: u64,
}

/// The counters after one transmission with the given status is recorded:
/// exactly the counter of the status's class counts one more.
pub open spec fn spec_record_write(c: Counters, status: u16) -> Counters {
    if 100 <= status < 200 {
        Counters { writes_informational: bump(c.writes_informational), ..c }
    } else if 200 <= status < 300 {
        Counters { writes_success: bump(c.writes_success), ..c }
    } else if 300 <= status < 400 {
        Counters { writes_redirection: bump(c.writes_redirection), ..c }
    } else if 400 <= status < 500 {
        Counters { writes_client_error: bump(c.writes_client_error), ..c }
    } else if 500 <= status < 600 {
        Counters { writes_server_error: bump(c.writes_server_error), ..c }
    } else {
        Counters { writes_other: bump(c.writes_other), ..c }
    }
}

impl Counters {
    /// The all-zero counter state.
    pub open spec fn spec_zero() -> Counters {
        Counters {
            batches_received: 0u64,
            writes_informational: 0u64,
            writes_success: 0u64,
            writes_redirection: 0u64,
            writes_client_error: 0u64,
            writes_server_error: 0u64,
            writes_other: 0u64,
        }
    }

    /// All counters at zero.
    pub fn new() -> (r: Counters)
        ensures
            r == Counters::spec_zero(),
    {
        Counters {
            batches_received: 0,
            writes_informational: 0,
            writes_success: 0,
            writes_redirection: 0,
            writes_client_error: 0,
            writes_server_error: 0,
            writes_other: 0,
        }
    }

    /// Counts one inbound batch.
    pub fn record_batch(&mut self)
        ensures
            *final(self) == (Counters {
                batches_received: bump(old(self).batches_received),
                ..*old(self)
            }),
    {
        if self.batches_received < u64::MAX {
            self.batches_received = self.batches_received + 1;
        }
    }

    /// Counts one push transmission under its status-code class.
    pub fn record_write(&mut self, status: u16)
        ensures
            *final(self) == spec_record_write(*old(self), status),
    {
        if status >= 100 && status < 200 {
            if self.writes_informational < u64::MAX {
                self.writes_informational = self.writes_informational + 1;
            }
        } else if status >= 200 && status < 300 {
            if self.writes_success < u64::MAX {
                self.writes_success = self.writes_success + 1;
            }
        } else if status >= 300 && status < 400 {
            if self.writes_redirection < u64::MAX {
                self.writes_redirection = self.writes_redirection + 1;
            }
        } else if status >= 400 && status < 500 {
            if self.writes_client_error < u64::MAX {
                self.writes_client_error = self.writes_client_error + 1;
            }
        } else if status >= 500 && status < 600 {
            if self.writes_server_error < u64::MAX {
                self.writes_server_error = self.writes_server_error + 1;
            }
        } else {
            if self.writes_other < u64::MAX {
                self.writes_other = self.writes_other + 1;
            }
        }
    }
}

/// Finishes one push cycle after the transport reported `status` and
/// `body`: counts the transmission under its status-code class, clears the
/// registry whatever the outcome, and surfaces a `PushError` carrying
/// status and body exactly when the classification is fatal.
///
/// Clearing always — rather than retaining the snapshot on a hard failure
/// for a retry — is a policy choice: retained state would be resent every
/// cycle and grow without bound, so a rejected snapshot is dropped and the
/// error is surfaced to the caller instead.
pub fn finish_push_cycle(
    registry: &mut Registry,
    counters: &mut Counters,
    status: u16,
    body: String,
) -> (r: Result<(), PushError>)
    ensures
        final(registry)@ == Seq::<CollectorV>::empty(),
        final(registry).wf(),
        *final(counters) == spec_record_write(*old(counters), status),
        match r {
            Ok(()) => classify(status, body@) != PushClass::Fatal,
            Err(e) => classify(status, body@) == PushClass::Fatal && e.status == status && e.body@
                == body@,
        },
{
    counters.record_write(status);
    let class = classify_push_response(status, body.as_str());
    clear_collectors(registry);
    match class {
        PushClass::Fatal => Err(PushError { status, body }),
        _ => Ok(()),
    }
}

} // verus!
