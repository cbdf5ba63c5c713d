//! Scan requests and the errors that reject a malformed one.

use vstd::prelude::*;

verus! {

/// A request for one scan: a target host, an inclusive port range and a
/// per-attempt timeout in milliseconds.
///
/// The target is an unvalidated host identifier (hostname or IP address);
/// resolving it is the probing layer's concern, and a resolution failure
/// folds into `open = false` for every port rather than failing the scan.
/// A request is well formed when `start_port <= end_port` and the timeout
/// is strictly positive; `ScanState::new` rejects anything else.
pub struct ScanRequest {
    pub target: String,
    pub start_port: u16,
    pub end_port: u16,
    pub timeout_ms: u64,
}

/// Why a scan request was rejected before any probing began.
///
/// Network-level failures (timeout, refusal, unreachable host, resolution
/// failure) are never surfaced through this type: they fold into
/// `open = false` for the port concerned.
#[derive(Clone, Copy, Debug, PartialEq, Eq, Structural)]
pub enum ScanError {
    /// The range was empty: `start_port > end_port`.
    InvalidRange,
    /// The per-attempt timeout was not strictly positive.
    InvalidTimeout,
}

impl ScanRequest {
    /// Whether the request may be scanned at all.
    pub open spec fn valid(&self) -> bool {
        self.start_port <= self.end_port && self.timeout_ms > 0
    }

    pub fn new(target: String, start_port: u16, end_port: u16, timeout_ms: u64) -> (r: ScanRequest)
        ensures
            r.target == target,
            r.start_port == start_port,
            r.end_port == end_port,
            r.timeout_ms == timeout_ms,
    {
        ScanRequest { target, start_port, end_port, timeout_ms }
    }

    /// Rejects a malformed request before any probing begins: an empty range
    /// fails with `InvalidRange`, then a non-positive timeout with
    /// `InvalidTimeout`; every other request is accepted.
    pub fn validate(&self) -> (r: Result<(), ScanError>)
        ensures
            r == Ok::<(), ScanError>(()) <==> self.valid(),
            r == Err::<(), ScanError>(ScanError::InvalidRange) <==> self.start_port > self.end_port,
            r == Err::<(), ScanError>(ScanError::InvalidTimeout)
                <==> (self.start_port <= self.end_port && self.timeout_ms == 0),
    {
        if self.start_port > self.end_port {
            Err(ScanError::InvalidRange)
        } else if self.timeout_ms == 0 {
            Err(ScanError::InvalidTimeout)
        } else {
            Ok(())
        }
    }
}

} // verus!
