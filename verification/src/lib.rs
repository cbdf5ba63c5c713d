//! A verified core for a concurrent TCP port scanner.
//!
//! Given a closed port range and a per-attempt timeout, a scan probes every
//! port in the range once and reports the subset that accepted a connection,
//! in ascending port order. The network probes themselves are plain I/O and
//! live outside this library; what is verified here is everything else: the
//! validation of a request, the plan of attempts (every port in range exactly
//! once), the collection of outcomes (one slot per port, written once, in any
//! completion order), and the assembly of the final report.

pub mod report;
pub mod request;
pub mod scan;
