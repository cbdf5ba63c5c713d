//! The state of one scan: a slot per port, filled as probes resolve.

use vstd::prelude::*;

use crate::report::open_ports;
use crate::report::ProbeOutcome;
use crate::report::ScanReport;
use crate::request::ScanError;
use crate::request::ScanRequest;

verus! {

/// The state of one scan: the validated range and timeout, and one outcome
/// slot per port of the range, filled exactly once each as probes resolve,
/// in whatever order they complete.
pub struct ScanState {
    start_port: u16,
    end_port: u16,
    timeout_ms: u64,
    slots: Vec<Option<bool>>,
}

impl ScanState {
    pub closed spec fn start(&self) -> u16 {
        self.start_port
    }

    pub closed spec fn end(&self) -> u16 {
        self.end_port
    }

    pub closed spec fn timeout(&self) -> u64 {
        self.timeout_ms
    }

    /// One slot per port of the range, `slots()[i]` for port `start() + i`:
    /// `None` while that probe is outstanding, `Some(open)` once it resolved.
    pub closed spec fn slots(&self) -> Seq<Option<bool>> {
        self.slots@
    }

    pub open spec fn wf(&self) -> bool {
        &&& self.start() <= self.end()
        &&& self.timeout() > 0
        &&& self.slots().len() == self.end() - self.start() + 1
    }

    /// Every probe of the scan has resolved.
    pub open spec fn complete(&self) -> bool {
        forall|i: int| 0 <= i < self.slots().len() ==> (#[trigger] self.slots()[i]) is Some
    }

    /// The listener state the scan observed: `flags()[i]` says whether port
    /// `start() + i` accepted a connection. Meaningful once `complete()`.
    pub open spec fn flags(&self) -> Seq<bool> {
        Seq::new(self.slots().len(), |i: int| self.slots()[i] == Some(true))
    }

    /// Begins a scan for `req`, rejecting a malformed request before any
    /// probing: an empty range fails with `InvalidRange`, then a non-positive
    /// timeout with `InvalidTimeout`. On success every slot of the range is
    /// outstanding, so exactly `end - start + 1` probes remain to resolve.
    pub fn new(req: &ScanRequest) -> (r: Result<ScanState, ScanError>)
        ensures
            r is Err <==> !req.valid(),
            r == Err::<ScanState, ScanError>(ScanError::InvalidRange) <==> req.start_port > req.end_port,
            r == Err::<ScanState, ScanError>(ScanError::InvalidTimeout)
                <==> (req.start_port <= req.end_port && req.timeout_ms == 0),
            r matches Ok(s) ==> {
                &&& s.wf()
                &&& s.start() == req.start_port
                &&& s.end() == req.end_port
                &&& s.timeout() == req.timeout_ms
                &&& s.slots() =~= Seq::new((req.end_port - req.start_port + 1) as nat, |i: int| None::<bool>)
            },
    {
        if let Err(e) = req.validate() {
            return Err(e);
        }
        let n: usize = (req.end_port - req.start_port) as usize + 1;
        let mut slots: Vec<Option<bool>> = Vec::new();
        let mut i: usize = 0;
        while i < n
            invariant
                i <= n,
                slots@.len() == i,
                forall|k: int| 0 <= k < i ==> (#[trigger] slots@[k]) is None,
            decreases n - i,
        {
            slots.push(None);
            i = i + 1;
        }
        let s = ScanState {
            start_port: req.start_port,
            end_port: req.end_port,
            timeout_ms: req.timeout_ms,
            slots,
        };
        proof {
            assert(s.slots() =~= Seq::new((req.end_port - req.start_port + 1) as nat, |i: int| None::<bool>));
        }
        Ok(s)
    }

    pub fn start_port(&self) -> (p: u16)
        ensures
            p == self.start(),
    {
        self.start_port
    }

    pub fn end_port(&self) -> (p: u16)
        ensures
            p == self.end(),
    {
        self.end_port
    }

    pub fn timeout_ms(&self) -> (t: u64)
        ensures
            t == self.timeout(),
    {
        self.timeout_ms
    }

    /// Whether the probe of `port` has already resolved.
    pub fn is_recorded(&self, port: u16) -> (r: bool)
        requires
            self.wf(),
            self.start() <= port <= self.end(),
        ensures
            r <==> self.slots()[port - self.start()] is Some,
    {
        self.slots[(port - self.start_port) as usize].is_some()
    }

    /// Records the outcome of the probe of `port`: whether a connection was
    /// established within the timeout. Each port's outcome is recorded exactly
    /// once per scan — no attempt is retried — and outcomes may arrive in any
    /// completion order.
    pub fn record(&mut self, port: u16, open: bool)
        requires
            old(self).wf(),
            old(self).start() <= port <= old(self).end(),
            old(self).slots()[port - old(self).start()] is None,
        ensures
            final(self).wf(),
            final(self).start() == old(self).start(),
            final(self).end() == old(self).end(),
            final(self).timeout() == old(self).timeout(),
            final(self).slots() == old(self).slots().update(
                port - old(self).start(),
                Some(open),
            ),
    {
        let idx: usize = (port - self.start_port) as usize;
        self.slots.set(idx, Some(open));
    }

    /// Assembles the report once every probe has resolved: the ports whose
    /// probe established a connection, in ascending order. Partial results
    /// are never exposed — this is only callable on a complete scan.
    pub fn report(&self) -> (r: ScanReport)
        requires
            self.wf(),
            self.complete(),
        ensures
            r.ports() == open_ports(self.start() as int, self.flags()),
            r.all_open(),
            forall|k: int| 0 <= k < r.ports().len() ==> self.start() <= #[trigger] r.ports()[k]
                <= self.end(),
            forall|k1: int, k2: int| 0 <= k1 < k2 < r.ports().len() ==> r.ports()[k1]
                < r.ports()[k2],
    {
        proof {
            crate::report::lemma_open_ports_sorted_in_range(self.start() as int, self.flags());
        }
        let ghost flags = self.flags();
        let n: usize = self.slots.len();
        let mut ports: Vec<u16> = Vec::new();
        let mut i: usize = 0;
        proof {
            assert(flags.skip(0) =~= flags);
            assert(ports@ + open_ports(self.start() as int, flags) =~= open_ports(
                self.start() as int,
                flags,
            ));
        }
        while i < n
            invariant
                self.wf(),
                n == self.slots().len(),
                flags == self.flags(),
                i <= n,
                ports@ + open_ports(self.start() as int + i, flags.skip(i as int)) == open_ports(
                    self.start() as int,
                    flags,
                ),
            decreases n - i,
        {
            proof {
                assert(flags.skip(i as int).drop_first() =~= flags.skip(i as int + 1));
                assert(flags.skip(i as int)[0] == flags[i as int]);
            }
            let ghost ports_before = ports@;
            match self.slots[i] {
                Some(true) => {
                    let p: u16 = self.start_port + (i as u16);
                    ports.push(p);
                    proof {
                        assert(flags[i as int]);
                        assert(open_ports(self.start() as int + i, flags.skip(i as int))
                            == seq![p] + open_ports(
                            self.start() as int + i + 1,
                            flags.skip(i as int + 1),
                        ));
                        assert(ports@ + open_ports(
                            self.start() as int + i + 1,
                            flags.skip(i as int + 1),
                        ) =~= ports_before + open_ports(
                            self.start() as int + i,
                            flags.skip(i as int),
                        ));
                    }
                },
                _ => {
                    proof {
                        assert(!flags[i as int]);
                    }
                },
            }
            i = i + 1;
        }
        proof {
            assert(flags.skip(n as int) =~= Seq::<bool>::empty());
            assert(ports@ + Seq::<u16>::empty() =~= ports@);
        }
        ScanReport::from_ports(ports)
    }

    /// Records a batch of resolved outcomes, one port each, in whatever order
    /// they completed. The contract does not mention the batch's order at all:
    /// each outcome ends in its own port's slot and every other slot is left
    /// as it was, so any two completion orders of the same outcomes leave the
    /// scan in the same state.
    pub fn record_all(&mut self, outcomes: &Vec<ProbeOutcome>)
        requires
            old(self).wf(),
            forall|k: int| 0 <= k < outcomes@.len() ==> old(self).start()
                <= (#[trigger] outcomes@[k]).port <= old(self).end(),
            forall|k: int| 0 <= k < outcomes@.len() ==> old(self).slots()[(
            #[trigger] outcomes@[k]).port - old(self).start()] is None,
            forall|k1: int, k2: int| 0 <= k1 < k2 < outcomes@.len() ==> (#[trigger] outcomes@[k1]).port
                != (#[trigger] outcomes@[k2]).port,
        ensures
            final(self).wf(),
            final(self).start() == old(self).start(),
            final(self).end() == old(self).end(),
            final(self).timeout() == old(self).timeout(),
            final(self).slots().len() == old(self).slots().len(),
            forall|k: int| 0 <= k < outcomes@.len() ==> final(self).slots()[(
            #[trigger] outcomes@[k]).port - old(self).start()] == Some(outcomes@[k].open),
            forall|j: int| 0 <= j < old(self).slots().len() && (forall|k: int|
                0 <= k < outcomes@.len() ==> (#[trigger] outcomes@[k]).port - old(self).start()
                    != j) ==> final(self).slots()[j] == old(self).slots()[j],
    {
        let ghost orig = *self;
        let mut i: usize = 0;
        while i < outcomes.len()
            invariant
                self.wf(),
                self.start() == orig.start(),
                self.end() == orig.end(),
                self.timeout() == orig.timeout(),
                self.slots().len() == orig.slots().len(),
                i <= outcomes@.len(),
                forall|k: int| 0 <= k < outcomes@.len() ==> orig.start()
                    <= (#[trigger] outcomes@[k]).port <= orig.end(),
                forall|k: int| 0 <= k < outcomes@.len() ==> orig.slots()[(
                #[trigger] outcomes@[k]).port - orig.start()] is None,
                forall|k1: int, k2: int| 0 <= k1 < k2 < outcomes@.len() ==> (
                #[trigger] outcomes@[k1]).port != (#[trigger] outcomes@[k2]).port,
                forall|k: int| 0 <= k < i ==> self.slots()[(#[trigger] outcomes@[k]).port
                    - orig.start()] == Some(outcomes@[k].open),
                forall|j: int| 0 <= j < orig.slots().len() && (forall|k: int|
                    0 <= k < i ==> (#[trigger] outcomes@[k]).port - orig.start() != j)
                    ==> self.slots()[j] == orig.slots()[j],
            decreases outcomes@.len() - i,
        {
            let o = outcomes[i];
            proof {
                assert forall|k: int| 0 <= k < i implies (#[trigger] outcomes@[k]).port
                    - orig.start() != o.port - orig.start() by {
                    assert(outcomes@[k].port != outcomes@[i as int].port);
                }
                assert(self.slots()[o.port - orig.start()] == orig.slots()[o.port
                    - orig.start()]);
            }
            self.record(o.port, o.open);
            i = i + 1;
        }
    }

    /// Whether every probe of the scan has resolved. Until then no report is
    /// assembled: partial results are never exposed.
    pub fn is_complete(&self) -> (r: bool)
        requires
            self.wf(),
        ensures
            r <==> self.complete(),
    {
        let mut i: usize = 0;
        while i < self.slots.len()
            invariant
                i <= self.slots@.len(),
                forall|k: int| 0 <= k < i ==> (#[trigger] self.slots@[k]) is Some,
            decreases self.slots@.len() - i,
        {
            if self.slots[i].is_none() {
                return false;
            }
            i = i + 1;
        }
        true
    }
}

/// The attempt plan for a valid range: the ports `start`, `start + 1`, ...,
/// `end`, in ascending order. Its contract carries the law that a scan makes
/// exactly `end - start + 1` attempts and attempts every port of the range
/// exactly once: the plan's length is `end - start + 1`, its entries are
/// pairwise distinct, and every port of the range appears in it.
pub fn ports_in_range(start: u16, end: u16) -> (r: Vec<u16>)
    requires
        start <= end,
    ensures
        r@.len() == end - start + 1,
        forall|i: int| 0 <= i < r@.len() ==> #[trigger] r@[i] == start + i,
        forall|i: int, j: int| 0 <= i < j < r@.len() ==> r@[i] != r@[j],
        forall|p: u16| start <= p <= end ==> r@.contains(p),
{
    let n: usize = (end - start) as usize + 1;
    let mut r: Vec<u16> = Vec::new();
    let mut i: usize = 0;
    while i < n
        invariant
            start <= end,
            n == end - start + 1,
            i <= n,
            r@.len() == i,
            forall|k: int| 0 <= k < i ==> #[trigger] r@[k] == start + k,
        decreases n - i,
    {
        r.push(start + (i as u16));
        i = i + 1;
    }
    proof {
        assert forall|p: u16| start <= p <= end implies r@.contains(p) by {
            assert(r@[p - start] == p);
        }
    }
    r
}

/// Whether some outcome of the batch is for port `p`.
pub open spec fn has_outcome_for(outcomes: Seq<ProbeOutcome>, p: u16) -> bool {
    exists|k: int| 0 <= k < outcomes.len() && (#[trigger] outcomes[k]).port == p
}

/// The listener state that a resolved batch of outcomes describes for the
/// range starting at `start`, `n` ports wide: whether each port of the range
/// had an open outcome.
pub open spec fn flags_of_outcomes(start: int, n: nat, outcomes: Seq<ProbeOutcome>) -> Seq<bool> {
    Seq::new(
        n,
        |i: int|
            exists|k: int|
                0 <= k < outcomes.len() && (#[trigger] outcomes[k]).port == start + i
                    && outcomes[k].open,
    )
}

/// The whole scan, after its probes: rejects a malformed request exactly as
/// `ScanState::new` does, and otherwise assembles the report from one
/// resolved outcome per port of the range — the ports with an open outcome,
/// ascending. The outcomes may stand in any completion order; the report
/// depends only on which ports they say accepted a connection.
pub fn scan_from_outcomes(req: &ScanRequest, outcomes: &Vec<ProbeOutcome>) -> (r: Result<
    ScanReport,
    ScanError,
>)
    requires
        req.valid() ==> {
            &&& forall|k: int| 0 <= k < outcomes@.len() ==> req.start_port
                <= (#[trigger] outcomes@[k]).port <= req.end_port
            &&& forall|k1: int, k2: int| 0 <= k1 < k2 < outcomes@.len() ==> (
            #[trigger] outcomes@[k1]).port != (#[trigger] outcomes@[k2]).port
            &&& forall|p: u16| req.start_port <= p <= req.end_port ==> #[trigger] has_outcome_for(
                outcomes@,
                p,
            )
        },
    ensures
        r is Ok <==> req.valid(),
        r == Err::<ScanReport, ScanError>(ScanError::InvalidRange) <==> req.start_port
            > req.end_port,
        r == Err::<ScanReport, ScanError>(ScanError::InvalidTimeout) <==> (req.start_port
            <= req.end_port && req.timeout_ms == 0),
        r matches Ok(rep) ==> {
            &&& rep.ports() == open_ports(
                req.start_port as int,
                flags_of_outcomes(
                    req.start_port as int,
                    (req.end_port - req.start_port + 1) as nat,
                    outcomes@,
                ),
            )
            &&& rep.all_open()
            &&& forall|k: int| 0 <= k < rep.ports().len() ==> req.start_port
                <= #[trigger] rep.ports()[k] <= req.end_port
            &&& forall|k1: int, k2: int| 0 <= k1 < k2 < rep.ports().len() ==> rep.ports()[k1]
                < rep.ports()[k2]
        },
{
    let mut state = match ScanState::new(req) {
        Err(e) => { return Err(e) },
        Ok(s) => s,
    };
    state.record_all(outcomes);
    let ghost start = req.start_port as int;
    let ghost n = (req.end_port - req.start_port + 1) as nat;
    proof {
        assert forall|i: int| 0 <= i < state.slots().len() implies (#[trigger] state.slots()[i])
            is Some by {
            let p = (start + i) as u16;
            assert(p == start + i);
            assert(has_outcome_for(outcomes@, p));
            let k = choose|k: int| 0 <= k < outcomes@.len() && (#[trigger] outcomes@[k]).port == p;
            assert(outcomes@[k].port - start == i);
            assert(state.slots()[outcomes@[k].port - start] == Some(outcomes@[k].open));
        }
        assert forall|i: int| 0 <= i < n implies state.flags()[i] == flags_of_outcomes(
            start,
            n,
            outcomes@,
        )[i] by {
            let p = (start + i) as u16;
            assert(p == start + i);
            assert(has_outcome_for(outcomes@, p));
            let k = choose|k: int| 0 <= k < outcomes@.len() && (#[trigger] outcomes@[k]).port == p;
            assert(outcomes@[k].port - start == i);
            assert(state.slots()[i] == Some(outcomes@[k].open));
            if outcomes@[k].open {
                assert(0 <= k < outcomes@.len() && outcomes@[k].port == start + i
                    && outcomes@[k].open);
            } else {
                if flags_of_outcomes(start, n, outcomes@)[i] {
                    let k2 = choose|k2: int|
                        0 <= k2 < outcomes@.len() && (#[trigger] outcomes@[k2]).port == start + i
                            && outcomes@[k2].open;
                    assert(k2 != k);
                    assert(outcomes@[k2].port != outcomes@[k].port);
                    assert(false);
                }
            }
        }
        assert(state.flags() =~= flags_of_outcomes(start, n, outcomes@));
    }
    Ok(state.report())
}

/// Law: completion order is irrelevant to the collected outcomes. Recording
/// the outcomes of two distinct ports — slot indices `i` and `j` — in either
/// order leaves the slots identical.
pub proof fn lemma_record_order_irrelevant(
    slots: Seq<Option<bool>>,
    i: int,
    j: int,
    a: bool,
    b: bool,
)
    requires
        0 <= i < slots.len(),
        0 <= j < slots.len(),
        i != j,
    ensures
        slots.update(i, Some(a)).update(j, Some(b)) == slots.update(j, Some(b)).update(i, Some(a)),
{
    assert(slots.update(i, Some(a)).update(j, Some(b)) =~= slots.update(j, Some(b)).update(
        i,
        Some(a),
    ));
}

} // verus!
