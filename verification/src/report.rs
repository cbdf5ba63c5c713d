//! The scan report: which ports in the probed range accepted a connection.

use vstd::prelude::*;

verus! {

/// The result of probing one port: whether a TCP connection to it was
/// established within the per-attempt timeout. Never mutated after creation.
///
/// `open` conflates every kind of failure — timeout, refusal, unreachable
/// host, resolution failure — into `false`; only a connection actually
/// established (and immediately released) within the timeout counts as open.
/// A genuinely open but slow-responding port is therefore reported closed
/// under a too-small timeout: a policy choice, not a transport guarantee.
#[derive(Clone, Copy, Debug, PartialEq, Eq, Structural)]
pub struct ProbeOutcome {
    pub port: u16,
    pub open: bool,
}

/// The ports reported open for a range starting at `start`, where `flags[i]`
/// says whether port `start + i` accepted a connection: the ports with a set
/// flag, in ascending order.
pub open spec fn open_ports(start: int, flags: Seq<bool>) -> Seq<u16>
    decreases flags.len(),
{
    if flags.len() == 0 {
        Seq::empty()
    } else if flags[0] {
        seq![start as u16] + open_ports(start + 1, flags.drop_first())
    } else {
        open_ports(start + 1, flags.drop_first())
    }
}

/// Law: a report's ports are strictly ascending — so no port is reported
/// twice — and every reported port lies within the scanned range, between
/// `start` and `start + flags.len() - 1`.
pub proof fn lemma_open_ports_sorted_in_range(start: int, flags: Seq<bool>)
    requires
        0 <= start,
        start + flags.len() <= 65536,
    ensures
        forall|k: int| 0 <= k < open_ports(start, flags).len() ==> start <= #[trigger] open_ports(
            start,
            flags,
        )[k] < start + flags.len(),
        forall|k1: int, k2: int| 0 <= k1 < k2 < open_ports(start, flags).len() ==> open_ports(
            start,
            flags,
        )[k1] < open_ports(start, flags)[k2],
    decreases flags.len(),
{
    if flags.len() == 0 {
    } else {
        let rest = open_ports(start + 1, flags.drop_first());
        lemma_open_ports_sorted_in_range(start + 1, flags.drop_first());
        if flags[0] {
            let s = open_ports(start, flags);
            assert(s == seq![start as u16] + rest);
            assert(s[0] == start as u16);
            assert(forall|k: int| 1 <= k < s.len() ==> #[trigger] s[k] == rest[k - 1]);
        }
    }
}

/// Law: a port is reported exactly when its flag is set — `p` appears in the
/// report iff `p` lies in the scanned range and `flags[p - start]` holds.
pub proof fn lemma_open_ports_contains(start: int, flags: Seq<bool>, p: u16)
    requires
        0 <= start,
        start + flags.len() <= 65536,
    ensures
        open_ports(start, flags).contains(p) <==> (start <= p < start + flags.len() && flags[
            p - start]),
    decreases flags.len(),
{
    if flags.len() == 0 {
    } else {
        let rest = open_ports(start + 1, flags.drop_first());
        lemma_open_ports_contains(start + 1, flags.drop_first(), p);
        let s = open_ports(start, flags);
        if flags[0] {
            assert(s == seq![start as u16] + rest);
            assert(s[0] == start as u16);
            if s.contains(p) {
                let k = choose|k: int| 0 <= k < s.len() && s[k] == p;
                if k > 0 {
                    assert(rest[k - 1] == p);
                    assert(rest.contains(p));
                }
            }
            if start <= p < start + flags.len() && flags[p - start] {
                if p == start {
                    assert(s[0] == p);
                } else {
                    assert(flags.drop_first()[p - (start + 1)] == flags[p - start]);
                    assert(rest.contains(p));
                    let k = choose|k: int| 0 <= k < rest.len() && rest[k] == p;
                    assert(s[k + 1] == p);
                }
            }
        } else {
            assert(s == rest);
            if start <= p < start + flags.len() && p != start {
                assert(flags.drop_first()[p - (start + 1)] == flags[p - start]);
            }
        }
    }
}

/// Law: the report is a function of the observed listener state alone.
/// Two completed scans of the same range whose outcomes agree port for port
/// produce identical reports, whatever order the probes resolved in.
pub proof fn lemma_report_deterministic(start: int, flags1: Seq<bool>, flags2: Seq<bool>)
    requires
        flags1.len() == flags2.len(),
        forall|i: int| 0 <= i < flags1.len() ==> flags1[i] == flags2[i],
    ensures
        open_ports(start, flags1) == open_ports(start, flags2),
{
    assert(flags1 =~= flags2);
}

/// The externally observable result of a scan: the outcomes with
/// `open == true`, in ascending port order, built once after every probe
/// for the request has resolved.
pub struct ScanReport {
    outcomes: Vec<ProbeOutcome>,
}

impl ScanReport {
    /// The reported ports, in the order they are held.
    pub closed spec fn ports(&self) -> Seq<u16> {
        self.outcomes@.map_values(|o: ProbeOutcome| o.port)
    }

    /// Every outcome in a report is an open one.
    pub closed spec fn all_open(&self) -> bool {
        forall|i: int| 0 <= i < self.outcomes@.len() ==> (#[trigger] self.outcomes@[i]).open
    }

    /// Wraps the given ports, each as an open outcome.
    pub(crate) fn from_ports(ports: Vec<u16>) -> (r: ScanReport)
        ensures
            r.ports() == ports@,
            r.all_open(),
    {
        let mut outcomes: Vec<ProbeOutcome> = Vec::new();
        let mut i: usize = 0;
        while i < ports.len()
            invariant
                i <= ports@.len(),
                outcomes@.len() == i,
                forall|k: int| 0 <= k < i ==> (#[trigger] outcomes@[k]) == (ProbeOutcome {
                    port: ports@[k],
                    open: true,
                }),
            decreases ports@.len() - i,
        {
            outcomes.push(ProbeOutcome { port: ports[i], open: true });
            i = i + 1;
        }
        let r = ScanReport { outcomes };
        proof {
            assert(r.ports() =~= ports@);
        }
        r
    }

    /// How many ports the report holds.
    pub fn len(&self) -> (n: usize)
        ensures
            n == self.ports().len(),
    {
        self.outcomes.len()
    }

    /// The outcome at position `i`.
    pub fn outcome_at(&self, i: usize) -> (o: ProbeOutcome)
        requires
            i < self.ports().len(),
        ensures
            o.port == self.ports()[i as int],
            self.all_open() ==> o.open,
    {
        self.outcomes[i]
    }

    /// The reported port numbers as a fresh vector, in the report's order.
    pub fn open_port_numbers(&self) -> (r: Vec<u16>)
        ensures
            r@ == self.ports(),
    {
        let mut r: Vec<u16> = Vec::new();
        let mut i: usize = 0;
        while i < self.outcomes.len()
            invariant
                i <= self.outcomes@.len(),
                r@.len() == i,
                forall|k: int| 0 <= k < i ==> #[trigger] r@[k] == self.ports()[k],
            decreases self.outcomes@.len() - i,
        {
            r.push(self.outcomes[i].port);
            i = i + 1;
        }
        proof {
            assert(r@ =~= self.ports());
        }
        r
    }
}

} // verus!
