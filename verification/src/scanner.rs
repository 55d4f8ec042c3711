//! The scan as a state machine. It decides which port to try next and when
//! to wait, never lets more attempts run than its limiter has slots, and
//! collects the ports that accepted a connection.
//!
//! The caller does the connecting: it asks [`Scanner::next_action`], starts
//! the attempt it is told to start, and reports how each attempt ended with
//! [`Scanner::complete`].

use vstd::prelude::*;
use vstd::multiset::*;
use vstd::seq_lib::*;
use crate::arguments::{Address, Arguments};
use crate::limiter::ConcurrencyLimiter;
use crate::open_ports::{lemma_strictly_ascending_list_is_unique, strictly_ascending, OpenPortSet};
use crate::report::report_text;

verus! {

/// One connection attempt: a port at an address.
#[derive(Clone, Copy, Debug, PartialEq, Eq, Structural)]
pub struct ScanTarget {
    pub address: Address,
    pub port: u16,
}

/// How one connection attempt ended. Every failure counts as closed,
/// whatever its cause.
#[derive(Clone, Copy, Debug, PartialEq, Eq, Structural)]
pub enum ScanOutcome {
    Open(u16),
    Closed,
}

/// What the caller is to do next.
#[derive(Clone, Copy, Debug, PartialEq, Eq, Structural)]
pub enum Action {
    /// Start a connection attempt on this target.
    Launch(ScanTarget),
    /// Start nothing now; report the end of an attempt that is running.
    Wait,
    /// Every port was tried and every attempt has ended.
    Finish,
}

impl ScanTarget {
    /// The outcome of an attempt on this target: the port is open if the
    /// connection was accepted, closed otherwise.
    pub fn outcome(&self, connected: bool) -> (outcome: ScanOutcome)
        ensures
            outcome == (if connected {
                ScanOutcome::Open(self.port)
            } else {
                ScanOutcome::Closed
            }),
    {
        if connected {
            ScanOutcome::Open(self.port)
        } else {
            ScanOutcome::Closed
        }
    }
}

/// How many ports lie in the range from `start` up to, not including, `end`.
pub open spec fn port_count(start: u16, end: u16) -> nat {
    if start < end {
        (end - start) as nat
    } else {
        0
    }
}

/// Taking the entry at `i` out of a list without repeats, by moving the last
/// entry into its place, leaves the other entries and no repeats.
proof fn lemma_swap_remove(s: Seq<u16>, i: int)
    requires
        s.no_duplicates(),
        0 <= i < s.len(),
    ensures
        s.update(i, s.last()).drop_last().no_duplicates(),
        forall|p: u16| #[trigger]
            s.update(i, s.last()).drop_last().contains(p) <==> (s.contains(p) && p != s[i]),
{
    let t = s.update(i, s.last()).drop_last();
    assert forall|p: u16| #[trigger] t.contains(p) <==> (s.contains(p) && p != s[i]) by {
        if t.contains(p) {
            let k = choose|k: int| 0 <= k < t.len() && t[k] == p;
            if k == i {
                assert(s[s.len() - 1] == p);
            } else {
                assert(s[k] == p);
            }
        }
        if s.contains(p) && p != s[i] {
            let j = choose|j: int| 0 <= j < s.len() && s[j] == p;
            if j == s.len() - 1 {
                assert(t[i] == p);
            } else {
                assert(t[j] == p);
            }
        }
    }
}

/// Where `port` stands in `pending`, if it is there.
fn position(pending: &Vec<u16>, port: u16) -> (place: Option<usize>)
    ensures
        match place {
            Some(i) => i < pending.len() && pending@[i as int] == port,
            None => !pending@.contains(port),
        },
{
    let mut i: usize = 0;
    while i < pending.len()
        invariant
            i <= pending.len(),
            forall|k: int| 0 <= k < i ==> pending@[k] != port,
        decreases pending.len() - i,
    {
        if pending[i] == port {
            return Some(i);
        }
        i = i + 1;
    }
    None
}

/// A scan of the ports from `start_port` up to, not including, `end_port`.
pub struct Scanner {
    address: Address,
    start: u16,
    end: u16,
    next: u16,
    limiter: ConcurrencyLimiter,
    pending: Vec<u16>,
    open: OpenPortSet,
    closed: Ghost<Set<u16>>,
}

impl Scanner {
    /// The address that is scanned.
    pub closed spec fn address(&self) -> Address {
        self.address
    }

    /// The first port of the range.
    pub closed spec fn start_port(&self) -> u16 {
        self.start
    }

    /// The port at which the range ends; it is not part of the range.
    pub closed spec fn end_port(&self) -> u16 {
        self.end
    }

    /// The port that the next attempt will go to.
    pub closed spec fn next_port(&self) -> u16 {
        self.next
    }

    /// How many attempts may run at the same time.
    pub closed spec fn capacity(&self) -> nat {
        self.limiter.capacity()
    }

    /// The ports on which an attempt is running.
    pub closed spec fn in_flight(&self) -> Set<u16> {
        self.pending@.to_set()
    }

    /// The ports whose attempt ended with a connection.
    pub closed spec fn open_ports(&self) -> Set<u16> {
        self.open@.dom()
    }

    /// The ports whose attempt ended without a connection.
    pub closed spec fn closed_ports(&self) -> Set<u16> {
        self.closed@
    }

    /// `port` lies in the range of the scan.
    pub open spec fn in_range(&self, port: u16) -> bool {
        self.start_port() <= port < self.end_port()
    }

    /// An attempt on `port` has been started.
    pub open spec fn attempted(&self, port: u16) -> bool {
        self.start_port() <= port < self.next_port()
    }

    /// How many attempts have been started.
    pub open spec fn attempts(&self) -> nat {
        (self.next_port() - self.start_port()) as nat
    }

    /// No port is left to try and no attempt is running.
    pub open spec fn finished(&self) -> bool {
        self.next_port() >= self.end_port() && self.in_flight() == Set::<u16>::empty()
    }

    /// Each port reported open answered, and each reported closed did not,
    /// according to `responds`.
    pub open spec fn agrees_with(&self, responds: spec_fn(u16) -> bool) -> bool {
        forall|port: u16|
            (#[trigger] self.open_ports().contains(port) ==> responds(port)) && (
            #[trigger] self.closed_ports().contains(port) ==> !responds(port))
    }

    /// `report` lists the open ports, each once, least first.
    pub open spec fn lists_open_ports(&self, report: Seq<u16>) -> bool {
        &&& strictly_ascending(report)
        &&& forall|port: u16| report.contains(port) <==> self.open_ports().contains(port)
    }

    /// The state is one that a scan can reach.
    pub closed spec fn wf(&self) -> bool {
        &&& self.start <= self.next
        &&& self.next <= self.end || self.next == self.start
        &&& self.limiter.wf()
        &&& self.limiter.in_flight() == self.pending@.len()
        &&& self.pending@.no_duplicates()
        &&& self.open.wf()
        &&& forall|p: u16| #[trigger] self.open@.count(p) <= 1
        &&& forall|p: u16|
            #![trigger self.pending@.contains(p)]
            #![trigger self.open@.count(p)]
            #![trigger self.closed@.contains(p)]
            (self.start <= p < self.next) <==> (self.pending@.contains(p) || self.open@.count(p) > 0
                || self.closed@.contains(p))
        &&& forall|p: u16|
            #![trigger self.pending@.contains(p)]
            #![trigger self.open@.count(p)]
            #![trigger self.closed@.contains(p)]
            {
                &&& !(self.pending@.contains(p) && self.open@.count(p) > 0)
                &&& !(self.pending@.contains(p) && self.closed@.contains(p))
                &&& !(self.open@.count(p) > 0 && self.closed@.contains(p))
            }
    }

    /// A scan of the range that `args` gives, with at most `capacity`
    /// attempts running at once. Arguments that fail their guards are
    /// rejected before anything is attempted.
    pub fn new(args: &Arguments, capacity: usize) -> (scanner: Option<Scanner>)
        ensures
            scanner is Some <==> args.valid(),
            scanner matches Some(s) ==> {
                &&& s.wf()
                &&& s.address() == args.address
                &&& s.start_port() == args.start_port
                &&& s.end_port() == args.end_port
                &&& s.next_port() == args.start_port
                &&& s.capacity() == capacity
                &&& s.in_flight() == Set::<u16>::empty()
                &&& s.open_ports() == Set::<u16>::empty()
                &&& s.closed_ports() == Set::<u16>::empty()
            },
    {
        if !args.is_valid() {
            return None;
        }
        let s = Scanner {
            address: args.address,
            start: args.start_port,
            end: args.end_port,
            next: args.start_port,
            limiter: ConcurrencyLimiter::new(capacity),
            pending: Vec::new(),
            open: OpenPortSet::new(),
            closed: Ghost(Set::empty()),
        };
        proof {
            broadcast use group_multiset_axioms;

            assert(s.pending@.to_set() =~= Set::<u16>::empty());
            assert(s.open@.dom() =~= Set::<u16>::empty());
        }
        Some(s)
    }

    /// What to do next. An attempt on the next port is launched whenever a
    /// port is left and a slot is free; the scan finishes once no port is
    /// left and nothing is running; in between the caller waits.
    ///
    /// The scan sets no time limit: an attempt whose end is never reported
    /// keeps its slot, and once every slot is kept so the answer stays
    /// [`Action::Wait`].
    pub fn next_action(&mut self) -> (action: Action)
        requires
            old(self).wf(),
        ensures
            final(self).wf(),
            final(self).address() == old(self).address(),
            final(self).start_port() == old(self).start_port(),
            final(self).end_port() == old(self).end_port(),
            final(self).capacity() == old(self).capacity(),
            final(self).open_ports() == old(self).open_ports(),
            final(self).closed_ports() == old(self).closed_ports(),
            final(self).attempts() == old(self).attempts() + (if action is Launch {
                1nat
            } else {
                0nat
            }),
            match action {
                Action::Launch(target) => {
                    &&& old(self).next_port() < old(self).end_port()
                    &&& old(self).in_flight().len() < old(self).capacity()
                    &&& target.address == old(self).address()
                    &&& target.port == old(self).next_port()
                    &&& final(self).next_port() == old(self).next_port() + 1
                    &&& final(self).in_flight() == old(self).in_flight().insert(target.port)
                },
                Action::Wait => {
                    &&& !old(self).finished()
                    &&& old(self).next_port() >= old(self).end_port() || old(self).in_flight().len()
                        >= old(self).capacity()
                    &&& final(self).next_port() == old(self).next_port()
                    &&& final(self).in_flight() == old(self).in_flight()
                },
                Action::Finish => {
                    &&& old(self).finished()
                    &&& final(self).next_port() == old(self).next_port()
                    &&& final(self).in_flight() == old(self).in_flight()
                },
            },
    {
        proof {
            self.pending@.unique_seq_to_set();
        }
        if self.next < self.end {
            if self.limiter.try_acquire() {
                let port: u16 = self.next;
                self.pending.push(port);
                self.next = port + 1;
                proof {
                    let before = old(self).pending@;
                    assert(!before.contains(port));
                    assert(self.pending@[before.len() as int] == port);
                    assert forall|p: u16| #[trigger]
                        self.pending@.contains(p) <==> (before.contains(p) || p == port) by {
                        lemma_seq_contains_after_push(before, port, p);
                    }
                    assert(self.pending@.to_set() =~= before.to_set().insert(port));
                }
                return Action::Launch(ScanTarget { address: self.address, port });
            }
            proof {
                assert(self.pending@.len() > 0 ==> self.pending@.to_set().contains(
                    self.pending@[0],
                ));
            }
            return Action::Wait;
        }
        if self.pending.len() == 0 {
            assert(self.pending@.to_set() =~= Set::<u16>::empty());
            Action::Finish
        } else {
            assert(self.pending@.to_set().contains(self.pending@[0]));
            Action::Wait
        }
    }

    /// Records that the attempt on `port` has ended, with a connection or
    /// without. Its slot is free again. A port on which no attempt is
    /// running is not accepted, and nothing changes.
    pub fn complete(&mut self, port: u16, connected: bool) -> (accepted: bool)
        requires
            old(self).wf(),
        ensures
            final(self).wf(),
            final(self).address() == old(self).address(),
            final(self).start_port() == old(self).start_port(),
            final(self).end_port() == old(self).end_port(),
            final(self).next_port() == old(self).next_port(),
            final(self).capacity() == old(self).capacity(),
            accepted == old(self).in_flight().contains(port),
            final(self).in_flight() == old(self).in_flight().remove(port),
            final(self).open_ports() == (if accepted && connected {
                old(self).open_ports().insert(port)
            } else {
                old(self).open_ports()
            }),
            final(self).closed_ports() == (if accepted && !connected {
                old(self).closed_ports().insert(port)
            } else {
                old(self).closed_ports()
            }),
    {
        let place = position(&self.pending, port);
        let i: usize = match place {
            Some(i) => i,
            None => {
                assert(self.pending@.to_set().remove(port) =~= self.pending@.to_set());
                return false;
            },
        };
        proof {
            lemma_swap_remove(self.pending@, i as int);
        }
        self.pending.swap_remove(i);
        self.limiter.release();
        let target = ScanTarget { address: self.address, port };
        match target.outcome(connected) {
            ScanOutcome::Open(found) => {
                self.open.insert(found);
            },
            ScanOutcome::Closed => {
                self.closed = Ghost(self.closed@.insert(port));
            },
        }
        proof {
            broadcast use group_multiset_axioms;

            let before = old(self).pending@;
            assert(before.contains(port));
            assert(old(self).open@.count(port) == 0);
            assert(!old(self).closed@.contains(port));
            assert(self.pending@.to_set() =~= before.to_set().remove(port));
            if connected {
                assert(self.open@.dom() =~= old(self).open@.dom().insert(port));
            }
        }
        true
    }

    /// Whether no port is left to try and no attempt is running.
    pub fn is_finished(&self) -> (done: bool)
        requires
            self.wf(),
        ensures
            done == self.finished(),
    {
        proof {
            assert(self.pending@.len() == 0 ==> self.pending@.to_set() =~= Set::<u16>::empty());
            assert(self.pending@.len() > 0 ==> self.pending@.to_set().contains(self.pending@[0]));
        }
        self.next >= self.end && self.pending.len() == 0
    }

    /// How many attempts have been started.
    pub fn attempt_count(&self) -> (count: u16)
        requires
            self.wf(),
        ensures
            count == self.attempts(),
    {
        self.next - self.start
    }

    /// How many attempts are running.
    pub fn in_flight_count(&self) -> (count: usize)
        requires
            self.wf(),
        ensures
            count == self.in_flight().len(),
    {
        proof {
            self.pending@.unique_seq_to_set();
        }
        self.pending.len()
    }

    /// Ends the scan and hands out the open ports, each once, least first.
    pub fn into_open_ports(self) -> (ports: Vec<u16>)
        requires
            self.wf(),
        ensures
            self.lists_open_ports(ports@),
    {
        let ports = self.open.into_ascending();
        proof {
            broadcast use group_multiset_axioms;

            assert forall|p: u16| ports@.contains(p) <==> self.open@.dom().contains(p) by {
                to_multiset_contains(ports@, p);
            }
            assert forall|x: u16|
                ports@.to_multiset().contains(x) implies ports@.to_multiset().count(x) == 1 by {
                assert(self.open@.count(x) <= 1);
            }
            ports@.lemma_multiset_has_no_duplicates_conv();
        }
        ports
    }
}

/// At no point of a scan do more attempts run than the limiter has slots.
pub proof fn lemma_in_flight_within_capacity(scanner: Scanner)
    requires
        scanner.wf(),
    ensures
        scanner.in_flight().finite(),
        scanner.in_flight().len() <= scanner.capacity(),
{
    scanner.pending@.unique_seq_to_set();
    seq_to_set_is_finite(scanner.pending@);
}

/// Every port is attempted at most once, in ascending order from the start
/// of the range and never beyond its end; and each attempted port is in
/// exactly one place: in flight, found open, or found closed. A port not
/// yet attempted is in none.
pub proof fn lemma_every_attempt_accounted_once(scanner: Scanner, port: u16)
    requires
        scanner.wf(),
    ensures
        scanner.start_port() <= scanner.next_port(),
        scanner.attempts() <= port_count(scanner.start_port(), scanner.end_port()),
        scanner.attempted(port) ==> scanner.in_range(port),
        scanner.attempted(port) <==> (scanner.in_flight().contains(port)
            || scanner.open_ports().contains(port) || scanner.closed_ports().contains(port)),
        !(scanner.in_flight().contains(port) && scanner.open_ports().contains(port)),
        !(scanner.in_flight().contains(port) && scanner.closed_ports().contains(port)),
        !(scanner.open_ports().contains(port) && scanner.closed_ports().contains(port)),
{
}

/// No port outside the range of the scan is ever reported open.
pub proof fn lemma_open_ports_in_range(scanner: Scanner, port: u16)
    requires
        scanner.wf(),
        scanner.open_ports().contains(port),
    ensures
        scanner.in_range(port),
{
    lemma_every_attempt_accounted_once(scanner, port);
}

/// A finished scan has made exactly one attempt for each port of its range,
/// and knows of each whether it was open or closed.
pub proof fn lemma_finished_scan_tried_every_port(scanner: Scanner)
    requires
        scanner.wf(),
        scanner.finished(),
    ensures
        scanner.attempts() == port_count(scanner.start_port(), scanner.end_port()),
        forall|port: u16|
            scanner.in_range(port) <==> (#[trigger] scanner.open_ports().contains(port)
                || scanner.closed_ports().contains(port)),
{
    assert forall|port: u16|
        scanner.in_range(port) <==> (#[trigger] scanner.open_ports().contains(port)
            || scanner.closed_ports().contains(port)) by {
        lemma_every_attempt_accounted_once(scanner, port);
    }
}

/// A scan whose range is empty, because it starts at its end or beyond it,
/// is finished from the start: it attempts nothing, finds nothing open, and
/// its report is the blank line alone.
pub proof fn lemma_empty_range_scans_nothing(scanner: Scanner)
    requires
        scanner.wf(),
        scanner.start_port() >= scanner.end_port(),
    ensures
        scanner.finished(),
        scanner.attempts() == 0,
        scanner.open_ports() == Set::<u16>::empty(),
        scanner.lists_open_ports(Seq::<u16>::empty()),
        forall|report: Seq<u16>| #[trigger]
            scanner.lists_open_ports(report) ==> report_text(report) == seq![Seq::<char>::empty()],
{
    assert forall|port: u16|
        !scanner.in_flight().contains(port) && !scanner.open_ports().contains(port) by {
        lemma_every_attempt_accounted_once(scanner, port);
    }
    assert(scanner.in_flight() =~= Set::<u16>::empty());
    assert(scanner.open_ports() =~= Set::<u16>::empty());
    assert forall|report: Seq<u16>| #[trigger] scanner.lists_open_ports(report) implies report_text(
        report,
    ) == seq![Seq::<char>::empty()] by {
        if report.len() > 0 {
            assert(report.contains(report[0]));
        }
        assert(report_text(report) =~= seq![Seq::<char>::empty()]);
    }
}

/// Two finished scans of the same range against the same responses report
/// the same ports in the same order, whatever the order in which their
/// attempts ended and however many ran at once.
pub proof fn lemma_same_responses_same_report(
    first: Scanner,
    second: Scanner,
    responds: spec_fn(u16) -> bool,
    first_report: Seq<u16>,
    second_report: Seq<u16>,
)
    requires
        first.wf(),
        second.wf(),
        first.finished(),
        second.finished(),
        first.start_port() == second.start_port(),
        first.end_port() == second.end_port(),
        first.agrees_with(responds),
        second.agrees_with(responds),
        first.lists_open_ports(first_report),
        second.lists_open_ports(second_report),
    ensures
        first.open_ports() == second.open_ports(),
        first_report == second_report,
{
    lemma_finished_scan_tried_every_port(first);
    lemma_finished_scan_tried_every_port(second);
    assert forall|port: u16|
        first.open_ports().contains(port) <==> second.open_ports().contains(port) by {
        lemma_every_attempt_accounted_once(first, port);
        lemma_every_attempt_accounted_once(second, port);
    }
    assert(first.open_ports() =~= second.open_ports());
    lemma_strictly_ascending_list_is_unique(first_report, second_report);
}

} // verus!
