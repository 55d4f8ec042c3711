//! The collection of ports found open, kept so that they come out in
//! ascending order.

use vstd::prelude::*;
use vstd::multiset::*;
use vstd::seq_lib::*;

verus! {

/// The place of an entry's parent in a binary heap laid out in a sequence.
spec fn parent(i: int) -> int {
    (i - 1) / 2
}

/// Every entry but the first is at least its parent.
spec fn heap_ordered(s: Seq<u16>) -> bool {
    forall|i: int| 0 < i < s.len() ==> s[parent(i)] <= #[trigger] s[i]
}

/// No entry is greater than a later one.
pub open spec fn ascending(s: Seq<u16>) -> bool {
    forall|i: int, j: int| 0 <= i < j < s.len() ==> s[i] <= s[j]
}

/// Every entry is less than each later one.
pub open spec fn strictly_ascending(s: Seq<u16>) -> bool {
    forall|i: int, j: int| 0 <= i < j < s.len() ==> s[i] < s[j]
}

/// In an ordered heap the first entry is a least one.
proof fn lemma_root_is_least(s: Seq<u16>, i: int)
    requires
        heap_ordered(s),
        0 <= i < s.len(),
    ensures
        s[0] <= s[i],
    decreases i,
{
    if i > 0 {
        lemma_root_is_least(s, parent(i));
    }
}

/// Exchanging two entries keeps what the sequence holds.
proof fn lemma_swap_keeps_multiset(s: Seq<u16>, i: int, j: int)
    requires
        0 <= i < s.len(),
        0 <= j < s.len(),
    ensures
        s.update(i, s[j]).update(j, s[i]).to_multiset() == s.to_multiset(),
{
    broadcast use group_multiset_axioms;

    let s1 = s.update(i, s[j]);
    to_multiset_update(s, i, s[j]);
    to_multiset_update(s1, j, s[i]);
    to_multiset_contains(s, s[i]);
    to_multiset_contains(s, s[j]);
    assert(s1.update(j, s[i]).to_multiset() =~= s.to_multiset());
}

/// The order in a scan's report is forced: two ascending lists that hold the
/// same ports, each as often as the other, are the same list.
pub proof fn lemma_ascending_list_is_unique(a: Seq<u16>, b: Seq<u16>)
    requires
        ascending(a),
        ascending(b),
        a.to_multiset() == b.to_multiset(),
    ensures
        a == b,
{
    let leq = |x: u16, y: u16| x <= y;
    assert(vstd::relations::sorted_by(a, leq));
    assert(vstd::relations::sorted_by(b, leq));
    assert(vstd::relations::total_ordering(leq));
    lemma_sorted_unique(a, b, leq);
}

/// Two strictly ascending lists with the same members are the same list.
pub proof fn lemma_strictly_ascending_list_is_unique(a: Seq<u16>, b: Seq<u16>)
    requires
        strictly_ascending(a),
        strictly_ascending(b),
        forall|port: u16| a.contains(port) <==> b.contains(port),
    ensures
        a == b,
    decreases a.len(),
{
    if a.len() == 0 {
        if b.len() > 0 {
            assert(b.contains(b[0]));
            assert(a.contains(b[0]));
        }
        assert(a =~= b);
    } else {
        let top = a.last();
        assert(a.contains(a[a.len() - 1]));
        assert(b.contains(top));
        assert(b.contains(b[b.len() - 1]));
        assert(a.contains(b.last()));
        assert(b.last() == top);
        let a0 = a.drop_last();
        let b0 = b.drop_last();
        assert forall|port: u16| a0.contains(port) <==> b0.contains(port) by {
            if a0.contains(port) {
                let k = choose|k: int| 0 <= k < a0.len() && a0[k] == port;
                assert(a[k] == port);
                assert(a.contains(port));
                let m = choose|m: int| 0 <= m < b.len() && b[m] == port;
                assert(m < b.len() - 1);
                assert(b0[m] == port);
            }
            if b0.contains(port) {
                let k = choose|k: int| 0 <= k < b0.len() && b0[k] == port;
                assert(b[k] == port);
                assert(b.contains(port));
                let m = choose|m: int| 0 <= m < a.len() && a[m] == port;
                assert(m < a.len() - 1);
                assert(a0[m] == port);
            }
        }
        lemma_strictly_ascending_list_is_unique(a0, b0);
        assert(a =~= a0.push(top));
        assert(b =~= b0.push(top));
    }
}

/// Exchanges the entries at `i` and `j`.
fn swap_entries(heap: &mut Vec<u16>, i: usize, j: usize)
    requires
        i < old(heap).len(),
        j < old(heap).len(),
    ensures
        final(heap)@ == old(heap)@.update(i as int, old(heap)@[j as int]).update(
            j as int,
            old(heap)@[i as int],
        ),
        final(heap)@.to_multiset() == old(heap)@.to_multiset(),
{
    let a: u16 = heap[i];
    let b: u16 = heap[j];
    heap.set(i, b);
    heap.set(j, a);
    proof {
        lemma_swap_keeps_multiset(old(heap)@, i as int, j as int);
    }
}

/// Moves the last entry up until its parent is no greater than it.
fn sift_up(heap: &mut Vec<u16>)
    requires
        old(heap).len() > 0,
        heap_ordered(old(heap)@.drop_last()),
    ensures
        heap_ordered(final(heap)@),
        final(heap)@.to_multiset() == old(heap)@.to_multiset(),
{
    let mut i: usize = heap.len() - 1;
    assert forall|k: int| 0 < k < heap.len() && k != i implies heap@[parent(k)]
        <= #[trigger] heap@[k] by {
        assert(heap@.drop_last()[k] == heap@[k]);
        assert(heap@.drop_last()[parent(k)] == heap@[parent(k)]);
    }
    while i > 0
        invariant
            i < heap.len(),
            heap@.to_multiset() == old(heap)@.to_multiset(),
            forall|k: int| 0 < k < heap.len() && k != i ==> heap@[parent(k)] <= #[trigger] heap@[k],
            forall|k: int|
                0 < k < heap.len() && parent(k) == i && i > 0 ==> heap@[parent(i as int)]
                    <= #[trigger] heap@[k],
        ensures
            heap_ordered(heap@),
            heap@.to_multiset() == old(heap)@.to_multiset(),
        decreases i,
    {
        let p: usize = (i - 1) / 2;
        if heap[p] <= heap[i] {
            break;
        }
        swap_entries(heap, p, i);
        i = p;
    }
}

/// Moves the first entry down until neither child is less than it.
fn sift_down(heap: &mut Vec<u16>)
    requires
        forall|k: int|
            0 < k < old(heap).len() && parent(k) != 0 ==> old(heap)@[parent(k)]
                <= #[trigger] old(heap)@[k],
    ensures
        heap_ordered(final(heap)@),
        final(heap)@.to_multiset() == old(heap)@.to_multiset(),
{
    let len: usize = heap.len();
    let mut i: usize = 0;
    loop
        invariant
            heap.len() == len,
            i < len || len == 0,
            heap@.to_multiset() == old(heap)@.to_multiset(),
            forall|k: int|
                0 < k < len && parent(k) != i ==> heap@[parent(k)] <= #[trigger] heap@[k],
            forall|k: int|
                0 < k < len && parent(k) == i && i > 0 ==> heap@[parent(i as int)]
                    <= #[trigger] heap@[k],
        ensures
            heap_ordered(heap@),
            heap@.to_multiset() == old(heap)@.to_multiset(),
        decreases len - i,
    {
        if i >= len / 2 {
            break;
        }
        let left: usize = 2 * i + 1;
        let right: usize = left + 1;
        let mut least: usize = left;
        if right < len && heap[right] < heap[left] {
            least = right;
        }
        if heap[i] <= heap[least] {
            break;
        }
        swap_entries(heap, i, least);
        i = least;
    }
}

/// The ports found open so far. A port put in twice is held twice.
pub struct OpenPortSet {
    heap: Vec<u16>,
}

impl View for OpenPortSet {
    type V = Multiset<u16>;

    closed spec fn view(&self) -> Multiset<u16> {
        self.heap@.to_multiset()
    }
}

impl OpenPortSet {
    /// The ports are laid out as a binary heap with the least one first.
    pub closed spec fn wf(&self) -> bool {
        heap_ordered(self.heap@)
    }

    /// A collection that holds nothing.
    pub fn new() -> (ports: OpenPortSet)
        ensures
            ports.wf(),
            ports@ == Multiset::<u16>::empty(),
    {
        let ports = OpenPortSet { heap: Vec::new() };
        assert(ports.heap@.to_multiset() =~= Multiset::<u16>::empty()) by {
            broadcast use group_multiset_axioms;
            to_multiset_len(ports.heap@);
        }
        ports
    }

    /// How many ports are held.
    pub fn len(&self) -> (count: usize)
        ensures
            count == self@.len(),
    {
        proof {
            to_multiset_len(self.heap@);
        }
        self.heap.len()
    }

    /// Whether nothing is held.
    pub fn is_empty(&self) -> (empty: bool)
        ensures
            empty == (self@.len() == 0),
    {
        proof {
            to_multiset_len(self.heap@);
        }
        self.heap.len() == 0
    }

    /// Puts `port` in.
    pub fn insert(&mut self, port: u16)
        requires
            old(self).wf(),
        ensures
            final(self).wf(),
            final(self)@ == old(self)@.insert(port),
    {
        self.heap.push(port);
        proof {
            to_multiset_build(old(self).heap@, port);
            assert(self.heap@.drop_last() =~= old(self).heap@);
        }
        sift_up(&mut self.heap);
    }

    /// Takes a least port out, if any port is held.
    pub fn pop_min(&mut self) -> (least: Option<u16>)
        requires
            old(self).wf(),
        ensures
            final(self).wf(),
            match least {
                Some(port) => {
                    &&& old(self)@.count(port) > 0
                    &&& forall|other: u16| old(self)@.count(other) > 0 ==> port <= other
                    &&& final(self)@ == old(self)@.remove(port)
                },
                None => old(self)@.len() == 0 && final(self)@ == old(self)@,
            },
    {
        proof {
            to_multiset_len(self.heap@);
        }
        if self.heap.len() == 0 {
            return None;
        }
        let ghost before = self.heap@;
        let port: u16 = self.heap.swap_remove(0);
        proof {
            assert forall|other: u16| before.to_multiset().count(other) > 0 implies port
                <= other by {
                to_multiset_contains(before, other);
                let i = choose|i: int| 0 <= i < before.len() && before[i] == other;
                lemma_root_is_least(before, i);
            }
            to_multiset_contains(before, port);
            assert(before[0] == port);
            // What is left is what was there with the first entry taken out.
            let moved = before.update(0, before.last());
            to_multiset_update(before, 0, before.last());
            to_multiset_remove(moved, moved.len() - 1);
            assert(moved.remove(moved.len() - 1) =~= moved.drop_last());
            to_multiset_contains(before, before.last());
            assert(before[before.len() - 1] == before.last());
            assert(self.heap@.to_multiset() =~= before.to_multiset().remove(port)) by {
                broadcast use group_multiset_axioms;
            }
            assert forall|k: int|
                0 < k < self.heap@.len() && parent(k) != 0 implies self.heap@[parent(k)]
                <= #[trigger] self.heap@[k] by {
                assert(before[parent(k)] <= before[k]);
            }
        }
        sift_down(&mut self.heap);
        Some(port)
    }

    /// Empties the collection into a list, least port first.
    pub fn into_ascending(self) -> (ports: Vec<u16>)
        requires
            self.wf(),
        ensures
            ascending(ports@),
            ports@.to_multiset() == self@,
    {
        let mut rest = self;
        let mut ports: Vec<u16> = Vec::new();
        proof {
            broadcast use group_multiset_axioms;
            to_multiset_len(ports@);
            assert(ports@.to_multiset() =~= Multiset::<u16>::empty());
            assert(ports@.to_multiset().add(rest@) =~= self@);
        }
        loop
            invariant
                rest.wf(),
                ascending(ports@),
                forall|i: int, other: u16|
                    0 <= i < ports.len() && rest@.count(other) > 0 ==> ports@[i] <= other,
                ports@.to_multiset().add(rest@) == self@,
            ensures
                ascending(ports@),
                ports@.to_multiset() == self@,
            decreases rest@.len(),
        {
            let ghost held = rest@;
            let ghost listed = ports@;
            match rest.pop_min() {
                None => {
                    proof {
                        broadcast use group_multiset_axioms;
                        assert(rest@ =~= Multiset::<u16>::empty());
                        assert(ports@.to_multiset().add(rest@) =~= ports@.to_multiset());
                    }
                    break;
                },
                Some(port) => {
                    ports.push(port);
                    proof {
                        broadcast use group_multiset_axioms;
                        to_multiset_build(listed, port);
                        assert(ports@.to_multiset().add(rest@) =~= listed.to_multiset().add(held));
                        assert forall|i: int, other: u16|
                            0 <= i < ports.len() && rest@.count(other) > 0 implies ports@[i]
                            <= other by {
                            assert(held.count(other) > 0);
                        }
                    }
                },
            }
        }
        ports
    }
}

} // verus!
