//! The distance-vector routing table: every known peer is mapped to the
//! first hop towards it and a hop count, beside a version counter that
//! advances exactly once per batch of changes. A redacted projection
//! (identifier and hop count only) is what peers gossip to each other.

use crate::crypto::hash;
use vstd::prelude::*;

verus! {

/// Hop count that marks a peer as not yet reachable.
pub const UNREACHABLE: usize = usize::MAX;

/// One row of the routing table.
#[derive(Clone, Copy, PartialEq, Eq, Structural, Debug)]
pub struct RouteEntry {
    /// The destination.
    pub node: hash::Hash,
    /// The first hop towards the destination; the destination itself for a
    /// direct connection.
    pub next_hop: hash::Hash,
    /// Distance in hops; `UNREACHABLE` when no route is known yet.
    pub hops: usize,
}

/// One row of the redacted, gossiped table.
#[derive(Clone, Copy, PartialEq, Eq, Structural, Debug)]
pub struct SharedEntry {
    /// The destination.
    pub node: hash::Hash,
    /// Distance in hops as reported by the gossiping peer.
    pub hops: usize,
}

/// First-match lookup in a routing-entry sequence.
pub open spec fn rlookup(s: Seq<RouteEntry>, id: hash::Hash) -> Option<(hash::Hash, usize)>
    decreases s.len(),
{
    if s.len() == 0 {
        None
    } else if s[0].node == id {
        Some((s[0].next_hop, s[0].hops))
    } else {
        rlookup(s.drop_first(), id)
    }
}

/// First-match lookup in a shared-entry sequence.
pub open spec fn slookup(s: Seq<SharedEntry>, id: hash::Hash) -> Option<usize>
    decreases s.len(),
{
    if s.len() == 0 {
        None
    } else if s[0].node == id {
        Some(s[0].hops)
    } else {
        slookup(s.drop_first(), id)
    }
}

/// No destination appears in two rows.
pub open spec fn unique_route_nodes(s: Seq<RouteEntry>) -> bool {
    forall|i: int, j: int| 0 <= i < j < s.len() ==> s[i].node != s[j].node
}

/// No destination appears in two rows.
pub open spec fn unique_shared_nodes(s: Seq<SharedEntry>) -> bool {
    forall|i: int, j: int| 0 <= i < j < s.len() ==> s[i].node != s[j].node
}

/// A destination is found exactly when some row carries it.
pub proof fn lemma_rlookup_contains(s: Seq<RouteEntry>, id: hash::Hash)
    ensures
        (rlookup(s, id) is Some) == exists|i: int| 0 <= i < s.len() && s[i].node == id,
    decreases s.len(),
{
    if s.len() > 0 {
        lemma_rlookup_contains(s.drop_first(), id);
        if s[0].node != id {
            if exists|i: int| 0 <= i < s.len() && s[i].node == id {
                let i = choose|i: int| 0 <= i < s.len() && s[i].node == id;
                assert(s.drop_first()[i - 1].node == id);
            }
            if rlookup(s.drop_first(), id) is Some {
                let i = choose|i: int|
                    0 <= i < s.drop_first().len() && s.drop_first()[i].node == id;
                assert(s[i + 1].node == id);
            }
        }
    }
}

/// A destination is found exactly when some row carries it.
pub proof fn lemma_slookup_contains(s: Seq<SharedEntry>, id: hash::Hash)
    ensures
        (slookup(s, id) is Some) == exists|i: int| 0 <= i < s.len() && s[i].node == id,
    decreases s.len(),
{
    if s.len() > 0 {
        lemma_slookup_contains(s.drop_first(), id);
        if s[0].node != id {
            if exists|i: int| 0 <= i < s.len() && s[i].node == id {
                let i = choose|i: int| 0 <= i < s.len() && s[i].node == id;
                assert(s.drop_first()[i - 1].node == id);
            }
            if slookup(s.drop_first(), id) is Some {
                let i = choose|i: int|
                    0 <= i < s.drop_first().len() && s.drop_first()[i].node == id;
                assert(s[i + 1].node == id);
            }
        }
    }
}

/// When no destination repeats, looking up the destination of row `i`
/// yields row `i`.
pub proof fn lemma_rlookup_index(s: Seq<RouteEntry>, i: int)
    requires
        unique_route_nodes(s),
        0 <= i < s.len(),
    ensures
        rlookup(s, s[i].node) == Some((s[i].next_hop, s[i].hops)),
    decreases s.len(),
{
    if i > 0 {
        assert(s[0].node != s[i].node);
        assert(unique_route_nodes(s.drop_first())) by {
            assert(forall|a: int, b: int|
                0 <= a < b < s.drop_first().len() ==> s.drop_first()[a] == s[a + 1]
                    && s.drop_first()[b] == s[b + 1]);
        }
        lemma_rlookup_index(s.drop_first(), i - 1);
    }
}

/// Replacing row `i` by a row with the same destination changes exactly
/// that destination's lookup.
pub proof fn lemma_rlookup_update(s: Seq<RouteEntry>, i: int, e: RouteEntry)
    requires
        unique_route_nodes(s),
        0 <= i < s.len(),
        e.node == s[i].node,
    ensures
        unique_route_nodes(s.update(i, e)),
        rlookup(s.update(i, e), e.node) == Some((e.next_hop, e.hops)),
        forall|x: hash::Hash| x != e.node ==> #[trigger] rlookup(s.update(i, e), x)
            == rlookup(s, x),
    decreases s.len(),
{
    let t = s.update(i, e);
    assert(forall|a: int| 0 <= a < s.len() ==> t[a].node == s[a].node);
    if i == 0 {
        assert(t.drop_first() =~= s.drop_first());
    } else {
        assert(t[0] == s[0]);
        assert(t.drop_first() =~= s.drop_first().update(i - 1, e));
        assert(unique_route_nodes(s.drop_first())) by {
            assert(forall|a: int, b: int|
                0 <= a < b < s.drop_first().len() ==> s.drop_first()[a] == s[a + 1]
                    && s.drop_first()[b] == s[b + 1]);
        }
        assert(s.drop_first()[i - 1] == s[i]);
        lemma_rlookup_update(s.drop_first(), i - 1, e);
        assert(s[0].node != s[i].node);
        assert(rlookup(t, e.node) == rlookup(t.drop_first(), e.node));
        assert forall|x: hash::Hash| x != e.node implies #[trigger] rlookup(t, x)
            == rlookup(s, x) by {
            if x != s[0].node {
                assert(rlookup(t, x) == rlookup(t.drop_first(), x));
                assert(rlookup(s, x) == rlookup(s.drop_first(), x));
            }
        }
    }
}

/// Appending a row for a fresh destination changes exactly that
/// destination's lookup.
pub proof fn lemma_rlookup_push(s: Seq<RouteEntry>, e: RouteEntry)
    requires
        unique_route_nodes(s),
        rlookup(s, e.node) is None,
    ensures
        unique_route_nodes(s.push(e)),
        rlookup(s.push(e), e.node) == Some((e.next_hop, e.hops)),
        forall|x: hash::Hash| x != e.node ==> #[trigger] rlookup(s.push(e), x) == rlookup(s, x),
    decreases s.len(),
{
    lemma_rlookup_contains(s, e.node);
    let t = s.push(e);
    assert(forall|a: int| 0 <= a < s.len() ==> t[a] == s[a]);
    assert(unique_route_nodes(t)) by {
        assert(forall|a: int| 0 <= a < s.len() ==> s[a].node != e.node);
        assert(t[s.len() as int] == e);
    }
    if s.len() == 0 {
        assert(t[0] == e);
        assert(t.drop_first() =~= Seq::<RouteEntry>::empty());
        assert forall|x: hash::Hash| x != e.node implies #[trigger] rlookup(t, x)
            == rlookup(s, x) by {
            assert(rlookup(t, x) == rlookup(t.drop_first(), x));
        }
    } else {
        assert(t.drop_first() =~= s.drop_first().push(e));
        assert(unique_route_nodes(s.drop_first())) by {
            assert(forall|a: int, b: int|
                0 <= a < b < s.drop_first().len() ==> s.drop_first()[a] == s[a + 1]
                    && s.drop_first()[b] == s[b + 1]);
        }
        assert(rlookup(s, e.node) == rlookup(s.drop_first(), e.node));
        lemma_rlookup_push(s.drop_first(), e);
        assert(t[0] == s[0]);
        assert(s[0].node != e.node);
        assert(rlookup(t, e.node) == rlookup(t.drop_first(), e.node));
        assert forall|x: hash::Hash| x != e.node implies #[trigger] rlookup(t, x)
            == rlookup(s, x) by {
            if x != s[0].node {
                assert(rlookup(t, x) == rlookup(t.drop_first(), x));
                assert(rlookup(s, x) == rlookup(s.drop_first(), x));
            }
        }
    }
}

/// Representation of a routing table.
pub struct RoutingTable {
    entries: Vec<RouteEntry>,
    version: usize,
}

/// Representation of a shared routing table.
#[derive(Debug, Clone, PartialEq)]
pub struct SharedRoutingTable {
    entries: Vec<SharedEntry>,
}

impl SharedRoutingTable {
    /// The rows of the table.
    pub closed spec fn spec_entries(self) -> Seq<SharedEntry> {
        self.entries@
    }

    /// A well-formed table: no destination repeats.
    pub open spec fn wf(self) -> bool {
        unique_shared_nodes(self.spec_entries())
    }

    /// Builds a table from rows; used by the wire decoder.
    pub(crate) fn from_rows(entries: Vec<SharedEntry>) -> (r: Self)
        ensures
            r.spec_entries() == entries@,
    {
        SharedRoutingTable { entries }
    }

    /// Retrieves the rows of the shared routing table.
    pub fn shared_entries(&self) -> (r: &Vec<SharedEntry>)
        ensures
            r@ == self.spec_entries(),
    {
        &self.entries
    }

    /// Get shared routing information for a node.
    pub fn shared_routing_info(&self, node_id: &hash::Hash) -> (r: Option<usize>)
        ensures
            r == slookup(self.spec_entries(), *node_id),
    {
        let s = Ghost(self.spec_entries());
        proof {
            assert(s@.skip(0) =~= s@);
        }
        let mut k: usize = 0;
        while k < self.entries.len()
            invariant
                k <= s@.len(),
                s@ == self.spec_entries(),
                slookup(s@, *node_id) == slookup(s@.skip(k as int), *node_id),
            decreases s@.len() - k,
        {
            if self.entries[k].node == *node_id {
                proof {
                    assert(s@.skip(k as int)[0] == s@[k as int]);
                }
                return Some(self.entries[k].hops);
            }
            proof {
                assert(s@.skip(k as int).drop_first() =~= s@.skip(k as int + 1));
            }
            k = k + 1;
        }
        proof {
            assert(s@.skip(s@.len() as int) =~= Seq::<SharedEntry>::empty());
        }
        None
    }
}

impl RoutingTable {
    /// The rows of the table.
    pub closed spec fn spec_entries(self) -> Seq<RouteEntry> {
        self.entries@
    }

    /// The version counter.
    pub closed spec fn spec_version(self) -> int {
        self.version as int
    }

    /// A well-formed table: no destination repeats, and every hop count is
    /// at least one.
    pub open spec fn wf(self) -> bool {
        &&& unique_route_nodes(self.spec_entries())
        &&& forall|i: int| 0 <= i < self.spec_entries().len()
            ==> #[trigger] self.spec_entries()[i].hops >= 1
    }

    /// The route recorded for a destination.
    pub open spec fn spec_route(self, id: hash::Hash) -> Option<(hash::Hash, usize)> {
        rlookup(self.spec_entries(), id)
    }

    /// The redacted projection of the table: destination and hop count of
    /// every row, with next hops dropped.
    pub open spec fn spec_shared(self) -> Seq<SharedEntry> {
        self.spec_entries().map_values(|e: RouteEntry| SharedEntry { node: e.node, hops: e.hops })
    }

    /// Creates a new `RoutingTable`.
    pub fn new() -> (r: Self)
        ensures
            r.wf(),
            r.spec_entries() == Seq::<RouteEntry>::empty(),
            r.spec_version() == 0,
    {
        RoutingTable { entries: Vec::new(), version: 0 }
    }

    /// Finds the first row of a destination.
    fn find_index(&self, node_id: &hash::Hash) -> (r: Option<usize>)
        ensures
            match r {
                Some(i) => i < self.spec_entries().len() && self.spec_entries()[i as int].node
                    == *node_id && rlookup(self.spec_entries(), *node_id) == Some(
                    (self.spec_entries()[i as int].next_hop, self.spec_entries()[i as int].hops),
                ),
                None => rlookup(self.spec_entries(), *node_id) is None,
            },
    {
        let s = Ghost(self.spec_entries());
        proof {
            assert(s@.skip(0) =~= s@);
        }
        let mut k: usize = 0;
        while k < self.entries.len()
            invariant
                k <= s@.len(),
                s@ == self.spec_entries(),
                rlookup(s@, *node_id) == rlookup(s@.skip(k as int), *node_id),
            decreases s@.len() - k,
        {
            proof {
                assert(s@.skip(k as int)[0] == s@[k as int]);
            }
            if self.entries[k].node == *node_id {
                return Some(k);
            }
            proof {
                assert(s@.skip(k as int).drop_first() =~= s@.skip(k as int + 1));
            }
            k = k + 1;
        }
        proof {
            assert(s@.skip(s@.len() as int) =~= Seq::<RouteEntry>::empty());
        }
        None
    }

    /// Retrieve the shared (redacted) projection of the table: destination
    /// and hop count only, with next hops dropped.
    pub fn get_shared(&self) -> (r: SharedRoutingTable)
        ensures
            r.spec_entries() == self.spec_shared(),
            self.wf() ==> r.wf(),
    {
        let mut rows: Vec<SharedEntry> = Vec::new();
        let mut k: usize = 0;
        while k < self.entries.len()
            invariant
                k <= self.spec_entries().len(),
                rows@.len() == k,
                forall|i: int| 0 <= i < k ==> #[trigger] rows@[i] == (SharedEntry {
                    node: self.spec_entries()[i].node,
                    hops: self.spec_entries()[i].hops,
                }),
            decreases self.spec_entries().len() - k,
        {
            rows.push(SharedEntry { node: self.entries[k].node, hops: self.entries[k].hops });
            k = k + 1;
        }
        proof {
            assert(rows@ =~= self.spec_shared());
        }
        SharedRoutingTable { entries: rows }
    }

    /// Retrieve routing information for a node.
    pub fn get_routing_info(&self, node_id: &hash::Hash) -> (r: Option<(hash::Hash, usize)>)
        ensures
            r == self.spec_route(*node_id),
    {
        match self.find_index(node_id) {
            Some(i) => {
                let e = self.entries[i];
                Some((e.next_hop, e.hops))
            },
            None => None,
        }
    }

    /// Get all routing information for all nodes.
    pub fn entries(&self) -> (r: &Vec<RouteEntry>)
        ensures
            r@ == self.spec_entries(),
    {
        &self.entries
    }

    /// Checks whether the table has a row for a node.
    pub fn has_node(&self, node_id: &hash::Hash) -> (r: bool)
        ensures
            r == (self.spec_route(*node_id) is Some),
    {
        match self.find_index(node_id) {
            Some(i) => true,
            None => false,
        }
    }

    /// Insert a placeholder row for a newly learned node: a fresh random
    /// next hop and the unreachable hop count.
    pub fn add_new_node(&mut self, node_id: &hash::Hash)
        requires
            old(self).wf(),
        ensures
            final(self).wf(),
            final(self).spec_version() == old(self).spec_version(),
            final(self).spec_route(*node_id) matches Some((nh, h)) && h == UNREACHABLE,
            forall|x: hash::Hash| x != *node_id ==> final(self).spec_route(x)
                == old(self).spec_route(x),
    {
        let entry = RouteEntry {
            node: *node_id,
            next_hop: hash::Hash::random(),
            hops: UNREACHABLE,
        };
        self.insert_entry(entry);
    }

    /// Insert a row for a directly connected node: next hop the node
    /// itself, hop count one.
    pub fn add_direct_connection(&mut self, node_id: &hash::Hash)
        requires
            old(self).wf(),
        ensures
            final(self).wf(),
            final(self).spec_version() == old(self).spec_version(),
            final(self).spec_route(*node_id) == Some((*node_id, 1usize)),
            forall|x: hash::Hash| x != *node_id ==> final(self).spec_route(x)
                == old(self).spec_route(x),
    {
        let entry = RouteEntry { node: *node_id, next_hop: *node_id, hops: 1 };
        self.insert_entry(entry);
    }

    /// Inserts or replaces the row for `entry.node`.
    fn insert_entry(&mut self, entry: RouteEntry)
        requires
            old(self).wf(),
            entry.hops >= 1,
        ensures
            final(self).wf(),
            final(self).spec_version() == old(self).spec_version(),
            final(self).spec_route(entry.node) == Some((entry.next_hop, entry.hops)),
            forall|x: hash::Hash| x != entry.node ==> final(self).spec_route(x)
                == old(self).spec_route(x),
    {
        match self.find_index(&entry.node) {
            Some(i) => {
                proof {
                    lemma_rlookup_update(self.spec_entries(), i as int, entry);
                }
                self.entries[i] = entry;
                assert(self.wf()) by {
                    assert(forall|j: int| 0 <= j < self.spec_entries().len() && j != i
                        ==> self.spec_entries()[j] == old(self).spec_entries()[j]);
                }
            },
            None => {
                proof {
                    lemma_rlookup_push(self.spec_entries(), entry);
                }
                self.entries.push(entry);
                assert(self.wf()) by {
                    assert(forall|j: int| 0 <= j < old(self).spec_entries().len()
                        ==> self.spec_entries()[j] == old(self).spec_entries()[j]);
                }
            },
        }
    }

    /// Bump the version number of the routing table.
    pub fn increment_version(&mut self)
        requires
            old(self).spec_version() < usize::MAX,
        ensures
            final(self).spec_version() == old(self).spec_version() + 1,
            final(self).spec_entries() == old(self).spec_entries(),
            final(self).wf() == old(self).wf(),
    {
        self.version = self.version + 1;
    }

    /// Retrieve the version number of the routing table.
    pub fn version(&self) -> (r: usize)
        ensures
            r == self.spec_version(),
    {
        self.version
    }

    /// One relaxation step against a gossiped table received from
    /// `peer_id`: every destination the peer reports and the table does not
    /// hold is added as an unreachable placeholder, and every destination
    /// the peer can reach in `h` hops is re-routed through the peer when
    /// `h + 1` beats the recorded hop count. Returns whether any hop count
    /// changed; the version counter is not touched here.
    pub fn relax(
        &mut self,
        self_id: &hash::Hash,
        peer_id: &hash::Hash,
        shared: &SharedRoutingTable,
    ) -> (changed: bool)
        requires
            old(self).wf(),
        ensures
            final(self).wf(),
            final(self).spec_version() == old(self).spec_version(),
            changed == exists|x: hash::Hash|
                #[trigger] relax_applies(
                    old(self).spec_entries(),
                    *self_id,
                    shared.spec_entries(),
                    x,
                ),
            forall|x: hash::Hash|
                #[trigger] relax_applies(old(self).spec_entries(), *self_id, shared.spec_entries(), x)
                    ==> final(self).spec_route(x) == Some(
                    (*peer_id, (slookup(shared.spec_entries(), x).unwrap() + 1) as usize),
                ),
            forall|x: hash::Hash|
                !relax_applies(old(self).spec_entries(), *self_id, shared.spec_entries(), x)
                    && old(self).spec_route(x) is Some ==> final(self).spec_route(x) == old(
                    self,
                ).spec_route(x),
            forall|x: hash::Hash|
                !relax_applies(old(self).spec_entries(), *self_id, shared.spec_entries(), x)
                    && old(self).spec_route(x) is None && slookup(shared.spec_entries(), x)
                    is Some ==> route_unreachable(#[trigger] final(self).spec_route(x)),
            forall|x: hash::Hash|
                old(self).spec_route(x) is None && slookup(shared.spec_entries(), x) is None
                    ==> final(self).spec_route(x) is None,
    {
        let ghost told = self.spec_entries();
        let ghost ss = shared.spec_entries();

        // Step one: add a placeholder row for every destination the peer
        // reports that the table does not hold yet.
        let rows = shared.shared_entries();
        let mut k: usize = 0;
        proof {
            assert(ss.take(0) =~= Seq::<SharedEntry>::empty());
        }
        while k < rows.len()
            invariant
                k <= ss.len(),
                rows@ == ss,
                ss == shared.spec_entries(),
                self.wf(),
                self.spec_version() == old(self).spec_version(),
                forall|x: hash::Hash| old(self).spec_route(x) is Some
                    ==> #[trigger] self.spec_route(x) == old(self).spec_route(x),
                forall|x: hash::Hash| old(self).spec_route(x) is None
                    && #[trigger] slookup(ss.take(k as int), x) is Some
                    ==> route_unreachable(self.spec_route(x)),
                forall|x: hash::Hash| old(self).spec_route(x) is None
                    && #[trigger] slookup(ss.take(k as int), x) is None
                    ==> self.spec_route(x) is None,
            decreases ss.len() - k,
        {
            let node = rows[k].node;
            if !self.has_node(&node) {
                self.add_new_node(&node);
            }
            proof {
                assert(ss.take(k + 1 as int) =~= ss.take(k as int).push(ss[k as int]));
                lemma_slookup_push(ss.take(k as int), ss[k as int]);
            }
            k = k + 1;
        }
        proof {
            assert(ss.take(ss.len() as int) =~= ss);
        }

        // Step two: relax every row against what the peer reported.
        let ghost t1 = self.spec_entries();
        let ghost mid = *self;
        let mut changed = false;
        let mut j: usize = 0;
        while j < self.entries.len()
            invariant
                j <= t1.len(),
                t1 == mid.spec_entries(),
                self.spec_entries().len() == t1.len(),
                self.spec_version() == mid.spec_version(),
                ss == shared.spec_entries(),
                forall|i: int| j <= i < t1.len() ==> #[trigger] self.spec_entries()[i] == t1[i],
                forall|i: int| 0 <= i < j ==> #[trigger] self.spec_entries()[i] == relaxed_entry(
                    t1[i],
                    *self_id,
                    ss,
                    *peer_id,
                ),
                changed == exists|i: int| 0 <= i < j
                    && #[trigger] relaxed_entry(t1[i], *self_id, ss, *peer_id) != t1[i],
                mid.wf(),
                self.wf(),
            decreases t1.len() - j,
        {
            let e = self.entries[j];
            if !(e.node == *self_id) {
                match shared.shared_routing_info(&e.node) {
                    Some(sh) => {
                        if sh < UNREACHABLE && sh + 1 < e.hops {
                            let new_entry = RouteEntry {
                                node: e.node,
                                next_hop: *peer_id,
                                hops: sh + 1,
                            };
                            self.entries[j] = new_entry;
                            changed = true;
                            proof {
                                assert(relaxed_entry(t1[j as int], *self_id, ss, *peer_id)
                                    == new_entry);
                                assert(new_entry != t1[j as int]);
                                assert(self.wf()) by {
                                    assert(forall|a: int, b: int|
                                        0 <= a < b < self.spec_entries().len()
                                            ==> self.spec_entries()[a].node == mid.spec_entries()[a].node
                                            && self.spec_entries()[b].node == mid.spec_entries()[b].node);
                                }
                            }
                        }
                    },
                    None => {},
                }
            }
            j = j + 1;
        }
        proof {
            self.lemma_relax_translate(mid, told, ss, *self_id, *peer_id);
        }
        changed
    }

    /// Translates the row-by-row description of the two relaxation loops
    /// into the lookup-level contract of `relax`.
    proof fn lemma_relax_translate(
        &self,
        mid: RoutingTable,
        told: Seq<RouteEntry>,
        ss: Seq<SharedEntry>,
        self_id: hash::Hash,
        peer_id: hash::Hash,
    )
        requires
            mid.wf(),
            self.wf(),
            self.spec_entries().len() == mid.spec_entries().len(),
            forall|i: int| 0 <= i < mid.spec_entries().len() ==> #[trigger] self.spec_entries()[i]
                == relaxed_entry(mid.spec_entries()[i], self_id, ss, peer_id),
            forall|x: hash::Hash| rlookup(told, x) is Some ==> #[trigger] mid.spec_route(x)
                == rlookup(told, x),
            forall|x: hash::Hash| rlookup(told, x) is None && #[trigger] slookup(ss, x) is Some
                ==> route_unreachable(mid.spec_route(x)),
            forall|x: hash::Hash| rlookup(told, x) is None && #[trigger] slookup(ss, x) is None
                ==> mid.spec_route(x) is None,
        ensures
            forall|x: hash::Hash| #[trigger] relax_applies(told, self_id, ss, x)
                ==> self.spec_route(x) == Some(
                (peer_id, (slookup(ss, x).unwrap() + 1) as usize),
            ),
            forall|x: hash::Hash| !relax_applies(told, self_id, ss, x) && rlookup(told, x) is Some
                ==> #[trigger] self.spec_route(x) == rlookup(told, x),
            forall|x: hash::Hash| !relax_applies(told, self_id, ss, x) && rlookup(told, x) is None
                && slookup(ss, x) is Some ==> route_unreachable(#[trigger] self.spec_route(x)),
            forall|x: hash::Hash| rlookup(told, x) is None && slookup(ss, x) is None
                ==> #[trigger] self.spec_route(x) is None,
            (exists|i: int| 0 <= i < mid.spec_entries().len()
                && #[trigger] relaxed_entry(mid.spec_entries()[i], self_id, ss, peer_id)
                != mid.spec_entries()[i]) == exists|x: hash::Hash|
                #[trigger] relax_applies(told, self_id, ss, x),
    {
        let t1 = mid.spec_entries();
        let t2 = self.spec_entries();
        assert(forall|i: int| 0 <= i < t1.len() ==> #[trigger] t2[i].node == t1[i].node);

        // Per-destination clauses.
        assert forall|x: hash::Hash| true implies {
            &&& (relax_applies(told, self_id, ss, x) ==> #[trigger] self.spec_route(x) == Some(
                (peer_id, (slookup(ss, x).unwrap() + 1) as usize),
            ))
            &&& (!relax_applies(told, self_id, ss, x) && rlookup(told, x) is Some
                ==> self.spec_route(x) == rlookup(told, x))
            &&& (!relax_applies(told, self_id, ss, x) && rlookup(told, x) is None && slookup(ss, x)
                is Some ==> route_unreachable(self.spec_route(x)))
            &&& (rlookup(told, x) is None && slookup(ss, x) is None ==> self.spec_route(x) is None)
        } by {
            if mid.spec_route(x) is Some {
                lemma_rlookup_contains(t1, x);
                let i = choose|i: int| 0 <= i < t1.len() && t1[i].node == x;
                lemma_rlookup_index(t1, i);
                lemma_rlookup_index(t2, i);
                assert(t2[i] == relaxed_entry(t1[i], self_id, ss, peer_id));
                assert(self.spec_route(x) == Some((t2[i].next_hop, t2[i].hops)));
            } else {
                lemma_rlookup_contains(t1, x);
                lemma_rlookup_contains(t2, x);
                if rlookup(told, x) is Some {
                    assert(mid.spec_route(x) == rlookup(told, x));
                    assert(false);
                }
                assert(self.spec_route(x) is None);
            }
        }

        // The change flag.
        if exists|i: int| 0 <= i < t1.len()
            && #[trigger] relaxed_entry(t1[i], self_id, ss, peer_id) != t1[i] {
            let i = choose|i: int| 0 <= i < t1.len()
                && #[trigger] relaxed_entry(t1[i], self_id, ss, peer_id) != t1[i];
            let x = t1[i].node;
            lemma_rlookup_index(t1, i);
            assert(relax_applies(told, self_id, ss, x)) by {
                lemma_rlookup_contains(t1, x);
                if rlookup(told, x) is Some {
                    assert(mid.spec_route(x) == rlookup(told, x));
                } else {
                    lemma_slookup_contains(ss, x);
                    if slookup(ss, x) is None {
                        assert(mid.spec_route(x) is None);
                        assert(false);
                    }
                    assert(route_unreachable(mid.spec_route(x)));
                    assert(t1[i].hops == UNREACHABLE);
                }
            }
        }
        if exists|x: hash::Hash| #[trigger] relax_applies(told, self_id, ss, x) {
            let x = choose|x: hash::Hash| #[trigger] relax_applies(told, self_id, ss, x);
            if rlookup(told, x) is Some {
                assert(mid.spec_route(x) == rlookup(told, x));
                lemma_rlookup_contains(t1, x);
                let i = choose|i: int| 0 <= i < t1.len() && t1[i].node == x;
                lemma_rlookup_index(t1, i);
                assert(relaxed_entry(t1[i], self_id, ss, peer_id) != t1[i]);
            } else {
                assert(route_unreachable(mid.spec_route(x)));
                lemma_rlookup_contains(t1, x);
                let i = choose|i: int| 0 <= i < t1.len() && t1[i].node == x;
                lemma_rlookup_index(t1, i);
                assert(t1[i].hops == UNREACHABLE);
                assert(relaxed_entry(t1[i], self_id, ss, peer_id) != t1[i]);
            }
        }
    }
}

/// Appending a row changes lookups only for a destination not yet present.
pub proof fn lemma_slookup_push(s: Seq<SharedEntry>, e: SharedEntry)
    ensures
        forall|x: hash::Hash| #[trigger] slookup(s.push(e), x) == if slookup(s, x) is Some {
            slookup(s, x)
        } else if x == e.node {
            Some(e.hops)
        } else {
            None
        },
    decreases s.len(),
{
    let t = s.push(e);
    if s.len() == 0 {
        assert(t.drop_first() =~= Seq::<SharedEntry>::empty());
        assert forall|x: hash::Hash| true implies #[trigger] slookup(t, x) == if slookup(s, x)
            is Some {
            slookup(s, x)
        } else if x == e.node {
            Some(e.hops)
        } else {
            None
        } by {
            assert(t[0] == e);
            if x != e.node {
                assert(slookup(t, x) == slookup(t.drop_first(), x));
            }
        }
    } else {
        assert(t.drop_first() =~= s.drop_first().push(e));
        lemma_slookup_push(s.drop_first(), e);
        assert forall|x: hash::Hash| true implies #[trigger] slookup(t, x) == if slookup(s, x)
            is Some {
            slookup(s, x)
        } else if x == e.node {
            Some(e.hops)
        } else {
            None
        } by {
            assert(t[0] == s[0]);
            if x != s[0].node {
                assert(slookup(t, x) == slookup(t.drop_first(), x));
                assert(slookup(s, x) == slookup(s.drop_first(), x));
            }
        }
    }
}

/// Whether a recorded route is the unreachable placeholder.
pub open spec fn route_unreachable(r: Option<(hash::Hash, usize)>) -> bool {
    match r {
        Some((nh, h)) => h == UNREACHABLE,
        None => false,
    }
}

/// Whether a gossiped table `s` improves the route to `x`: `x` is not the
/// local node, the peer reports a finite hop count, and one more hop than
/// reported is less than what the table `t` holds (the unreachable
/// sentinel when `t` has no row for `x` yet).
pub open spec fn relax_applies(
    t: Seq<RouteEntry>,
    self_id: hash::Hash,
    s: Seq<SharedEntry>,
    x: hash::Hash,
) -> bool {
    &&& x != self_id
    &&& match slookup(s, x) {
        Some(sh) => sh < UNREACHABLE && (match rlookup(t, x) {
            Some((nh, h)) => sh as int + 1 < h as int,
            None => sh as int + 1 < UNREACHABLE as int,
        }),
        None => false,
    }
}

/// The row `e` after one relaxation step against the gossiped table `s`
/// received from `peer`.
pub open spec fn relaxed_entry(
    e: RouteEntry,
    self_id: hash::Hash,
    s: Seq<SharedEntry>,
    peer: hash::Hash,
) -> RouteEntry {
    if e.node != self_id {
        match slookup(s, e.node) {
            Some(sh) => if sh < UNREACHABLE && sh as int + 1 < e.hops as int {
                RouteEntry { node: e.node, next_hop: peer, hops: (sh + 1) as usize }
            } else {
                e
            },
            None => e,
        }
    } else {
        e
    }
}

/// The lookup-level description of one relaxation step at the level of raw
/// row sequences: every improvable destination is re-routed through the
/// peer at one more hop than reported, every other known destination keeps
/// its route, every other mentioned destination is an unreachable
/// placeholder, and nothing else enters the table.
pub open spec fn relax_step(
    told: Seq<RouteEntry>,
    self_id: hash::Hash,
    peer: hash::Hash,
    s: Seq<SharedEntry>,
    tnew: Seq<RouteEntry>,
) -> bool {
    &&& forall|x: hash::Hash| #[trigger] relax_applies(told, self_id, s, x) ==> rlookup(tnew, x)
        == Some((peer, (slookup(s, x).unwrap() + 1) as usize))
    &&& forall|x: hash::Hash| (!relax_applies(told, self_id, s, x) && rlookup(told, x) is Some)
        ==> #[trigger] rlookup(tnew, x) == rlookup(told, x)
    &&& forall|x: hash::Hash| (!relax_applies(told, self_id, s, x) && rlookup(told, x) is None
        && slookup(s, x) is Some) ==> route_unreachable(#[trigger] rlookup(tnew, x))
    &&& forall|x: hash::Hash| (rlookup(told, x) is None && slookup(s, x) is None)
        ==> #[trigger] rlookup(tnew, x) is None
}

/// One mutation of the routing table, as gossip and connections drive it.
pub enum RouteOp {
    /// A peer became directly connected.
    Direct {
        /// The peer's identifier.
        id: hash::Hash,
    },
    /// A gossiped table arrived from a peer.
    Gossip {
        /// The gossiping peer's identifier.
        peer: hash::Hash,
        /// The rows the peer reported.
        table: Seq<SharedEntry>,
    },
}

/// Whether applying `op` to the rows `t1` can yield the rows `t2`.
pub open spec fn route_step(
    t1: Seq<RouteEntry>,
    self_id: hash::Hash,
    op: RouteOp,
    t2: Seq<RouteEntry>,
) -> bool {
    match op {
        RouteOp::Direct { id } => rlookup(t2, id) == Some((id, 1usize)) && forall|x: hash::Hash|
            x != id ==> #[trigger] rlookup(t2, x) == rlookup(t1, x),
        RouteOp::Gossip { peer, table } => relax_step(t1, self_id, peer, table, t2),
    }
}

/// Whether `states` is a run of the routing table under `ops`: one row
/// sequence per point in time, each reachable from the last by its
/// operation.
pub open spec fn route_chain(
    self_id: hash::Hash,
    states: Seq<Seq<RouteEntry>>,
    ops: Seq<RouteOp>,
) -> bool {
    &&& states.len() == ops.len() + 1
    &&& forall|i: int| 0 <= i < ops.len() ==> route_step(
        states[i],
        self_id,
        ops[i],
        #[trigger] states[i + 1],
    )
}

/// The best hop count the operations `ops` can justify for destination
/// `x`: one for a direct connection, the least reported hop count plus one
/// over all gossip that mentions `x` after the last direct connection, the
/// unreachable sentinel for a destination only ever mentioned at the
/// sentinel, and nothing for a destination never mentioned.
pub open spec fn best_hops(ops: Seq<RouteOp>, self_id: hash::Hash, x: hash::Hash) -> Option<int>
    decreases ops.len(),
{
    if ops.len() == 0 {
        None
    } else {
        let prev = best_hops(ops.drop_last(), self_id, x);
        match ops.last() {
            RouteOp::Direct { id } => if id == x {
                Some(1int)
            } else {
                prev
            },
            RouteOp::Gossip { peer, table } => {
                if x == self_id {
                    match prev {
                        Some(h) => Some(h),
                        None => if slookup(table, x) is Some {
                            Some(UNREACHABLE as int)
                        } else {
                            None
                        },
                    }
                } else {
                    let cand: Option<int> = match slookup(table, x) {
                        Some(sh) => if sh < UNREACHABLE {
                            Some(sh as int + 1)
                        } else {
                            Some(UNREACHABLE as int)
                        },
                        None => None,
                    };
                    match (prev, cand) {
                        (Option::None, Option::None) => None,
                        (Some(h), Option::None) => Some(h),
                        (Option::None, Some(c)) => Some(c),
                        (Some(h), Some(c)) => Some(if c < h {
                            c
                        } else {
                            h
                        }),
                    }
                }
            },
        }
    }
}

/// Whether the recorded first hop `nh` at hop count `h` is justified by
/// one of the operations: the destination itself after a direct
/// connection, a gossiping peer that reported one hop fewer, or the
/// unreachable placeholder.
pub open spec fn good_next(
    ops: Seq<RouteOp>,
    x: hash::Hash,
    nh: hash::Hash,
    h: int,
) -> bool {
    ||| h == UNREACHABLE as int
    ||| (h == 1 && nh == x && exists|i: int|
        {
            &&& 0 <= i < ops.len()
            &&& (#[trigger] ops[i]) matches RouteOp::Direct { id } && id == x
        })
    ||| (exists|i: int|
        {
            &&& 0 <= i < ops.len()
            &&& (#[trigger] ops[i]) matches RouteOp::Gossip { peer, table } && nh == peer && 1
                <= h <= UNREACHABLE as int && slookup(table, x) == Some((h - 1) as usize)
        })
}

/// Relaxation optimality: in any run of the routing table from the empty
/// table, the hop count recorded for any destination is exactly the best
/// hop count that the received gossip and the direct connections justify,
/// and the recorded first hop is a valid first step towards it. In a fixed
/// topology whose nodes gossip their true distances, the best justified
/// hop count is the true shortest hop distance, so a quiescent table is
/// shortest-path optimal.
pub proof fn lemma_relaxation_optimal(
    self_id: hash::Hash,
    states: Seq<Seq<RouteEntry>>,
    ops: Seq<RouteOp>,
    x: hash::Hash,
)
    requires
        route_chain(self_id, states, ops),
        states[0] == Seq::<RouteEntry>::empty(),
    ensures
        match rlookup(states.last(), x) {
            Some((nh, h)) => best_hops(ops, self_id, x) == Some(h as int) && good_next(
                ops,
                x,
                nh,
                h as int,
            ),
            None => best_hops(ops, self_id, x) is None,
        },
    decreases ops.len(),
{
    if ops.len() == 0 {
        assert(states.last() == states[0]);
    } else {
        let n = ops.len() as int;
        let pstates = states.drop_last();
        let pops = ops.drop_last();
        assert(route_chain(self_id, pstates, pops)) by {
            assert(forall|i: int| 0 <= i < pops.len() ==> pstates[i] == states[i]
                && #[trigger] pstates[i + 1] == states[i + 1] && pops[i] == ops[i]);
        }
        assert(pstates[0] == states[0]);
        lemma_relaxation_optimal(self_id, pstates, pops, x);
        let tprev = pstates.last();
        let tlast = states.last();
        assert(tprev == states[n - 1]);
        assert(route_step(states[n - 1], self_id, ops[n - 1], states[n]));
        assert(ops[n - 1] == ops.last());
        let prev = best_hops(pops, self_id, x);
        assert(forall|i: int| 0 <= i < pops.len() ==> #[trigger] pops[i] == ops[i]);
        match ops.last() {
            RouteOp::Direct { id } => {
                if id == x {
                    assert(rlookup(tlast, x) == Some((x, 1usize)));
                    assert({
                        &&& 0 <= n - 1 < ops.len()
                        &&& (ops[n - 1]) matches RouteOp::Direct { id: i2 } && i2 == x
                    });
                } else {
                    assert(rlookup(tlast, x) == rlookup(tprev, x));
                    if rlookup(tlast, x) is Some {
                        let (nh, h) = rlookup(tprev, x).unwrap();
                        assert(good_next(pops, x, nh, h as int));
                        lemma_good_next_extend(pops, ops, x, nh, h as int);
                    }
                }
            },
            RouteOp::Gossip { peer, table } => {
                lemma_gossip_step(self_id, tprev, tlast, peer, table, pops, ops, x, prev);
            },
        }
    }
}

/// A justification by a prefix of the operations is a justification by all
/// of them.
proof fn lemma_good_next_extend(
    pops: Seq<RouteOp>,
    ops: Seq<RouteOp>,
    x: hash::Hash,
    nh: hash::Hash,
    h: int,
)
    requires
        good_next(pops, x, nh, h),
        pops == ops.drop_last(),
        ops.len() >= 1,
    ensures
        good_next(ops, x, nh, h),
{
    assert(forall|i: int| 0 <= i < pops.len() ==> #[trigger] pops[i] == ops[i]);
    if h == UNREACHABLE as int {
    } else if h == 1 && nh == x && exists|i: int|
        {
            &&& 0 <= i < pops.len()
            &&& (#[trigger] pops[i]) matches RouteOp::Direct { id } && id == x
        } {
        let i = choose|i: int|
            {
                &&& 0 <= i < pops.len()
                &&& (#[trigger] pops[i]) matches RouteOp::Direct { id } && id == x
            };
        assert({
            &&& 0 <= i < ops.len()
            &&& (ops[i]) matches RouteOp::Direct { id } && id == x
        });
    } else {
        let i = choose|i: int|
            {
                &&& 0 <= i < pops.len()
                &&& (#[trigger] pops[i]) matches RouteOp::Gossip { peer, table } && nh == peer
                    && 1 <= h <= UNREACHABLE as int && slookup(table, x) == Some((h - 1) as usize)
            };
        assert({
            &&& 0 <= i < ops.len()
            &&& (ops[i]) matches RouteOp::Gossip { peer, table } && nh == peer && 1 <= h
                <= UNREACHABLE as int && slookup(table, x) == Some((h - 1) as usize)
        });
    }
}

/// The gossip case of the optimality induction: one relaxation step takes
/// the recorded hop count to the minimum of what it was and what the new
/// table justifies.
proof fn lemma_gossip_step(
    self_id: hash::Hash,
    tprev: Seq<RouteEntry>,
    tlast: Seq<RouteEntry>,
    peer: hash::Hash,
    table: Seq<SharedEntry>,
    pops: Seq<RouteOp>,
    ops: Seq<RouteOp>,
    x: hash::Hash,
    prev: Option<int>,
)
    requires
        relax_step(tprev, self_id, peer, table, tlast),
        pops == ops.drop_last(),
        ops.len() >= 1,
        ops.last() == (RouteOp::Gossip { peer, table }),
        prev == best_hops(pops, self_id, x),
        match rlookup(tprev, x) {
            Some((nh, h)) => prev == Some(h as int) && good_next(pops, x, nh, h as int),
            None => prev is None,
        },
    ensures
        match rlookup(tlast, x) {
            Some((nh, h)) => best_hops(ops, self_id, x) == Some(h as int) && good_next(
                ops,
                x,
                nh,
                h as int,
            ),
            None => best_hops(ops, self_id, x) is None,
        },
{
    assert(forall|i: int| 0 <= i < pops.len() ==> #[trigger] pops[i] == ops[i]);
    assert(best_hops(ops, self_id, x) == {
        let prev2 = best_hops(ops.drop_last(), self_id, x);
        if x == self_id {
            match prev2 {
                Some(h) => Some(h),
                None => if slookup(table, x) is Some {
                    Some(UNREACHABLE as int)
                } else {
                    None
                },
            }
        } else {
            let cand: Option<int> = match slookup(table, x) {
                Some(sh) => if sh < UNREACHABLE {
                    Some(sh as int + 1)
                } else {
                    Some(UNREACHABLE as int)
                },
                None => None,
            };
            match (prev2, cand) {
                (Option::None, Option::None) => None,
                (Some(h), Option::None) => Some(h),
                (Option::None, Some(c)) => Some(c),
                (Some(h), Some(c)) => Some(if c < h {
                    c
                } else {
                    h
                }),
            }
        }
    });
    if relax_applies(tprev, self_id, table, x) {
        let sh = slookup(table, x).unwrap();
        assert(rlookup(tlast, x) == Some((peer, (sh + 1) as usize)));
        let h2: int = sh as int + 1;
        assert({
            &&& 0 <= ops.len() - 1 < ops.len()
            &&& (ops[ops.len() - 1]) matches RouteOp::Gossip { peer: p2, table: t2 } && peer == p2
                && 1 <= h2 <= UNREACHABLE as int && slookup(t2, x) == Some((h2 - 1) as usize)
        });
    } else {
        if rlookup(tprev, x) is Some {
            assert(rlookup(tlast, x) == rlookup(tprev, x));
            let (nh, h) = rlookup(tprev, x).unwrap();
            lemma_good_next_extend(pops, ops, x, nh, h as int);
            if x != self_id {
                match slookup(table, x) {
                    Some(sh) => {
                        if sh < UNREACHABLE {
                            assert(sh as int + 1 >= h as int);
                        }
                    },
                    None => {},
                }
            }
        } else {
            if slookup(table, x) is Some {
                assert(route_unreachable(rlookup(tlast, x)));
                let (nh, h) = rlookup(tlast, x).unwrap();
                assert(h == UNREACHABLE);
                if x != self_id {
                    let sh = slookup(table, x).unwrap();
                    assert(!(sh < UNREACHABLE && sh as int + 1 < UNREACHABLE as int));
                }
            } else {
                assert(rlookup(tlast, x) is None);
            }
        }
    }
}

} // verus!
