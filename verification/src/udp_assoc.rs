//! UDP association manager: the NAT-like table that gives every source peer
//! exactly one association, under which the surrounding program runs the
//! uplink and downlink tasks of that flow; idle associations expire by the
//! caller's clock.
use crate::addr::{Address, SocketAddress};
use vstd::pervasive::VecAdditionalExecFns;
use vstd::prelude::*;

verus! {

/// One datagram on its way out: the payload and where it must go.
pub struct UdpPacket {
    pub data: Vec<u8>,
    pub dest: Address,
}

/// What the caller must do with a packet after consulting the table.
#[derive(Clone, Copy, PartialEq, Eq, Structural, Debug)]
pub enum SendPacketAction {
    /// The source already has an association: enqueue on its channel.
    Enqueue(u64),
    /// A fresh association was created under this handle: set up its two
    /// tasks, then enqueue.
    CreateAssociation(u64),
}

/// One association: its source peer, the handle of its channel, and the
/// clock value of its last packet, which drives the expiry of idle flows.
#[derive(Clone, Copy, PartialEq, Eq, Structural, Debug)]
pub struct Association {
    pub source: SocketAddress,
    pub handle: u64,
    pub last_seen: u64,
}

/// Whether an association has sat idle past the time to live, judged by the
/// caller's clock.
pub open spec fn assoc_expired(a: Association, now: u64, ttl: u64) -> bool {
    a.last_seen + ttl < now
}

/// The first association of a source, at or after `i`.
pub open spec fn sp_find_assoc(m: Seq<Association>, source: SocketAddress, i: int) -> Option<
    Association,
>
    decreases m.len() - i,
{
    if i < 0 || i >= m.len() {
        None
    } else if m[i].source == source {
        Some(m[i])
    } else {
        sp_find_assoc(m, source, i + 1)
    }
}

/// The association table: each source peer maps to the handle of its one
/// channel; handles are drawn from a counter and never reused.
pub struct UdpAssociationManager {
    pub store: Vec<Association>,
    pub next_id: u64,
}

impl UdpAssociationManager {
    /// At most one entry per source, and every handle below the counter.
    pub open spec fn wf(&self) -> bool {
        &&& forall|i: int, j: int|
            0 <= i < j < self.store@.len() ==> (#[trigger] self.store@[i]).source != (
            #[trigger] self.store@[j]).source
        &&& forall|i: int|
            0 <= i < self.store@.len() ==> (#[trigger] self.store@[i]).handle < self.next_id
    }

    /// Whether a source already has an association.
    pub open spec fn spec_has(&self, source: SocketAddress) -> bool {
        exists|i: int| 0 <= i < self.store@.len() && (#[trigger] self.store@[i]).source == source
    }

    /// An empty table.
    pub fn new() -> (r: UdpAssociationManager)
        ensures
            r.wf(),
            r.store@.len() == 0,
    {
        UdpAssociationManager { store: Vec::new(), next_id: 0 }
    }

    /// The handle of a source's association, if one exists.
    pub fn sender_for(&self, source: SocketAddress) -> (r: Option<u64>)
        requires
            self.wf(),
        ensures
            r is Some <==> self.spec_has(source),
            r matches Some(h) ==> (sp_find_assoc(self.store@, source, 0) matches Some(a)
                && a.handle == h),
    {
        match self.find_index(source) {
            Some(i) => Some(self.store[i].handle),
            None => None,
        }
    }

    /// The index of a source's association.
    fn find_index(&self, source: SocketAddress) -> (r: Option<usize>)
        ensures
            match r {
                Some(i) => i < self.store@.len() && self.store@[i as int].source == source
                    && sp_find_assoc(self.store@, source, 0) == Some(self.store@[i as int]) && (
                forall|j: int| 0 <= j < i ==> (#[trigger] self.store@[j]).source != source),
                None => sp_find_assoc(self.store@, source, 0) is None && !self.spec_has(source),
            },
    {
        let mut i: usize = 0;
        while i < self.store.len()
            invariant
                i <= self.store@.len(),
                forall|j: int| 0 <= j < i ==> (#[trigger] self.store@[j]).source != source,
                sp_find_assoc(self.store@, source, 0) == sp_find_assoc(
                    self.store@,
                    source,
                    i as int,
                ),
            decreases self.store@.len() - i,
        {
            if self.store[i].source == source {
                return Some(i);
            }
            i += 1;
        }
        proof {
            lemma_find_assoc_none(self.store@, source, 0);
        }
        None
    }

    /// Decides what to do with a packet from `source`: an existing
    /// association is reused with its clock refreshed; otherwise exactly one
    /// fresh association is entered into the table, under a fresh handle.
    /// Either way, every slot keeps its source and handle — only the clock
    /// of the touched flow moves.
    pub fn send_packet(&mut self, source: SocketAddress, now: u64) -> (r: SendPacketAction)
        requires
            old(self).wf(),
            old(self).next_id < u64::MAX,
        ensures
            final(self).wf(),
            final(self).spec_has(source),
            match r {
                SendPacketAction::Enqueue(h) => {
                    &&& old(self).spec_has(source)
                    &&& (sp_find_assoc(old(self).store@, source, 0) matches Some(a) && a.handle
                        == h && sp_find_assoc(final(self).store@, source, 0) == Some(
                        Association { last_seen: now, ..a },
                    ))
                    &&& final(self).store@.len() == old(self).store@.len()
                    &&& final(self).next_id == old(self).next_id
                    &&& (forall|j: int|
                        0 <= j < final(self).store@.len() ==> ((
                        #[trigger] final(self).store@[j]).source == old(self).store@[j].source
                            && final(self).store@[j].handle == old(self).store@[j].handle))
                },
                SendPacketAction::CreateAssociation(h) => {
                    &&& !old(self).spec_has(source)
                    &&& h == old(self).next_id
                    &&& final(self).store@ == old(self).store@.push(
                        Association { source, handle: h, last_seen: now },
                    )
                    &&& final(self).next_id == old(self).next_id + 1
                },
            },
    {
        match self.find_index(source) {
            Some(i) => {
                let a = self.store[i];
                self.store.set(i, Association { last_seen: now, ..a });
                proof {
                    assert(self.store@[i as int].source == source);
                    lemma_find_assoc_updated(
                        old(self).store@,
                        self.store@,
                        i as int,
                        now,
                        0,
                    );
                    assert forall|x: int, y: int|
                        0 <= x < y < self.store@.len() implies (
                    #[trigger] self.store@[x]).source != (#[trigger] self.store@[y]).source by {
                        assert(self.store@[x].source == old(self).store@[x].source);
                        assert(self.store@[y].source == old(self).store@[y].source);
                    }
                    assert forall|x: int|
                        0 <= x < self.store@.len() implies (#[trigger] self.store@[x]).handle
                        < self.next_id by {
                        assert(self.store@[x].handle == old(self).store@[x].handle);
                    }
                }
                SendPacketAction::Enqueue(a.handle)
            },
            None => {
                let h = self.next_id;
                self.store.push(Association { source, handle: h, last_seen: now });
                self.next_id = h + 1;
                proof {
                    assert(self.store@[self.store@.len() - 1] == Association {
                        source,
                        handle: h,
                        last_seen: now,
                    });
                }
                SendPacketAction::CreateAssociation(h)
            },
        }
    }

    /// Removes a source's association when its tasks end.
    #[verifier::loop_isolation(false)]
    pub fn remove_association(&mut self, source: SocketAddress)
        requires
            old(self).wf(),
        ensures
            final(self).wf(),
            !final(self).spec_has(source),
            final(self).next_id == old(self).next_id,
            forall|s: SocketAddress|
                s != source ==> (final(self).spec_has(s) <==> old(self).spec_has(s)),
            old(self).spec_has(source) ==> final(self).store@.len() + 1 == old(
                self,
            ).store@.len() && (forall|j: int|
                0 <= j < final(self).store@.len() ==> (#[trigger] final(self).store@[j]) == old(
                    self,
                ).store@[j] || final(self).store@[j] == old(self).store@[j + 1]) && (exists|
                i0: int,
            |
                0 <= i0 < old(self).store@.len() && (#[trigger] old(self).store@[i0]).source
                    == source && final(self).store@ == old(self).store@.remove(i0)),
            !old(self).spec_has(source) ==> *final(self) == *old(self),
    {
        let mut i: usize = 0;
        while i < self.store.len()
            invariant
                i <= self.store@.len(),
                self == old(self),
                forall|j: int| 0 <= j < i ==> (#[trigger] self.store@[j]).source != source,
            decreases self.store@.len() - i,
        {
            if self.store[i].source == source {
                let ghost orig = self.store@;
                self.store.remove(i);
                proof {
                    assert(self.store@ =~= orig.remove(i as int));
                    assert(orig[i as int].source == source && self.store@ == orig.remove(
                        i as int,
                    ));
                    assert forall|j: int|
                        0 <= j < self.store@.len() implies (#[trigger] self.store@[j]) == orig[j]
                        || self.store@[j] == orig[j + 1] by {
                        if j < i {
                            assert(self.store@[j] == orig[j]);
                        } else {
                            assert(self.store@[j] == orig[j + 1]);
                        }
                    }
                    assert forall|j: int|
                        0 <= j < self.store@.len() implies (#[trigger] self.store@[j]).source
                        != source by {
                        if j < i {
                            assert(self.store@[j] == orig[j]);
                        } else {
                            assert(self.store@[j] == orig[j + 1]);
                            assert(old(self).store@[i as int].source != old(self).store@[j
                                + 1].source);
                        }
                    }
                    assert forall|a: int, b: int|
                        0 <= a < b < self.store@.len() implies (#[trigger] self.store@[a]).source
                        != (#[trigger] self.store@[b]).source by {
                        let a2: int = if a < i {
                            a
                        } else {
                            a + 1
                        };
                        let b2: int = if b < i {
                            b
                        } else {
                            b + 1
                        };
                        assert(self.store@[a] == orig[a2] && self.store@[b] == orig[b2]);
                        assert(old(self).store@[a2].source != old(self).store@[b2].source);
                    }
                    assert forall|j: int|
                        0 <= j < self.store@.len() implies (#[trigger] self.store@[j]).handle
                        < self.next_id by {
                        if j < i {
                            assert(self.store@[j] == orig[j]);
                        } else {
                            assert(self.store@[j] == orig[j + 1]);
                        }
                    }
                    assert forall|s: SocketAddress|
                        s != source && old(self).spec_has(s) implies self.spec_has(s) by {
                        let k = choose|k: int| 0 <= k < orig.len() && (#[trigger] orig[k]).source
                            == s;
                        if k < i {
                            assert(self.store@[k] == orig[k]);
                        } else {
                            assert(self.store@[k - 1] == orig[k]);
                        }
                    }
                    assert forall|s: SocketAddress|
                        self.spec_has(s) implies old(self).spec_has(s) by {
                        let j = choose|j: int|
                            0 <= j < self.store@.len() && (#[trigger] self.store@[j]).source == s;
                        if j < i {
                            assert(orig[j].source == s);
                        } else {
                            assert(orig[j + 1].source == s);
                        }
                    }
                }
                return ;
            }
            i += 1;
        }
    }

    /// The first association that has sat idle past the time to live.
    fn find_expired(&self, now: u64, ttl: u64) -> (r: Option<Association>)
        ensures
            match r {
                Some(a) => assoc_expired(a, now, ttl) && (exists|j: int|
                    0 <= j < self.store@.len() && #[trigger] self.store@[j] == a),
                None => forall|j: int|
                    0 <= j < self.store@.len() ==> !assoc_expired(
                        #[trigger] self.store@[j],
                        now,
                        ttl,
                    ),
            },
    {
        let mut i: usize = 0;
        while i < self.store.len()
            invariant
                i <= self.store@.len(),
                forall|j: int| 0 <= j < i ==> !assoc_expired(#[trigger] self.store@[j], now, ttl),
            decreases self.store@.len() - i,
        {
            let a = self.store[i];
            if now > ttl && a.last_seen < now - ttl {
                proof {
                    assert(self.store@[i as int] == a);
                }
                return Some(a);
            }
            proof {
                assert(!assoc_expired(self.store@[i as int], now, ttl));
            }
            i += 1;
        }
        None
    }

    /// Removes every association that has sat idle past the time to live,
    /// judged by the caller's clock: what survives an eviction pass saw a
    /// packet within the window, and nothing new appears.
    pub fn evict_expired(&mut self, now: u64, ttl: u64)
        requires
            old(self).wf(),
        ensures
            final(self).wf(),
            final(self).next_id == old(self).next_id,
            forall|j: int|
                0 <= j < final(self).store@.len() ==> !assoc_expired(
                    #[trigger] final(self).store@[j],
                    now,
                    ttl,
                ),
            forall|a: Association|
                final(self).store@.contains(a) ==> old(self).store@.contains(a),
            forall|a: Association|
                old(self).store@.contains(a) && !assoc_expired(a, now, ttl) ==> final(self).store@.contains(a),
        decreases old(self).store@.len(),
    {
        let victim = match self.find_expired(now, ttl) {
            None => {
                return ;
            },
            Some(a) => a,
        };
        let ghost prev = self.store@;
        self.remove_association(victim.source);
        proof {
            assert(prev.contains(victim));
            assert forall|a: Association| self.store@.contains(a) implies prev.contains(a) by {
                let j = choose|j: int| 0 <= j < self.store@.len() && self.store@[j] == a;
                assert(self.store@[j] == prev[j] || self.store@[j] == prev[j + 1]);
            }
            // only the expired victim left: the removed slot carries its
            // source, and sources are unique
            let i0 = choose|i0: int|
                0 <= i0 < prev.len() && (#[trigger] prev[i0]).source == victim.source
                    && self.store@ == prev.remove(i0);
            let kv = choose|kv: int| 0 <= kv < prev.len() && prev[kv] == victim;
            if i0 != kv {
                assert(prev[i0].source != prev[kv].source);
            }
            assert(prev[i0] == victim);
            assert forall|a: Association|
                prev.contains(a) && !assoc_expired(a, now, ttl) implies self.store@.contains(
                a,
            ) by {
                let k = choose|k: int| 0 <= k < prev.len() && prev[k] == a;
                assert(a != victim);
                if k < i0 {
                    assert(self.store@[k] == a);
                } else {
                    assert(k != i0);
                    assert(self.store@[k - 1] == a);
                }
                assert(self.store@.contains(a));
            }
        }
        self.evict_expired(now, ttl);
    }
}

/// A scan that found no association for the source means none exists.
proof fn lemma_find_assoc_none(m: Seq<Association>, source: SocketAddress, i: int)
    requires
        0 <= i <= m.len(),
        forall|j: int| i <= j < m.len() ==> (#[trigger] m[j]).source != source,
    ensures
        sp_find_assoc(m, source, i) is None,
    decreases m.len() - i,
{
    if i < m.len() {
        lemma_find_assoc_none(m, source, i + 1);
    }
}

/// Refreshing the clock of the first association of a source is what its
/// source then looks up.
proof fn lemma_find_assoc_updated(
    pre: Seq<Association>,
    now: Seq<Association>,
    i: int,
    stamp: u64,
    j: int,
)
    requires
        0 <= j <= i < pre.len(),
        now == pre.update(i, Association { last_seen: stamp, ..pre[i] }),
        forall|k: int| 0 <= k < i ==> (#[trigger] pre[k]).source != pre[i].source,
    ensures
        sp_find_assoc(now, pre[i].source, j) == Some(Association { last_seen: stamp, ..pre[i] }),
    decreases i - j,
{
    if j == i {
        assert(now[j] == Association { last_seen: stamp, ..pre[i] });
    } else {
        assert(now[j] == pre[j]);
        lemma_find_assoc_updated(pre, now, i, stamp, j + 1);
    }
}

/// Association uniqueness: the table never holds two associations for one
/// source — two entries that agree on the source are the same entry.
pub proof fn lemma_association_unique(
    m: UdpAssociationManager,
    source: SocketAddress,
    i: int,
    j: int,
)
    requires
        m.wf(),
        0 <= i < m.store@.len(),
        0 <= j < m.store@.len(),
        m.store@[i].source == source,
        m.store@[j].source == source,
    ensures
        i == j,
{
    if i < j {
        assert(m.store@[i].source != m.store@[j].source);
    } else if j < i {
        assert(m.store@[j].source != m.store@[i].source);
    }
}

} // verus!
