//! TUN TCP NAT: allocates a fake source for every outbound connection, so
//! that kernel routing hands the flow to the local redirect listener, and
//! rewrites replies back; entries are torn down by the TCP close handshake.
use crate::addr::{IpAddress, SocketAddress};
use crate::cipher::random_bytes;
use crate::router::Cidr;
use crate::wire::read_u16_be;
use vstd::prelude::*;
use vstd::pervasive::VecAdditionalExecFns;

verus! {

/// Where a tracked connection stands in its close handshake.
#[derive(Clone, Copy, PartialEq, Eq, Structural, Debug)]
pub enum State {
    Established,
    FinWait,
    LastAck,
}

/// One tracked connection: the real endpoints, the fake source standing in
/// for the client, and the clock value of its last packet, which drives the
/// expiry of idle flows.
#[derive(Clone, Copy, PartialEq, Eq, Structural, Debug)]
pub struct TcpConnection {
    pub src_addr: SocketAddress,
    pub dest_addr: SocketAddress,
    pub fake_addr: SocketAddress,
    pub state: State,
    pub last_seen: u64,
}

/// Whether a flow has sat idle past the time to live, judged by the
/// caller's clock.
pub open spec fn expired(c: TcpConnection, now: u64, ttl: u64) -> bool {
    c.last_seen + ttl < now
}

/// The flags of a TCP header that drive the NAT.
#[derive(Clone, Copy, PartialEq, Eq, Structural, Debug)]
pub struct TcpFlags {
    pub syn: bool,
    pub ack: bool,
    pub fin: bool,
    pub rst: bool,
}

/// A socket address of the IPv4 family.
pub open spec fn sock_v4(sa: SocketAddress) -> bool {
    sa.ip is V4
}

/// A tracked flow whose three addresses are all IPv4.
pub open spec fn conn_v4(c: TcpConnection) -> bool {
    sock_v4(c.src_addr) && sock_v4(c.dest_addr) && sock_v4(c.fake_addr)
}

/// Every tracked flow is IPv4.
pub open spec fn entries_v4(es: Seq<TcpConnection>) -> bool {
    forall|j: int| 0 <= j < es.len() ==> conn_v4(#[trigger] es[j])
}

/// The first tracked flow with the given real endpoints, at or after `i`.
pub open spec fn sp_find_by_pair(
    m: Seq<TcpConnection>,
    src: SocketAddress,
    dest: SocketAddress,
    i: int,
) -> Option<TcpConnection>
    decreases m.len() - i,
{
    if i < 0 || i >= m.len() {
        None
    } else if m[i].src_addr == src && m[i].dest_addr == dest {
        Some(m[i])
    } else {
        sp_find_by_pair(m, src, dest, i + 1)
    }
}

/// The first tracked flow with the given fake address, at or after `i`.
pub open spec fn sp_find_by_fake(m: Seq<TcpConnection>, fake: SocketAddress, i: int) -> Option<
    TcpConnection,
>
    decreases m.len() - i,
{
    if i < 0 || i >= m.len() {
        None
    } else if m[i].fake_addr == fake {
        Some(m[i])
    } else {
        sp_find_by_fake(m, fake, i + 1)
    }
}

/// The NAT table. The `(src, dest) → fake` map and the `fake → connection`
/// map are the two lookup views of this one entry set, so a flow enters and
/// leaves both views together.
pub struct Nat {
    pub entries: Vec<TcpConnection>,
}

impl Nat {
    /// No two flows share their endpoints, and no two share a fake address.
    pub open spec fn wf(&self) -> bool {
        &&& forall|i: int, j: int|
            0 <= i < j < self.entries@.len() ==> !((#[trigger] self.entries@[i]).src_addr == (
            #[trigger] self.entries@[j]).src_addr && self.entries@[i].dest_addr
                == self.entries@[j].dest_addr)
        &&& forall|i: int, j: int|
            0 <= i < j < self.entries@.len() ==> (#[trigger] self.entries@[i]).fake_addr != (
            #[trigger] self.entries@[j]).fake_addr
    }

    /// An empty table.
    pub fn new() -> (r: Nat)
        ensures
            r.wf(),
            r.entries@.len() == 0,
    {
        Nat { entries: Vec::new() }
    }

    /// The tracked flow with the given real endpoints.
    pub fn find_by_pair(&self, src: SocketAddress, dest: SocketAddress) -> (r: Option<
        TcpConnection,
    >)
        ensures
            r == sp_find_by_pair(self.entries@, src, dest, 0),
    {
        let mut i: usize = 0;
        while i < self.entries.len()
            invariant
                i <= self.entries@.len(),
                sp_find_by_pair(self.entries@, src, dest, 0) == sp_find_by_pair(
                    self.entries@,
                    src,
                    dest,
                    i as int,
                ),
            decreases self.entries@.len() - i,
        {
            if self.entries[i].src_addr == src && self.entries[i].dest_addr == dest {
                return Some(self.entries[i]);
            }
            i += 1;
        }
        None
    }

    /// The tracked flow behind a fake address.
    pub fn find_by_fake(&self, fake: SocketAddress) -> (r: Option<TcpConnection>)
        ensures
            r == sp_find_by_fake(self.entries@, fake, 0),
    {
        let mut i: usize = 0;
        while i < self.entries.len()
            invariant
                i <= self.entries@.len(),
                sp_find_by_fake(self.entries@, fake, 0) == sp_find_by_fake(
                    self.entries@,
                    fake,
                    i as int,
                ),
            decreases self.entries@.len() - i,
        {
            if self.entries[i].fake_addr == fake {
                return Some(self.entries[i]);
            }
            i += 1;
        }
        None
    }

    /// The first flow that has sat idle past the time to live, judged by
    /// the caller's clock.
    fn find_expired(&self, now: u64, ttl: u64) -> (r: Option<TcpConnection>)
        ensures
            match r {
                Some(c) => expired(c, now, ttl) && (exists|j: int|
                    0 <= j < self.entries@.len() && #[trigger] self.entries@[j] == c),
                None => forall|j: int|
                    0 <= j < self.entries@.len() ==> !expired(
                        #[trigger] self.entries@[j],
                        now,
                        ttl,
                    ),
            },
    {
        let mut i: usize = 0;
        while i < self.entries.len()
            invariant
                i <= self.entries@.len(),
                forall|j: int| 0 <= j < i ==> !expired(#[trigger] self.entries@[j], now, ttl),
            decreases self.entries@.len() - i,
        {
            let c = self.entries[i];
            if now > ttl && c.last_seen < now - ttl {
                proof {
                    assert(self.entries@[i as int] == c);
                }
                return Some(c);
            }
            proof {
                assert(!expired(self.entries@[i as int], now, ttl));
            }
            i += 1;
        }
        None
    }

    /// Tracks a fresh flow; both lookup views gain it at once.
    fn insert(&mut self, c: TcpConnection)
        requires
            old(self).wf(),
            sp_find_by_pair(old(self).entries@, c.src_addr, c.dest_addr, 0) is None,
            sp_find_by_fake(old(self).entries@, c.fake_addr, 0) is None,
        ensures
            final(self).wf(),
            final(self).entries@ == old(self).entries@.push(c),
    {
        proof {
            lemma_find_by_pair_none(self.entries@, c.src_addr, c.dest_addr, 0);
            lemma_find_by_fake_none(self.entries@, c.fake_addr, 0);
        }
        self.entries.push(c);
    }

    /// Unlearns the flow behind a fake address; both lookup views lose it at
    /// once.
    #[verifier::loop_isolation(false)]
    fn remove_by_fake(&mut self, fake: SocketAddress)
        requires
            old(self).wf(),
        ensures
            final(self).wf(),
            sp_find_by_fake(final(self).entries@, fake, 0) is None,
            match sp_find_by_fake(old(self).entries@, fake, 0) {
                Some(c) => final(self).entries@.len() + 1 == old(self).entries@.len()
                    && sp_find_by_pair(final(self).entries@, c.src_addr, c.dest_addr, 0) is None
                    && (forall|j: int|
                    0 <= j < final(self).entries@.len() ==> (#[trigger] final(self).entries@[j])
                        == old(self).entries@[j] || final(self).entries@[j] == old(self).entries@[j
                        + 1]) && (exists|i0: int|
                    0 <= i0 < old(self).entries@.len() && (#[trigger] old(self).entries@[i0]).fake_addr
                        == fake && final(self).entries@ == old(self).entries@.remove(i0)),
                None => *final(self) == *old(self),
            },
    {
        let mut i: usize = 0;
        while i < self.entries.len()
            invariant
                i <= self.entries@.len(),
                self == old(self),
                forall|j: int| 0 <= j < i ==> (#[trigger] self.entries@[j]).fake_addr != fake,
                sp_find_by_fake(self.entries@, fake, 0) == sp_find_by_fake(
                    self.entries@,
                    fake,
                    i as int,
                ),
            decreases self.entries@.len() - i,
        {
            if self.entries[i].fake_addr == fake {
                let ghost orig = self.entries@;
                let ghost c = self.entries@[i as int];
                self.entries.remove(i);
                proof {
                    assert(self.entries@ =~= orig.remove(i as int));
                    assert(orig[i as int].fake_addr == fake && self.entries@ == orig.remove(
                        i as int,
                    ));
                    lemma_remove_entry(orig, self.entries@, i as int);
                    assert(sp_find_by_fake(self.entries@, fake, 0) is None) by {
                        lemma_find_by_fake_absent(self.entries@, fake, 0);
                    }
                    assert(sp_find_by_pair(self.entries@, c.src_addr, c.dest_addr, 0) is None)
                        by {
                        lemma_find_by_pair_absent(self.entries@, c.src_addr, c.dest_addr, 0);
                    }
                }
                return;
            }
            i += 1;
        }
    }

    /// The index of the flow behind a fake address.
    fn find_index_by_fake(&self, fake: SocketAddress) -> (r: Option<usize>)
        ensures
            match r {
                Some(i) => i < self.entries@.len() && self.entries@[i as int].fake_addr == fake
                    && sp_find_by_fake(self.entries@, fake, 0) == Some(self.entries@[i as int])
                    && (forall|j: int|
                    0 <= j < i ==> (#[trigger] self.entries@[j]).fake_addr != fake),
                None => sp_find_by_fake(self.entries@, fake, 0) is None,
            },
    {
        let mut i: usize = 0;
        while i < self.entries.len()
            invariant
                i <= self.entries@.len(),
                forall|j: int| 0 <= j < i ==> (#[trigger] self.entries@[j]).fake_addr != fake,
                sp_find_by_fake(self.entries@, fake, 0) == sp_find_by_fake(
                    self.entries@,
                    fake,
                    i as int,
                ),
            decreases self.entries@.len() - i,
        {
            if self.entries[i].fake_addr == fake {
                return Some(i);
            }
            i += 1;
        }
        None
    }

    /// Rewrites the close-handshake state of the flow behind a fake address
    /// and refreshes its clock.
    fn set_state(&mut self, fake: SocketAddress, st: State, stamp: u64)
        requires
            old(self).wf(),
        ensures
            final(self).wf(),
            match sp_find_by_fake(old(self).entries@, fake, 0) {
                Some(c) => sp_find_by_fake(final(self).entries@, fake, 0) == Some(
                    TcpConnection { state: st, last_seen: stamp, ..c },
                ) && sp_find_by_pair(final(self).entries@, c.src_addr, c.dest_addr, 0) == Some(
                    TcpConnection { state: st, last_seen: stamp, ..c },
                ) && final(self).entries@.len() == old(self).entries@.len() && (forall|j: int|
                    0 <= j < final(self).entries@.len() ==> ((#[trigger] final(self).entries@[j]).src_addr
                        == old(self).entries@[j].src_addr && final(self).entries@[j].dest_addr
                        == old(self).entries@[j].dest_addr && final(self).entries@[j].fake_addr
                        == old(self).entries@[j].fake_addr)),
                None => *final(self) == *old(self),
            },
    {
        match self.find_index_by_fake(fake) {
            None => {},
            Some(i) => {
                let c = self.entries[i];
                self.entries.set(i, TcpConnection { state: st, last_seen: stamp, ..c });
                proof {
                    lemma_update_state_preserves_wf(old(self).entries@, self.entries@, i as int);
                    lemma_find_updated_at_index(
                        old(self).entries@,
                        self.entries@,
                        i as int,
                        st,
                        stamp,
                    );
                }
            },
        }
    }
}

/// After updating the first index that carries a fake address, both lookup
/// views of that flow yield the updated entry.
proof fn lemma_find_updated_at_index(
    pre: Seq<TcpConnection>,
    now: Seq<TcpConnection>,
    i: int,
    st: State,
    stamp: u64,
)
    requires
        0 <= i < pre.len(),
        now == pre.update(i, TcpConnection { state: st, last_seen: stamp, ..pre[i] }),
        forall|j: int| 0 <= j < i ==> (#[trigger] pre[j]).fake_addr != pre[i].fake_addr,
        forall|a: int, b: int|
            0 <= a < b < pre.len() ==> !((#[trigger] pre[a]).src_addr == (
            #[trigger] pre[b]).src_addr && pre[a].dest_addr == pre[b].dest_addr),
    ensures
        sp_find_by_fake(now, pre[i].fake_addr, 0) == Some(
            TcpConnection { state: st, last_seen: stamp, ..pre[i] },
        ),
        sp_find_by_pair(now, pre[i].src_addr, pre[i].dest_addr, 0) == Some(
            TcpConnection { state: st, last_seen: stamp, ..pre[i] },
        ),
{
    lemma_find_fake_scan(pre, now, i, st, stamp, 0);
    lemma_find_pair_scan(pre, now, i, st, stamp, 0);
}

/// The fake-address scan reaches the updated index first.
proof fn lemma_find_fake_scan(
    pre: Seq<TcpConnection>,
    now: Seq<TcpConnection>,
    i: int,
    st: State,
    stamp: u64,
    j: int,
)
    requires
        0 <= j <= i < pre.len(),
        now == pre.update(i, TcpConnection { state: st, last_seen: stamp, ..pre[i] }),
        forall|k: int| 0 <= k < i ==> (#[trigger] pre[k]).fake_addr != pre[i].fake_addr,
    ensures
        sp_find_by_fake(now, pre[i].fake_addr, j) == Some(
            TcpConnection { state: st, last_seen: stamp, ..pre[i] },
        ),
    decreases i - j,
{
    if j == i {
        assert(now[j] == TcpConnection { state: st, last_seen: stamp, ..pre[i] });
    } else {
        assert(now[j] == pre[j]);
        lemma_find_fake_scan(pre, now, i, st, stamp, j + 1);
    }
}

/// The endpoint scan reaches the updated index first, because endpoints are
/// unique.
proof fn lemma_find_pair_scan(
    pre: Seq<TcpConnection>,
    now: Seq<TcpConnection>,
    i: int,
    st: State,
    stamp: u64,
    j: int,
)
    requires
        0 <= j <= i < pre.len(),
        now == pre.update(i, TcpConnection { state: st, last_seen: stamp, ..pre[i] }),
        forall|a: int, b: int|
            0 <= a < b < pre.len() ==> !((#[trigger] pre[a]).src_addr == (
            #[trigger] pre[b]).src_addr && pre[a].dest_addr == pre[b].dest_addr),
    ensures
        sp_find_by_pair(now, pre[i].src_addr, pre[i].dest_addr, j) == Some(
            TcpConnection { state: st, last_seen: stamp, ..pre[i] },
        ),
    decreases i - j,
{
    if j == i {
        assert(now[j] == TcpConnection { state: st, last_seen: stamp, ..pre[i] });
    } else {
        assert(now[j] == pre[j]);
        assert(!(pre[j].src_addr == pre[i].src_addr && pre[j].dest_addr == pre[i].dest_addr));
        lemma_find_pair_scan(pre, now, i, st, stamp, j + 1);
    }
}

/// Updating one entry's state alone keeps both uniqueness conditions.
proof fn lemma_update_state_preserves_wf(pre: Seq<TcpConnection>, now: Seq<TcpConnection>, i: int)
    requires
        0 <= i < pre.len(),
        now.len() == pre.len(),
        forall|k: int|
            0 <= k < pre.len() && k != i ==> #[trigger] now[k] == pre[k],
        now[i].src_addr == pre[i].src_addr,
        now[i].dest_addr == pre[i].dest_addr,
        now[i].fake_addr == pre[i].fake_addr,
        forall|a: int, b: int|
            0 <= a < b < pre.len() ==> !((#[trigger] pre[a]).src_addr == (
            #[trigger] pre[b]).src_addr && pre[a].dest_addr == pre[b].dest_addr),
        forall|a: int, b: int|
            0 <= a < b < pre.len() ==> (#[trigger] pre[a]).fake_addr != (
            #[trigger] pre[b]).fake_addr,
    ensures
        forall|a: int, b: int|
            0 <= a < b < now.len() ==> !((#[trigger] now[a]).src_addr == (
            #[trigger] now[b]).src_addr && now[a].dest_addr == now[b].dest_addr),
        forall|a: int, b: int|
            0 <= a < b < now.len() ==> (#[trigger] now[a]).fake_addr != (
            #[trigger] now[b]).fake_addr,
{
    assert forall|a: int, b: int|
        0 <= a < b < now.len() implies !((#[trigger] now[a]).src_addr == (
    #[trigger] now[b]).src_addr && now[a].dest_addr == now[b].dest_addr) by {
        assert(now[a].src_addr == pre[a].src_addr && now[a].dest_addr == pre[a].dest_addr);
        assert(now[b].src_addr == pre[b].src_addr && now[b].dest_addr == pre[b].dest_addr);
    }
    assert forall|a: int, b: int|
        0 <= a < b < now.len() implies (#[trigger] now[a]).fake_addr != (
    #[trigger] now[b]).fake_addr by {
        assert(now[a].fake_addr == pre[a].fake_addr);
        assert(now[b].fake_addr == pre[b].fake_addr);
    }
}

/// A `None` lookup by endpoints means no entry carries them.
proof fn lemma_find_by_pair_none(
    m: Seq<TcpConnection>,
    src: SocketAddress,
    dest: SocketAddress,
    i: int,
)
    requires
        0 <= i <= m.len(),
        sp_find_by_pair(m, src, dest, i) is None,
    ensures
        forall|j: int|
            i <= j < m.len() ==> !((#[trigger] m[j]).src_addr == src && m[j].dest_addr == dest),
    decreases m.len() - i,
{
    if i < m.len() {
        lemma_find_by_pair_none(m, src, dest, i + 1);
    }
}

/// A `None` lookup by fake address means no entry carries it.
proof fn lemma_find_by_fake_none(m: Seq<TcpConnection>, fake: SocketAddress, i: int)
    requires
        0 <= i <= m.len(),
        sp_find_by_fake(m, fake, i) is None,
    ensures
        forall|j: int| i <= j < m.len() ==> (#[trigger] m[j]).fake_addr != fake,
    decreases m.len() - i,
{
    if i < m.len() {
        lemma_find_by_fake_none(m, fake, i + 1);
    }
}

/// When no entry carries the fake address, the lookup is `None`.
proof fn lemma_find_by_fake_absent(m: Seq<TcpConnection>, fake: SocketAddress, i: int)
    requires
        0 <= i <= m.len(),
        forall|j: int| i <= j < m.len() ==> (#[trigger] m[j]).fake_addr != fake,
    ensures
        sp_find_by_fake(m, fake, i) is None,
    decreases m.len() - i,
{
    if i < m.len() {
        lemma_find_by_fake_absent(m, fake, i + 1);
    }
}

/// When no entry carries the endpoints, the lookup is `None`.
proof fn lemma_find_by_pair_absent(
    m: Seq<TcpConnection>,
    src: SocketAddress,
    dest: SocketAddress,
    i: int,
)
    requires
        0 <= i <= m.len(),
        forall|j: int|
            i <= j < m.len() ==> !((#[trigger] m[j]).src_addr == src && m[j].dest_addr == dest),
    ensures
        sp_find_by_pair(m, src, dest, i) is None,
    decreases m.len() - i,
{
    if i < m.len() {
        lemma_find_by_pair_absent(m, src, dest, i + 1);
    }
}

/// Removing index `i` keeps uniqueness and membership of the others.
proof fn lemma_remove_entry(orig: Seq<TcpConnection>, now: Seq<TcpConnection>, i: int)
    requires
        0 <= i < orig.len(),
        now == orig.remove(i),
        forall|a: int, b: int|
            0 <= a < b < orig.len() ==> !((#[trigger] orig[a]).src_addr == (
            #[trigger] orig[b]).src_addr && orig[a].dest_addr == orig[b].dest_addr),
        forall|a: int, b: int|
            0 <= a < b < orig.len() ==> (#[trigger] orig[a]).fake_addr != (
            #[trigger] orig[b]).fake_addr,
    ensures
        forall|a: int, b: int|
            0 <= a < b < now.len() ==> !((#[trigger] now[a]).src_addr == (
            #[trigger] now[b]).src_addr && now[a].dest_addr == now[b].dest_addr),
        forall|a: int, b: int|
            0 <= a < b < now.len() ==> (#[trigger] now[a]).fake_addr != (
            #[trigger] now[b]).fake_addr,
        forall|j: int| 0 <= j < now.len() ==> #[trigger] now[j] != orig[i],
        forall|j: int|
            0 <= j < now.len() ==> (#[trigger] now[j]) == orig[j] || now[j] == orig[j + 1],
        forall|d: TcpConnection| now.contains(d) <==> (orig.contains(d) && d != orig[i]),
{
    assert forall|j: int|
        0 <= j < now.len() implies (#[trigger] now[j]) == orig[j] || now[j] == orig[j + 1] by {
        if j < i {
            assert(now[j] == orig[j]);
        } else {
            assert(now[j] == orig[j + 1]);
        }
    }
    assert forall|a: int, b: int|
        0 <= a < b < now.len() implies !((#[trigger] now[a]).src_addr == (
    #[trigger] now[b]).src_addr && now[a].dest_addr == now[b].dest_addr) by {
        let a2: int = if a < i {
            a
        } else {
            a + 1
        };
        let b2: int = if b < i {
            b
        } else {
            b + 1
        };
        assert(now[a] == orig[a2] && now[b] == orig[b2]);
    }
    assert forall|a: int, b: int|
        0 <= a < b < now.len() implies (#[trigger] now[a]).fake_addr != (
    #[trigger] now[b]).fake_addr by {
        let a2: int = if a < i {
            a
        } else {
            a + 1
        };
        let b2: int = if b < i {
            b
        } else {
            b + 1
        };
        assert(now[a] == orig[a2] && now[b] == orig[b2]);
    }
    assert forall|j: int| 0 <= j < now.len() implies #[trigger] now[j] != orig[i] by {
        if j < i {
            assert(now[j] == orig[j]);
            assert(!(orig[j].fake_addr == orig[i].fake_addr));
        } else {
            assert(now[j] == orig[j + 1]);
            assert(!(orig[i].fake_addr == orig[j + 1].fake_addr));
        }
    }
    assert forall|d: TcpConnection| now.contains(d) <==> (orig.contains(d) && d != orig[i]) by {
        if now.contains(d) {
            let j = choose|j: int| 0 <= j < now.len() && now[j] == d;
            let j2: int = if j < i {
                j
            } else {
                j + 1
            };
            assert(orig[j2] == d);
        }
        if orig.contains(d) && d != orig[i] {
            let j = choose|j: int| 0 <= j < orig.len() && orig[j] == d;
            if j < i {
                assert(now[j] == d);
            } else {
                assert(now[j - 1] == d);
            }
            assert(now.contains(d));
        }
    }
}





/// Whether the flags together with the flow's state tear the flow down: a
/// reset, or the final acknowledgement of the close handshake.
pub open spec fn teardown_applies(flags: TcpFlags, c: TcpConnection) -> bool {
    flags.rst || (flags.ack && c.state is LastAck)
}

/// The close-handshake state after a packet: a FIN advances
/// `Established → FinWait → LastAck`, anything else leaves it.
pub open spec fn advanced_state(flags: TcpFlags, s: State) -> State {
    if flags.fin {
        match s {
            State::Established => State::FinWait,
            State::FinWait => State::LastAck,
            State::LastAck => State::LastAck,
        }
    } else {
        s
    }
}

/// How the NAT rewrites an outbound packet of a tracked flow: the fake
/// source, aimed at the redirect listener.
pub open spec fn outbound_rewrite(c: TcpConnection, listener: SocketAddress) -> (
    SocketAddress,
    SocketAddress,
) {
    (c.fake_addr, listener)
}

/// How the NAT rewrites the listener's reply to a tracked flow: from the
/// real destination, back to the real source.
pub open spec fn reply_rewrite(c: TcpConnection) -> (SocketAddress, SocketAddress) {
    (c.dest_addr, c.src_addr)
}

/// How many fake sources a TUN network of the given prefix yields: all its
/// hosts but the listener, capped at ten.
pub open spec fn spec_pool_len(prefix: u8) -> int {
    if prefix <= 28 {
        10
    } else if prefix == 29 {
        5
    } else {
        1
    }
}

/// A tracked flow after one of its packets: the close handshake advanced by
/// the flags, and the last-seen clock refreshed.
pub open spec fn touched(c: TcpConnection, flags: TcpFlags, now: u64) -> TcpConnection {
    TcpConnection { state: advanced_state(flags, c.state), last_seen: now, ..c }
}

/// Where one tracked flow stands after the teardown rules of a packet:
/// gone from both lookup views, or present in both with its close handshake
/// advanced and its clock refreshed.
pub open spec fn flow_after(post: TcpTun, c: TcpConnection, flags: TcpFlags, now: u64) -> bool {
    if teardown_applies(flags, c) {
        sp_find_by_fake(post.nat.entries@, c.fake_addr, 0) is None && sp_find_by_pair(
            post.nat.entries@,
            c.src_addr,
            c.dest_addr,
            0,
        ) is None
    } else {
        sp_find_by_fake(post.nat.entries@, c.fake_addr, 0) == Some(touched(c, flags, now))
            && sp_find_by_pair(post.nat.entries@, c.src_addr, c.dest_addr, 0) == Some(
            touched(c, flags, now),
        )
    }
}

/// What one NAT step does for a packet between `src_addr` and `dest_addr`
/// with `flags`: which rewrite comes back, and how both lookup views change
/// from `pre` to `post`. A tracked pair is rewritten onto its fake source; a
/// fresh SYN either allocates an untracked fake from the pool with a
/// non-privileged port and tracks the flow, or changes nothing when no fake
/// could be drawn; a packet aimed at a tracked fake is the listener's reply
/// and is rewritten back; anything else is dropped untouched.
pub open spec fn handle_packet_post(
    pre: TcpTun,
    post: TcpTun,
    src_addr: SocketAddress,
    dest_addr: SocketAddress,
    flags: TcpFlags,
    now: u64,
    r: Option<(SocketAddress, SocketAddress)>,
) -> bool {
    let es = pre.nat.entries@;
    match sp_find_by_pair(es, src_addr, dest_addr, 0) {
        Some(c) => r == Some(outbound_rewrite(c, pre.listener_addr)) && flow_after(
            post,
            c,
            flags,
            now,
        ),
        None => {
            &&& (flags.syn && !flags.ack && r is None ==> post == pre)
            &&& (flags.syn && !flags.ack && r is Some ==> (r matches Some((fake, listener))
                && listener == pre.listener_addr && sp_find_by_fake(es, fake, 0) is None && 1024
                <= fake.port <= 65535 && (exists|i: int|
                0 <= i < pre.free_address@.len() && fake.ip == #[trigger] pre.free_address@[i])
                && flow_after(
                post,
                TcpConnection {
                    src_addr,
                    dest_addr,
                    fake_addr: fake,
                    state: State::Established,
                    last_seen: now,
                },
                flags,
                now,
            )))
            &&& (!(flags.syn && !flags.ack) ==> match sp_find_by_fake(es, dest_addr, 0) {
                Some(c) => r == Some(reply_rewrite(c)) && flow_after(post, c, flags, now),
                None => r is None && post == pre,
            })
        },
    }
}

/// The packet-rewriting half of the TUN: the fake source pool, the NAT
/// table, and the redirect listener's address.
pub struct TcpTun {
    pub free_address: Vec<IpAddress>,
    pub nat: Nat,
    pub listener_addr: SocketAddress,
}

impl TcpTun {
    /// A usable TUN: a sound NAT and a non-empty fake pool.
    pub open spec fn wf(&self) -> bool {
        self.nat.wf() && self.free_address@.len() > 0
    }

    /// Every address the NAT can hand back is IPv4: the listener, the fake
    /// pool, and all tracked flows.
    pub open spec fn v4_only(&self) -> bool {
        sock_v4(self.listener_addr) && (forall|i: int|
            0 <= i < self.free_address@.len() ==> (#[trigger] self.free_address@[i]) is V4)
            && entries_v4(self.nat.entries@)
    }

    /// Splits a TUN network into the redirect listener's host and the fake
    /// source pool: the first host serves the listener, up to ten more make
    /// the pool.
    pub fn plan_addresses(net: Cidr) -> (r: Option<(IpAddress, Vec<IpAddress>)>)
        ensures
            r is Some <==> (net.prefix <= 30 && net.base + 1 + spec_pool_len(net.prefix)
                <= u32::MAX),
            r matches Some((listener, pool)) ==> {
                &&& listener == IpAddress::V4((net.base + 1) as u32)
                &&& pool@.len() == spec_pool_len(net.prefix)
                &&& 1 <= pool@.len() <= 10
                &&& forall|k: int|
                    0 <= k < pool@.len() ==> #[trigger] pool@[k] == IpAddress::V4(
                        (net.base + 2 + k) as u32,
                    )
            },
    {
        if net.prefix > 30 {
            return None;
        }
        let sh: u64 = 32 - (net.prefix as u64);
        let size: u64 = 1u64 << sh;
        proof {
            assert(4 <= 1u64 << sh && 1u64 << sh <= 0x1_0000_0000u64 && (sh >= 5 ==> 1u64 << sh
                >= 32) && (sh == 3 ==> 1u64 << sh == 8) && (sh == 4 ==> 1u64 << sh == 16) && (sh
                == 2 ==> 1u64 << sh == 4)) by (bit_vector)
                requires
                    2 <= sh <= 32,
            ;
        }
        let hosts: u64 = size - 2;
        let pool_len: u64 = if hosts - 1 < 10 {
            hosts - 1
        } else {
            10
        };
        proof {
            assert(pool_len == spec_pool_len(net.prefix));
        }
        let base = net.base;
        if (base as u64) + 1 + pool_len > u32::MAX as u64 {
            return None;
        }
        let listener = IpAddress::V4(base + 1);
        let mut pool: Vec<IpAddress> = Vec::new();
        let mut k: u64 = 0;
        while k < pool_len
            invariant
                k <= pool_len,
                pool_len <= 10,
                base + 1 + pool_len <= u32::MAX,
                pool@.len() == k,
                forall|j: int|
                    0 <= j < k ==> #[trigger] pool@[j] == IpAddress::V4((base + 2 + j) as u32),
            decreases pool_len - k,
        {
            pool.push(IpAddress::V4(base + 2 + (k as u32)));
            k += 1;
        }
        Some((listener, pool))
    }

    /// A TUN over a listener address and a fake pool, with nothing tracked.
    pub fn new(listener_addr: SocketAddress, free_address: Vec<IpAddress>) -> (r: TcpTun)
        requires
            free_address@.len() > 0,
        ensures
            r.wf(),
            r.listener_addr == listener_addr,
            r.free_address == free_address,
            r.nat.entries@.len() == 0,
    {
        TcpTun { free_address, nat: Nat::new(), listener_addr }
    }

    /// Unlearns every flow that has sat idle past the time to live, judged
    /// by the caller's clock: what survives an eviction pass saw a packet
    /// within the window, and nothing new appears.
    pub fn evict_expired(&mut self, now: u64, ttl: u64)
        requires
            old(self).wf(),
        ensures
            final(self).wf(),
            final(self).listener_addr == old(self).listener_addr,
            final(self).free_address == old(self).free_address,
            forall|j: int|
                0 <= j < final(self).nat.entries@.len() ==> !expired(
                    #[trigger] final(self).nat.entries@[j],
                    now,
                    ttl,
                ),
            forall|c: TcpConnection|
                final(self).nat.entries@.contains(c) ==> old(self).nat.entries@.contains(c),
            forall|c: TcpConnection|
                old(self).nat.entries@.contains(c) && !expired(c, now, ttl) ==> final(self).nat.entries@.contains(c),
            old(self).v4_only() ==> final(self).v4_only(),
        decreases old(self).nat.entries@.len(),
    {
        let victim = match self.nat.find_expired(now, ttl) {
            None => {
                return ;
            },
            Some(c) => c,
        };
        proof {
            lemma_find_by_fake_of_member(self.nat.entries@, victim, 0);
        }
        let ghost prev = self.nat.entries@;
        self.nat.remove_by_fake(victim.fake_addr);
        proof {
            assert forall|c: TcpConnection|
                self.nat.entries@.contains(c) implies prev.contains(c) by {
                let j = choose|j: int|
                    0 <= j < self.nat.entries@.len() && self.nat.entries@[j] == c;
                assert(self.nat.entries@[j] == prev[j] || self.nat.entries@[j] == prev[j + 1]);
            }
            // only the expired victim left: the removed slot carries its
            // fake address, and fakes are unique
            let i0 = choose|i0: int|
                0 <= i0 < prev.len() && (#[trigger] prev[i0]).fake_addr == victim.fake_addr
                    && self.nat.entries@ == prev.remove(i0);
            let kv = choose|kv: int| 0 <= kv < prev.len() && prev[kv] == victim;
            if i0 != kv {
                assert(prev[i0].fake_addr != prev[kv].fake_addr);
            }
            assert(prev[i0] == victim);
            assert forall|c: TcpConnection|
                prev.contains(c) && !expired(c, now, ttl) implies self.nat.entries@.contains(
                c,
            ) by {
                let k = choose|k: int| 0 <= k < prev.len() && prev[k] == c;
                assert(c != victim);
                if k < i0 {
                    assert(self.nat.entries@[k] == c);
                } else {
                    assert(k != i0);
                    assert(self.nat.entries@[k - 1] == c);
                }
                assert(self.nat.entries@.contains(c));
            }
            if entries_v4(prev) {
                assert forall|j: int|
                    0 <= j < self.nat.entries@.len() implies conn_v4(
                    #[trigger] self.nat.entries@[j],
                ) by {
                    assert(self.nat.entries@[j] == prev[j] || self.nat.entries@[j] == prev[j
                        + 1]);
                }
            }
        }
        self.evict_expired(now, ttl);
    }

    /// Draws random fake candidates until one is untracked, within a
    /// bounded number of attempts.
    fn alloc_fake(&self) -> (r: Option<SocketAddress>)
        requires
            self.wf(),
        ensures
            r matches Some(f) ==> sp_find_by_fake(self.nat.entries@, f, 0) is None && 1024
                <= f.port <= 65535 && (exists|i: int|
                0 <= i < self.free_address@.len() && f.ip == #[trigger] self.free_address@[i]),
    {
        let mut attempts: usize = 0;
        while attempts < 100
            invariant
                self.wf(),
            decreases 100 - attempts,
        {
            let rb = random_bytes(4);
            let idx_roll = read_u16_be(rb.as_slice(), 0) as usize;
            let port_roll = read_u16_be(rb.as_slice(), 2);
            let idx = idx_roll % self.free_address.len();
            let port = port_roll % (65535 - 1024) + 1024;
            let candidate = SocketAddress { ip: self.free_address[idx], port };
            match self.nat.find_by_fake(candidate) {
                None => {
                    proof {
                        assert(candidate.ip == self.free_address@[idx as int]);
                    }
                    return Some(candidate);
                },
                Some(_) => {},
            }
            attempts += 1;
        }
        None
    }

    /// Handles one TCP packet between `src` and `dest`.
    ///
    /// A SYN without ACK for an untracked pair allocates a fake source and
    /// tracks the flow. A packet of a tracked pair is rewritten onto its
    /// fake source, aimed at the redirect listener; a packet aimed at a fake
    /// address is the listener's reply and is rewritten back onto the real
    /// endpoints; anything else is dropped. A reset, or the final ACK of the
    /// close handshake, unlearns the flow from both lookup views at once; a
    /// FIN advances the close handshake.
    pub fn handle_packet(
        &mut self,
        src_addr: SocketAddress,
        dest_addr: SocketAddress,
        flags: TcpFlags,
        now: u64,
    ) -> (r: Option<(SocketAddress, SocketAddress)>)
        requires
            old(self).wf(),
        ensures
            final(self).wf(),
            final(self).listener_addr == old(self).listener_addr,
            final(self).free_address == old(self).free_address,
            handle_packet_post(*old(self), *final(self), src_addr, dest_addr, flags, now, r),
            old(self).v4_only() && src_addr.ip is V4 && dest_addr.ip is V4 ==> final(self).v4_only(),
    {
        let existing = self.nat.find_by_pair(src_addr, dest_addr);
        let connection: TcpConnection = match existing {
            Some(c) => c,
            None => {
                if flags.syn && !flags.ack {
                    let fake = match self.alloc_fake() {
                        Some(f) => f,
                        None => {
                            return None;
                        },
                    };
                    let c = TcpConnection {
                        src_addr,
                        dest_addr,
                        fake_addr: fake,
                        state: State::Established,
                        last_seen: now,
                    };
                    self.nat.insert(c);
                    proof {
                        lemma_find_pushed_fake(old(self).nat.entries@, c);
                        lemma_find_pushed_pair(old(self).nat.entries@, c, 0);
                        if old(self).v4_only() && src_addr.ip is V4 && dest_addr.ip is V4 {
                            let i = choose|i: int|
                                0 <= i < self.free_address@.len() && fake.ip == #[trigger] self.free_address@[i];
                            assert(sock_v4(fake));
                            assert forall|j: int|
                                0 <= j < self.nat.entries@.len() implies conn_v4(
                                #[trigger] self.nat.entries@[j],
                            ) by {
                                if j < old(self).nat.entries@.len() {
                                    assert(conn_v4(old(self).nat.entries@[j]));
                                } else {
                                    assert(self.nat.entries@[j] == c);
                                }
                            }
                            assert(entries_v4(self.nat.entries@));
                        }
                    }
                    c
                } else {
                    match self.nat.find_by_fake(dest_addr) {
                        Some(c) => {
                            let reply = (c.dest_addr, c.src_addr);
                            proof {
                                lemma_find_by_fake_props(self.nat.entries@, dest_addr, 0);
                            }
                            self.apply_teardown(flags, c, now);
                            return Some(reply);
                        },
                        None => {
                            return None;
                        },
                    }
                }
            },
        };
        let rewritten = (connection.fake_addr, self.listener_addr);
        proof {
            if sp_find_by_pair(old(self).nat.entries@, src_addr, dest_addr, 0) is Some {
                lemma_find_by_pair_props(self.nat.entries@, src_addr, dest_addr, 0);
                lemma_find_by_fake_of_member(self.nat.entries@, connection, 0);
            }
        }
        self.apply_teardown(flags, connection, now);
        Some(rewritten)
    }

    /// Applies the teardown rules to a tracked flow and refreshes its
    /// clock.
    #[verifier::rlimit(100)]
    fn apply_teardown(&mut self, flags: TcpFlags, c: TcpConnection, now: u64)
        requires
            old(self).wf(),
            sp_find_by_fake(old(self).nat.entries@, c.fake_addr, 0) == Some(c),
        ensures
            final(self).wf(),
            final(self).listener_addr == old(self).listener_addr,
            final(self).free_address == old(self).free_address,
            flow_after(*final(self), c, flags, now),
            entries_v4(old(self).nat.entries@) ==> entries_v4(final(self).nat.entries@),
    {
        if flags.rst || (flags.ack && matches!(c.state, State::LastAck)) {
            self.nat.remove_by_fake(c.fake_addr);
            proof {
                if entries_v4(old(self).nat.entries@) {
                    assert forall|j: int|
                        0 <= j < self.nat.entries@.len() implies conn_v4(
                        #[trigger] self.nat.entries@[j],
                    ) by {
                        assert(self.nat.entries@[j] == old(self).nat.entries@[j]
                            || self.nat.entries@[j] == old(self).nat.entries@[j + 1]);
                    }
                }
            }
        } else {
            let next = match c.state {
                State::Established => {
                    if flags.fin {
                        State::FinWait
                    } else {
                        State::Established
                    }
                },
                State::FinWait => {
                    if flags.fin {
                        State::LastAck
                    } else {
                        State::FinWait
                    }
                },
                State::LastAck => State::LastAck,
            };
            self.nat.set_state(c.fake_addr, next, now);
            proof {
                if entries_v4(old(self).nat.entries@) {
                    assert forall|j: int|
                        0 <= j < self.nat.entries@.len() implies conn_v4(
                        #[trigger] self.nat.entries@[j],
                    ) by {
                        assert(conn_v4(old(self).nat.entries@[j]));
                    }
                }
            }
        }
    }
}

/// A freshly pushed flow is what its fake address looks up.
proof fn lemma_find_pushed_fake(pre: Seq<TcpConnection>, c: TcpConnection)
    requires
        sp_find_by_fake(pre, c.fake_addr, 0) is None,
    ensures
        sp_find_by_fake(pre.push(c), c.fake_addr, 0) == Some(c),
    decreases pre.len(),
{
    lemma_find_by_fake_push_step(pre, c, 0);
}

/// Pushing an element resolves a previously missing fake lookup to it.
proof fn lemma_find_by_fake_push_step(pre: Seq<TcpConnection>, c: TcpConnection, i: int)
    requires
        0 <= i <= pre.len(),
        sp_find_by_fake(pre, c.fake_addr, i) is None,
    ensures
        sp_find_by_fake(pre.push(c), c.fake_addr, i) == Some(c),
    decreases pre.len() - i,
{
    if i < pre.len() {
        assert(pre.push(c)[i] == pre[i]);
        lemma_find_by_fake_push_step(pre, c, i + 1);
    } else {
        assert(pre.push(c)[i] == c);
    }
}



/// What a lookup returns is an entry carrying the looked-up key.
pub proof fn lemma_find_by_fake_props(m: Seq<TcpConnection>, fake: SocketAddress, i: int)
    requires
        0 <= i <= m.len(),
    ensures
        match sp_find_by_fake(m, fake, i) {
            Some(c) => c.fake_addr == fake && exists|j: int| i <= j < m.len() && m[j] == c,
            None => true,
        },
    decreases m.len() - i,
{
    if i < m.len() && m[i].fake_addr != fake {
        lemma_find_by_fake_props(m, fake, i + 1);
    }
}

/// What a pair lookup returns is an entry carrying the looked-up endpoints.
pub proof fn lemma_find_by_pair_props(
    m: Seq<TcpConnection>,
    src: SocketAddress,
    dest: SocketAddress,
    i: int,
)
    requires
        0 <= i <= m.len(),
    ensures
        match sp_find_by_pair(m, src, dest, i) {
            Some(c) => c.src_addr == src && c.dest_addr == dest && exists|j: int|
                i <= j < m.len() && m[j] == c,
            None => true,
        },
    decreases m.len() - i,
{
    if i < m.len() && !(m[i].src_addr == src && m[i].dest_addr == dest) {
        lemma_find_by_pair_props(m, src, dest, i + 1);
    }
}

/// Under unique fake addresses, looking up a member's fake address finds
/// exactly that member.
proof fn lemma_find_by_fake_of_member(m: Seq<TcpConnection>, c: TcpConnection, i: int)
    requires
        0 <= i <= m.len(),
        forall|a: int, b: int|
            0 <= a < b < m.len() ==> (#[trigger] m[a]).fake_addr != (#[trigger] m[b]).fake_addr,
        exists|j: int| i <= j < m.len() && m[j] == c,
    ensures
        sp_find_by_fake(m, c.fake_addr, i) == Some(c),
    decreases m.len() - i,
{
    let j0 = choose|j: int| i <= j < m.len() && m[j] == c;
    if m[i].fake_addr == c.fake_addr {
        if i != j0 {
            assert(m[i].fake_addr != m[j0].fake_addr);
        }
        assert(m[i] == c);
    } else {
        assert(i != j0);
        lemma_find_by_fake_of_member(m, c, i + 1);
    }
}

/// A freshly pushed flow is what its endpoints look up.
proof fn lemma_find_pushed_pair(pre: Seq<TcpConnection>, c: TcpConnection, i: int)
    requires
        0 <= i <= pre.len(),
        sp_find_by_pair(pre, c.src_addr, c.dest_addr, i) is None,
    ensures
        sp_find_by_pair(pre.push(c), c.src_addr, c.dest_addr, i) == Some(c),
    decreases pre.len() - i,
{
    if i < pre.len() {
        assert(pre.push(c)[i] == pre[i]);
        lemma_find_pushed_pair(pre, c, i + 1);
    } else {
        assert(pre.push(c)[i] == c);
    }
}

/// TUN NAT symmetry: for every tracked flow, the outbound rewrite and the
/// reply rewrite compose to the identity at both endpoints — the client's
/// packet to `(src, dest)` leaves as `(fake, listener)`, and the reply aimed
/// at the fake address returns as `(dest, src)`, exactly the mirror of what
/// the client sent.
pub proof fn lemma_nat_rewrite_symmetry(c: TcpConnection, listener: SocketAddress)
    ensures
        outbound_rewrite(c, listener) == (c.fake_addr, listener),
        reply_rewrite(c) == (c.dest_addr, c.src_addr),
        (reply_rewrite(c).1, reply_rewrite(c).0) == (c.src_addr, c.dest_addr),
{
}

} // verus!
