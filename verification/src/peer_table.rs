//! Which yamux stream carries the datagrams of which UDP peer. The first
//! datagram from a peer opens a stream; later ones reuse it. Entries are never
//! removed.
use vstd::prelude::*;
use crate::udp_frame::{spec_step, spec_wanted, DatagramReader, ReaderState, UDP_BUF_LEN};

verus! {

/// A UDP peer's socket address, as plain values: equal exactly when the
/// socket addresses are equal (for IPv4 the last two fields are zero).
#[derive(Debug, Clone, Copy, PartialEq, Eq, Structural)]
pub struct PeerAddr {
    pub is_ipv6: bool,
    /// The IP address; an IPv4 address in the low 32 bits.
    pub ip: u128,
    pub port: u16,
    pub flowinfo: u32,
    pub scope_id: u32,
}

/// No address occurs twice among the entries.
pub open spec fn keys_distinct<V>(s: Seq<(PeerAddr, V)>) -> bool {
    forall|i: int, j: int| 0 <= i < j < s.len() ==> #[trigger] s[i].0 != #[trigger] s[j].0
}

/// The map that a list of entries stands for.
pub open spec fn map_of<V>(s: Seq<(PeerAddr, V)>) -> Map<PeerAddr, V>
    decreases s.len(),
{
    if s.len() == 0 {
        Map::empty()
    } else {
        map_of(s.drop_last()).insert(s.last().0, s.last().1)
    }
}

proof fn lemma_map_of_dom<V>(s: Seq<(PeerAddr, V)>, k: PeerAddr)
    ensures
        map_of(s).dom().contains(k) <==> exists|j: int| 0 <= j < s.len() && #[trigger] s[j].0 == k,
    decreases s.len(),
{
    if s.len() > 0 {
        let p = s.drop_last();
        lemma_map_of_dom(p, k);
        if map_of(s).dom().contains(k) && k != s.last().0 {
            let j = choose|j: int| 0 <= j < p.len() && #[trigger] p[j].0 == k;
            assert(s[j].0 == k);
        }
        if exists|j: int| 0 <= j < s.len() && #[trigger] s[j].0 == k {
            let j = choose|j: int| 0 <= j < s.len() && #[trigger] s[j].0 == k;
            if j < s.len() - 1 {
                assert(p[j].0 == k);
            }
        }
    }
}

proof fn lemma_map_of_at<V>(s: Seq<(PeerAddr, V)>, j: int)
    requires
        keys_distinct(s),
        0 <= j < s.len(),
    ensures
        map_of(s).dom().contains(s[j].0),
        map_of(s)[s[j].0] == s[j].1,
    decreases s.len(),
{
    lemma_map_of_dom(s, s[j].0);
    if j < s.len() - 1 {
        let p = s.drop_last();
        assert(p[j] == s[j]);
        assert(keys_distinct(p)) by {
            assert forall|a: int, b: int| 0 <= a < b < p.len() implies #[trigger] p[a].0
                != #[trigger] p[b].0 by {
                assert(p[a] == s[a] && p[b] == s[b]);
            }
        }
        lemma_map_of_at(p, j);
        assert(s[j].0 != s.last().0);
    }
}

proof fn lemma_map_of_update<V>(s: Seq<(PeerAddr, V)>, j: int, v: V)
    requires
        keys_distinct(s),
        0 <= j < s.len(),
    ensures
        keys_distinct(s.update(j, (s[j].0, v))),
        map_of(s.update(j, (s[j].0, v))) == map_of(s).insert(s[j].0, v),
{
    let k = s[j].0;
    let t = s.update(j, (k, v));
    assert(keys_distinct(t)) by {
        assert forall|a: int, b: int| 0 <= a < b < t.len() implies #[trigger] t[a].0
            != #[trigger] t[b].0 by {
            assert(t[a].0 == s[a].0 && t[b].0 == s[b].0);
        }
    }
    assert forall|key: PeerAddr| #[trigger] map_of(t).dom().contains(key) <==> map_of(s).insert(
        k,
        v,
    ).dom().contains(key) by {
        lemma_map_of_dom(t, key);
        lemma_map_of_dom(s, key);
        if exists|i: int| 0 <= i < s.len() && #[trigger] s[i].0 == key {
            let i = choose|i: int| 0 <= i < s.len() && #[trigger] s[i].0 == key;
            assert(t[i].0 == key);
        }
        if exists|i: int| 0 <= i < t.len() && #[trigger] t[i].0 == key {
            let i = choose|i: int| 0 <= i < t.len() && #[trigger] t[i].0 == key;
            assert(s[i].0 == key);
        }
    }
    assert forall|key: PeerAddr| #[trigger] map_of(t).dom().contains(key) implies map_of(t)[key]
        == map_of(s).insert(k, v)[key] by {
        lemma_map_of_dom(t, key);
        let i = choose|i: int| 0 <= i < t.len() && #[trigger] t[i].0 == key;
        lemma_map_of_at(t, i);
        if i != j {
            assert(t[i] == s[i]);
            lemma_map_of_at(s, i);
        }
    }
    assert(map_of(t) =~= map_of(s).insert(k, v));
}

/// Where a datagram from a peer goes.
#[derive(Debug, PartialEq, Eq)]
pub enum Route<'a, V> {
    /// The peer has a stream: write the datagram's frame into it.
    Reuse(&'a V),
    /// The peer has none yet: open one, record it, and write into it.
    Open,
}

/// The streams opened so far, one per peer address.
pub struct PeerTable<V> {
    entries: Vec<(PeerAddr, V)>,
}

impl<V> View for PeerTable<V> {
    type V = Map<PeerAddr, V>;

    closed spec fn view(&self) -> Map<PeerAddr, V> {
        map_of(self.entries@)
    }
}

impl<V> PeerTable<V> {
    #[verifier::type_invariant]
    closed spec fn inv(&self) -> bool {
        keys_distinct(self.entries@)
    }

    /// A table with no peer in it.
    pub fn new() -> (t: Self)
        ensures
            t@ == Map::<PeerAddr, V>::empty(),
    {
        PeerTable { entries: Vec::new() }
    }

    /// The number of peers in the table.
    pub fn len(&self) -> (n: usize)
        ensures
            n == self@.len(),
    {
        proof {
            use_type_invariant(self);
            lemma_map_of_len(self.entries@);
        }
        self.entries.len()
    }

    /// The stream of `addr`, if that peer has one.
    pub fn get(&self, addr: &PeerAddr) -> (r: Option<&V>)
        ensures
            match r {
                Some(v) => self@.contains_key(*addr) && *v == self@[*addr],
                None => !self@.contains_key(*addr),
            },
    {
        proof {
            use_type_invariant(self);
        }
        let mut i: usize = 0;
        while i < self.entries.len()
            invariant
                keys_distinct(self.entries@),
                i <= self.entries@.len(),
                forall|j: int| 0 <= j < i ==> #[trigger] self.entries@[j].0 != *addr,
            decreases self.entries@.len() - i,
        {
            if self.entries[i].0 == *addr {
                proof {
                    lemma_map_of_at(self.entries@, i as int);
                }
                return Some(&self.entries[i].1);
            }
            i = i + 1;
        }
        proof {
            lemma_map_of_dom(self.entries@, *addr);
        }
        None
    }

    /// Decides where a datagram from `addr` goes: the stream recorded for
    /// that peer, or a new one when there is none. The table is not changed.
    pub fn route(&self, addr: &PeerAddr) -> (r: Route<'_, V>)
        ensures
            match r {
                Route::Reuse(v) => self@.contains_key(*addr) && *v == self@[*addr],
                Route::Open => !self@.contains_key(*addr),
            },
    {
        match self.get(addr) {
            Some(v) => Route::Reuse(v),
            None => Route::Open,
        }
    }

    /// What follows an attempt to open a stream for a datagram from `addr`:
    /// a stream that opened is recorded for that peer, and the reading side of
    /// that stream is set up to send only to that peer; when none opened,
    /// nothing is recorded and the datagram is dropped.
    pub fn record_opened(&mut self, addr: PeerAddr, opened: Option<V>) -> (path: Option<
        PeerReturnPath,
    >)
        ensures
            match opened {
                Some(v) => {
                    &&& final(self)@ == old(self)@.insert(addr, v)
                    &&& path matches Some(p) && p.spec_peer() == addr && p.spec_reader()
                        == ReaderState::AwaitingHeader
                },
                None => final(self)@ == old(self)@ && path is None,
            },
    {
        match opened {
            Some(v) => {
                self.insert(addr, v);
                Some(PeerReturnPath { peer: addr, reader: DatagramReader::new() })
            },
            None => None,
        }
    }

    /// Records `value` as the stream of `addr`, replacing the one it had.
    pub fn insert(&mut self, addr: PeerAddr, value: V)
        ensures
            final(self)@ == old(self)@.insert(addr, value),
    {
        proof {
            use_type_invariant(&*self);
        }
        let mut entries: Vec<(PeerAddr, V)> = Vec::new();
        std::mem::swap(&mut entries, &mut self.entries);
        let ghost old_entries = entries@;
        assert(old(self)@ == map_of(old_entries));
        let mut i: usize = 0;
        while i < entries.len()
            invariant
                entries@ == old_entries,
                old(self)@ == map_of(old_entries),
                keys_distinct(old_entries),
                i <= entries@.len(),
                forall|j: int| 0 <= j < i ==> #[trigger] entries@[j].0 != addr,
            decreases entries@.len() - i,
        {
            if entries[i].0 == addr {
                proof {
                    lemma_map_of_update(old_entries, i as int, value);
                }
                entries.set(i, (addr, value));
                assert(entries@ == old_entries.update(i as int, (old_entries[i as int].0, value)));
                self.entries = entries;
                return ;
            }
            i = i + 1;
        }
        proof {
            lemma_map_of_dom(old_entries, addr);
        }
        entries.push((addr, value));
        assert(entries@.drop_last() =~= old_entries);
        assert(keys_distinct(entries@)) by {
            assert forall|a: int, b: int| 0 <= a < b < entries@.len() implies #[trigger] entries@[a].0
                != #[trigger] entries@[b].0 by {
                if b < old_entries.len() {
                    assert(entries@[a] == old_entries[a] && entries@[b] == old_entries[b]);
                } else {
                    assert(entries@[a] == old_entries[a]);
                }
            }
        }
        self.entries = entries;
    }
}

/// The reading side of one peer's stream: the datagrams it reads back go to
/// that peer and to no other.
pub struct PeerReturnPath {
    peer: PeerAddr,
    reader: DatagramReader,
}

impl PeerReturnPath {
    /// The peer this stream belongs to.
    pub closed spec fn spec_peer(&self) -> PeerAddr {
        self.peer
    }

    /// Where the reading of the stream stands.
    pub closed spec fn spec_reader(&self) -> ReaderState {
        self.reader@
    }

    /// The peer this stream belongs to.
    pub fn peer(&self) -> (p: PeerAddr)
        ensures
            p == self.spec_peer(),
    {
        self.peer
    }

    /// The number of bytes to read next from the stream; `None` once done.
    pub fn wanted(&self) -> (n: Option<usize>)
        ensures
            n == spec_wanted(self.spec_reader()),
            n matches Some(k) ==> k <= UDP_BUF_LEN,
    {
        self.reader.wanted()
    }

    /// Takes the bytes that `wanted` asked for; returns the datagram they
    /// complete, if any, addressed to this stream's peer.
    pub fn on_bytes(&mut self, bytes: &[u8]) -> (out: Option<(PeerAddr, Vec<u8>)>)
        requires
            spec_wanted(old(self).spec_reader()) == Some(bytes@.len() as usize),
        ensures
            final(self).spec_peer() == old(self).spec_peer(),
            (final(self).spec_reader(), match out {
                Some((_, d)) => Some(d@),
                None => None::<Seq<u8>>,
            }) == spec_step(old(self).spec_reader(), bytes@),
            out matches Some((to, _)) ==> to == old(self).spec_peer(),
    {
        match self.reader.on_bytes(bytes) {
            Some(d) => Some((self.peer, d)),
            None => None,
        }
    }

    /// Reading from the stream or sending to the peer failed: reading stops.
    pub fn on_failure(&mut self)
        ensures
            final(self).spec_peer() == old(self).spec_peer(),
            final(self).spec_reader() == ReaderState::Finished,
    {
        self.reader.on_failure();
    }
}

proof fn lemma_map_of_len<V>(s: Seq<(PeerAddr, V)>)
    requires
        keys_distinct(s),
    ensures
        map_of(s).len() == s.len(),
        map_of(s).dom().finite(),
    decreases s.len(),
{
    if s.len() > 0 {
        let p = s.drop_last();
        assert(keys_distinct(p)) by {
            assert forall|a: int, b: int| 0 <= a < b < p.len() implies #[trigger] p[a].0
                != #[trigger] p[b].0 by {
                assert(p[a] == s[a] && p[b] == s[b]);
            }
        }
        lemma_map_of_len(p);
        lemma_map_of_dom(p, s.last().0);
        if map_of(p).dom().contains(s.last().0) {
            let j = choose|j: int| 0 <= j < p.len() && #[trigger] p[j].0 == s.last().0;
            assert(s[j].0 == s[s.len() - 1].0);
        }
    }
}

/// Recording a stream for a peer makes it the one found for that peer, and
/// leaves every other peer's stream as it was.
pub proof fn lemma_get_after_insert<V>(before: Map<PeerAddr, V>, addr: PeerAddr, value: V, other: PeerAddr)
    requires
        other != addr,
    ensures
        before.insert(addr, value).contains_key(addr),
        before.insert(addr, value)[addr] == value,
        before.insert(addr, value).contains_key(other) == before.contains_key(other),
        before.contains_key(other) ==> before.insert(addr, value)[other] == before[other],
{
}

} // verus!
