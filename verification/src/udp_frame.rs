//! How UDP datagrams travel through a yamux stream: each datagram is sent as
//! a four-byte big-endian length followed by the datagram's bytes.
use vstd::prelude::*;

verus! {

/// Number of bytes in the length header that precedes each datagram.
pub const UDP_BYTES_LEN: usize = 4;

/// Size of the buffers that datagrams are received into.
pub const UDP_BUF_LEN: usize = 65536;

/// Longest datagram the receiving side takes in: the buffer minus the room
/// kept in front of it for the header.
pub const MAX_DATAGRAM_LEN: usize = 65532;

/// The value of the four bytes `b0 b1 b2 b3` read most significant first.
pub open spec fn be_value(b0: u8, b1: u8, b2: u8, b3: u8) -> int {
    b0 * 0x100_0000 + b1 * 0x1_0000 + b2 * 0x100 + b3
}

/// The four bytes of `n`, most significant first.
pub open spec fn be_bytes(n: u32) -> Seq<u8> {
    seq![
        (n / 0x100_0000) as u8,
        (n / 0x1_0000 % 0x100) as u8,
        (n / 0x100 % 0x100) as u8,
        (n % 0x100) as u8,
    ]
}

/// The bytes that carry the datagram `payload` through the stream.
pub open spec fn framed(payload: Seq<u8>) -> Seq<u8> {
    be_bytes(payload.len() as u32) + payload
}

/// The header that announces a datagram of `len` bytes
/// (`u32::to_be_bytes`).
pub fn encode_len_header(len: u32) -> (h: [u8; 4])
    ensures
        h@ == be_bytes(len),
{
    let h: [u8; 4] = [
        (len / 0x100_0000) as u8,
        (len / 0x1_0000 % 0x100) as u8,
        (len / 0x100 % 0x100) as u8,
        (len % 0x100) as u8,
    ];
    assert(h@ =~= be_bytes(len));
    h
}

/// The length a header announces (`u32::from_be_bytes`).
pub fn decode_len_header(h: [u8; 4]) -> (len: u32)
    ensures
        len == be_value(h@[0], h@[1], h@[2], h@[3]),
{
    (h[0] as u32) * 0x100_0000 + (h[1] as u32) * 0x1_0000 + (h[2] as u32) * 0x100 + (h[3] as u32)
}

/// Reading back a header gives the length it was made from.
pub proof fn lemma_decode_encode_len(n: u32)
    ensures
        be_value(be_bytes(n)[0], be_bytes(n)[1], be_bytes(n)[2], be_bytes(n)[3]) == n,
{
    let q0 = n / 0x100_0000;
    let q1 = n / 0x1_0000;
    let q2 = n / 0x100;
    assert(q0 < 0x100);
    assert(n == q0 * 0x100_0000 + (q1 % 0x100) * 0x1_0000 + (q2 % 0x100) * 0x100 + n % 0x100)
        by (nonlinear_arith)
        requires
            q0 == n / 0x100_0000,
            q1 == n / 0x1_0000,
            q2 == n / 0x100,
            0 <= n,
    ;
}

/// Every four bytes are the header of exactly one length: encoding the
/// length they announce gives them back.
pub proof fn lemma_encode_decode_len(b0: u8, b1: u8, b2: u8, b3: u8)
    ensures
        0 <= be_value(b0, b1, b2, b3) <= u32::MAX,
        be_bytes(be_value(b0, b1, b2, b3) as u32) == seq![b0, b1, b2, b3],
{
    let v = be_value(b0, b1, b2, b3);
    let n: u32 = v as u32;
    assert(n / 0x100_0000 == b0 && n / 0x1_0000 % 0x100 == b1 && n / 0x100 % 0x100 == b2 && n
        % 0x100 == b3) by (nonlinear_arith)
        requires
            n == b0 * 0x100_0000 + b1 * 0x1_0000 + b2 * 0x100 + b3,
            0 <= b0 < 0x100,
            0 <= b1 < 0x100,
            0 <= b2 < 0x100,
            0 <= b3 < 0x100,
    ;
    assert(be_bytes(n) =~= seq![b0, b1, b2, b3]);
}

/// The bytes to write into the stream for one received datagram: its
/// length as a four-byte big-endian header, then the datagram.
pub fn frame_datagram(payload: &[u8]) -> (out: Vec<u8>)
    requires
        payload@.len() <= u32::MAX,
    ensures
        out@ == framed(payload@),
{
    let header = encode_len_header(payload.len() as u32);
    let mut out: Vec<u8> = Vec::new();
    let mut i: usize = 0;
    while i < UDP_BYTES_LEN
        invariant
            i <= UDP_BYTES_LEN,
            payload@.len() <= u32::MAX,
            header@ == be_bytes(payload@.len() as u32),
            out@ == header@.take(i as int),
        decreases UDP_BYTES_LEN - i,
    {
        out.push(header[i]);
        i = i + 1;
        assert(out@ =~= header@.take(i as int));
    }
    let mut j: usize = 0;
    while j < payload.len()
        invariant
            j <= payload@.len(),
            payload@.len() <= u32::MAX,
            header@ == be_bytes(payload@.len() as u32),
            out@ == header@ + payload@.take(j as int),
        decreases payload@.len() - j,
    {
        out.push(payload[j]);
        j = j + 1;
        assert(out@ =~= header@ + payload@.take(j as int));
    }
    assert(payload@.take(j as int) =~= payload@);
    out
}

/// Where the reading side of a datagram stream stands.
#[derive(Debug, Clone, Copy, PartialEq, Eq, Structural)]
pub enum ReaderState {
    /// The next four bytes are a length header.
    AwaitingHeader,
    /// The next `len` bytes are a datagram.
    AwaitingDatagram { len: usize },
    /// The stream is no longer read.
    Finished,
}

/// How many bytes the reader wants next, or `None` once it is finished.
pub open spec fn spec_wanted(s: ReaderState) -> Option<usize> {
    match s {
        ReaderState::AwaitingHeader => Some(UDP_BYTES_LEN),
        ReaderState::AwaitingDatagram { len } => Some(len),
        ReaderState::Finished => None,
    }
}

/// What the reader does with the bytes it asked for: the next state, and the
/// datagram to send, if these bytes complete one. A header that announces more
/// than the receive buffer holds ends the reading, as the forwarding task ends
/// there.
pub open spec fn spec_step(s: ReaderState, bytes: Seq<u8>) -> (ReaderState, Option<Seq<u8>>) {
    match s {
        ReaderState::AwaitingHeader => {
            let len = be_value(bytes[0], bytes[1], bytes[2], bytes[3]);
            if len <= UDP_BUF_LEN {
                (ReaderState::AwaitingDatagram { len: len as usize }, None)
            } else {
                (ReaderState::Finished, None)
            }
        },
        ReaderState::AwaitingDatagram { .. } => (ReaderState::AwaitingHeader, Some(bytes)),
        ReaderState::Finished => (ReaderState::Finished, None),
    }
}

/// A reader state that can occur: a datagram it waits for fits the receive
/// buffer.
pub open spec fn state_wf(s: ReaderState) -> bool {
    match s {
        ReaderState::AwaitingDatagram { len } => len <= UDP_BUF_LEN,
        _ => true,
    }
}

/// The decisions of the task that reads datagrams back out of a yamux stream
/// and sends each one to the UDP peer: the caller reads exactly
/// `wanted()` bytes, hands them to `on_bytes`, and sends what comes back.
pub struct DatagramReader {
    state: ReaderState,
}

impl View for DatagramReader {
    type V = ReaderState;

    closed spec fn view(&self) -> ReaderState {
        self.state
    }
}

impl DatagramReader {
    #[verifier::type_invariant]
    closed spec fn inv(&self) -> bool {
        state_wf(self.state)
    }

    /// A reader waiting for its first header.
    pub fn new() -> (r: Self)
        ensures
            r@ == ReaderState::AwaitingHeader,
    {
        DatagramReader { state: ReaderState::AwaitingHeader }
    }

    /// Where the reader stands.
    pub fn state(&self) -> (s: ReaderState)
        ensures
            s == self@,
            state_wf(s),
    {
        proof {
            use_type_invariant(self);
        }
        self.state
    }

    /// The number of bytes to read next; `None` once the reader is finished.
    /// It never exceeds the receive buffer.
    pub fn wanted(&self) -> (n: Option<usize>)
        ensures
            n == spec_wanted(self@),
            n matches Some(k) ==> k <= UDP_BUF_LEN,
    {
        proof {
            use_type_invariant(self);
        }
        match self.state {
            ReaderState::AwaitingHeader => Some(UDP_BYTES_LEN),
            ReaderState::AwaitingDatagram { len } => Some(len),
            ReaderState::Finished => None,
        }
    }

    /// Takes the bytes that `wanted` asked for; returns the datagram they
    /// complete, if any.
    pub fn on_bytes(&mut self, bytes: &[u8]) -> (datagram: Option<Vec<u8>>)
        requires
            spec_wanted(old(self)@) == Some(bytes@.len() as usize),
        ensures
            (final(self)@, match datagram {
                Some(d) => Some(d@),
                None => None::<Seq<u8>>,
            }) == spec_step(old(self)@, bytes@),
            state_wf(final(self)@),
    {
        match self.state {
            ReaderState::AwaitingHeader => {
                let len = decode_len_header([bytes[0], bytes[1], bytes[2], bytes[3]]);
                if (len as usize) <= UDP_BUF_LEN {
                    self.state = ReaderState::AwaitingDatagram { len: len as usize };
                } else {
                    self.state = ReaderState::Finished;
                }
                None
            },
            ReaderState::AwaitingDatagram { .. } => {
                self.state = ReaderState::AwaitingHeader;
                let d = vstd::slice::slice_to_vec(bytes);
                Some(d)
            },
            ReaderState::Finished => None,
        }
    }

    /// A read from the stream or a send to the peer failed: the reader stops.
    pub fn on_failure(&mut self)
        ensures
            final(self)@ == ReaderState::Finished,
    {
        self.state = ReaderState::Finished;
    }
}

/// A datagram framed by the sending side comes out of the reading side
/// unchanged: the header leads the reader to wait for exactly the datagram's
/// length, and the datagram's bytes are then handed back as they are, with the
/// reader ready for the next header.
pub proof fn lemma_reader_recovers_framed(payload: Seq<u8>)
    requires
        payload.len() <= UDP_BUF_LEN,
    ensures
        framed(payload).len() == UDP_BYTES_LEN + payload.len(),
        spec_step(ReaderState::AwaitingHeader, framed(payload).take(UDP_BYTES_LEN as int)) == (
        ReaderState::AwaitingDatagram { len: payload.len() as usize }, None::<Seq<u8>>),
        spec_step(
            ReaderState::AwaitingDatagram { len: payload.len() as usize },
            framed(payload).skip(UDP_BYTES_LEN as int),
        ) == (ReaderState::AwaitingHeader, Some(payload)),
{
    let n = payload.len() as u32;
    lemma_decode_encode_len(n);
    let f = framed(payload);
    assert(f.take(4)[0] == be_bytes(n)[0]);
    assert(f.take(4)[1] == be_bytes(n)[1]);
    assert(f.take(4)[2] == be_bytes(n)[2]);
    assert(f.take(4)[3] == be_bytes(n)[3]);
    assert(f.skip(4) =~= payload);
}

/// The bytes a sender writes into the stream for the datagrams `ps`, in order.
pub open spec fn framed_all(ps: Seq<Seq<u8>>) -> Seq<u8>
    decreases ps.len(),
{
    if ps.len() == 0 {
        Seq::empty()
    } else {
        framed(ps[0]) + framed_all(ps.drop_first())
    }
}

/// Writing one more whole frame after the frames of `ps` gives the frames of
/// `ps` followed by `p`: a stream into which every datagram is written as one
/// `frame_datagram` result carries `framed_all` of the datagrams, in the order
/// they were written.
pub proof fn lemma_framed_all_push(ps: Seq<Seq<u8>>, p: Seq<u8>)
    ensures
        framed_all(ps.push(p)) == framed_all(ps) + framed(p),
    decreases ps.len(),
{
    if ps.len() == 0 {
        assert(ps.push(p).drop_first() =~= Seq::<Seq<u8>>::empty());
        assert(framed_all(Seq::<Seq<u8>>::empty()) =~= Seq::<u8>::empty());
        assert(framed_all(ps.push(p)) =~= framed(p));
        assert(framed_all(ps) + framed(p) =~= framed(p));
    } else {
        lemma_framed_all_push(ps.drop_first(), p);
        assert(ps.push(p).drop_first() =~= ps.drop_first().push(p));
        assert(ps.push(p)[0] == ps[0]);
        assert(framed_all(ps.push(p)) =~= framed_all(ps) + framed(p));
    }
}

/// Runs the reader from state `s` over the stream `bytes`, as long as the
/// stream holds the bytes it wants: the state it ends in and the datagrams it
/// hands out, in order.
pub open spec fn feed(s: ReaderState, bytes: Seq<u8>) -> (ReaderState, Seq<Seq<u8>>)
    decreases bytes.len(), (if s is AwaitingDatagram {
        1int
    } else {
        0int
    }),
{
    match spec_wanted(s) {
        Some(n) => if n <= bytes.len() {
            let next = spec_step(s, bytes.take(n as int));
            proof {
                if s is AwaitingHeader {
                    assert(bytes.skip(n as int).len() < bytes.len());
                }
            }
            let rest = feed(next.0, bytes.skip(n as int));
            (
                rest.0,
                match next.1 {
                    Some(d) => seq![d] + rest.1,
                    None => rest.1,
                },
            )
        } else {
            (s, Seq::empty())
        },
        None => (s, Seq::empty()),
    }
}

/// Whatever datagrams are sent, each no longer than the receive buffer, the
/// reading side hands them out unchanged and in the order they were sent,
/// and is then ready for the next header.
pub proof fn lemma_reader_recovers_all(ps: Seq<Seq<u8>>)
    requires
        forall|i: int| 0 <= i < ps.len() ==> (#[trigger] ps[i]).len() <= UDP_BUF_LEN,
    ensures
        feed(ReaderState::AwaitingHeader, framed_all(ps)) == (ReaderState::AwaitingHeader, ps),
    decreases ps.len(),
{
    if ps.len() == 0 {
        assert(framed_all(ps).len() == 0);
    } else {
        let p = ps[0];
        let tail = ps.drop_first();
        assert forall|i: int| 0 <= i < tail.len() implies (#[trigger] tail[i]).len()
            <= UDP_BUF_LEN by {
            assert(tail[i] == ps[i + 1]);
        }
        lemma_reader_recovers_all(tail);
        lemma_reader_recovers_framed(p);
        let all = framed_all(ps);
        let r = framed_all(tail);
        assert(all == framed(p) + r);
        assert(all.take(4) =~= framed(p).take(4));
        let after_header = all.skip(4);
        assert(after_header =~= p + r);
        assert(after_header.take(p.len() as int) =~= p);
        assert(after_header.take(p.len() as int) =~= framed(p).skip(4));
        assert(after_header.skip(p.len() as int) =~= r);
        let st = ReaderState::AwaitingDatagram { len: p.len() as usize };
        assert(feed(st, after_header) == (ReaderState::AwaitingHeader, seq![p] + ps.drop_first()));
        assert(seq![p] + ps.drop_first() =~= ps);
    }
}

} // verus!
