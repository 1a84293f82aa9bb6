//! The egress facade: shared configuration, per-connection outbound buffers,
//! framing with and without compression, and broadcast fan-out.

use crate::codec::{zlib_compress, zlib_deflate_of};
use crate::varint::{varint_bytes, write_varint};
use crate::MAX_PACKET_SIZE;
use vstd::prelude::*;

verus! {

/// Configuration fixed at startup and shared by every connection.
pub struct Shared {
    /// Payloads at least this long are compressed; non-negative.
    pub compression_threshold: i32,
    /// The zlib level handed to the compressor.
    pub compression_level: i32,
}

impl Shared {
    /// The configuration is usable by the compressor.
    pub open spec fn wf(&self) -> bool {
        0 <= self.compression_threshold && 0 <= self.compression_level <= 12
    }
}

/// Server-wide mutable state the status flow reports.
pub struct Global {
    pub shared: Shared,
    /// Live player count shown by the status response.
    pub player_count: u32,
    /// Advertised player capacity.
    pub max_players: u32,
    /// Advertised description text, raw bytes.
    pub description: Vec<u8>,
    /// Duration of the previous tick, in milliseconds, for telemetry.
    pub ms_last_tick: u64,
}

impl Global {
    /// The description stays small enough for every status response to fit a
    /// single frame.
    pub open spec fn wf(&self) -> bool {
        self.shared.wf() && self.description@.len() <= 4096
    }
}

/// A frame without compression: the payload behind its length prefix.
pub open spec fn frame_plain(p: Seq<u8>) -> Seq<u8> {
    varint_bytes(p.len() as u32) + p
}

/// A frame on a compression-armed connection: payloads under the threshold
/// are stored behind a zero marker, the rest as a zlib stream with the
/// declared decompressed length.
pub open spec fn frame_compressed(p: Seq<u8>, threshold: i32, level: int) -> Seq<u8> {
    if p.len() < threshold {
        varint_bytes((p.len() + 1) as u32) + varint_bytes(0) + p
    } else {
        let inner = varint_bytes(p.len() as u32) + zlib_deflate_of(p, level);
        varint_bytes(inner.len() as u32) + inner
    }
}

/// Sending can fail; the scheduler never sees these as panics.
#[derive(Clone, Copy, PartialEq, Eq, Structural, Debug)]
pub enum SendError {
    /// The payload exceeds the largest frame the protocol allows.
    TooLarge,
    /// No outbound channel exists for the connection.
    NoChannel,
}

/// One connection's outbound side: its buffered egress bytes and whether it
/// receives broadcasts.
pub struct OutChannel {
    pub conn: u64,
    pub bytes: Vec<u8>,
    pub wants_broadcast: bool,
}

/// The index of the channel for `c`, or `-1` when none exists.
pub open spec fn find_chan(s: Seq<OutChannel>, c: u64) -> int
    decreases s.len(),
{
    if s.len() == 0 {
        -1
    } else if s[0].conn == c {
        0
    } else {
        let r = find_chan(s.drop_first(), c);
        if r < 0 {
            -1
        } else {
            r + 1
        }
    }
}

/// `find_chan` returns either `-1` with no match present, or the first
/// matching index.
pub proof fn lemma_find_chan(s: Seq<OutChannel>, c: u64)
    ensures
        find_chan(s, c) == -1 ==> forall|i: int| 0 <= i < s.len() ==> s[i].conn != c,
        find_chan(s, c) >= 0 ==> 0 <= find_chan(s, c) < s.len() && s[find_chan(s, c)].conn == c
            && forall|i: int| 0 <= i < find_chan(s, c) ==> s[i].conn != c,
    decreases s.len(),
{
    if s.len() > 0 && s[0].conn != c {
        let t = s.drop_first();
        lemma_find_chan(t, c);
        let r = find_chan(t, c);
        if r < 0 {
            assert forall|i: int| 0 <= i < s.len() implies s[i].conn != c by {
                if i > 0 {
                    assert(t[i - 1] == s[i]);
                }
            }
        } else {
            assert(s[r + 1] == t[r]);
            assert forall|i: int| 0 <= i < r + 1 implies s[i].conn != c by {
                if i > 0 {
                    assert(t[i - 1] == s[i]);
                }
            }
        }
    }
}

/// The outbound buffer partition consumed by the proxy.
pub struct IoBuf {
    channels: Vec<OutChannel>,
}

impl IoBuf {
    /// Connection ids are unique across channels.
    pub closed spec fn wf(&self) -> bool {
        forall|i: int, j: int|
            0 <= i < j < self.channels@.len() ==> self.channels@[i].conn
                != self.channels@[j].conn
    }

    /// Whether an outbound channel exists for `c`.
    pub closed spec fn has_conn(&self, c: u64) -> bool {
        find_chan(self.channels@, c) >= 0
    }

    /// The bytes buffered for `c`.
    pub closed spec fn outbound(&self, c: u64) -> Seq<u8> {
        self.channels@[find_chan(self.channels@, c)].bytes@
    }

    /// Whether `c` receives broadcasts.
    pub closed spec fn receives_broadcasts(&self, c: u64) -> bool {
        self.has_conn(c) && self.channels@[find_chan(self.channels@, c)].wants_broadcast
    }
}

/// Appends every byte of `s`.
pub(crate) fn extend_bytes(buf: &mut Vec<u8>, s: &[u8])
    ensures
        final(buf)@ == old(buf)@ + s@,
{
    let mut i: usize = 0;
    while i < s.len()
        invariant
            i <= s@.len(),
            buf@ == old(buf)@ + s@.take(i as int),
        decreases s@.len() - i,
    {
        buf.push(s[i]);
        assert(buf@ =~= old(buf)@ + s@.take(i + 1));
        i = i + 1;
    }
    assert(s@.take(s@.len() as int) =~= s@);
}

/// Builds the uncompressed framing of `p`.
pub fn build_frame_plain(p: &[u8]) -> (r: Vec<u8>)
    requires
        p@.len() <= MAX_PACKET_SIZE,
    ensures
        r@ == frame_plain(p@),
{
    let mut out: Vec<u8> = Vec::new();
    write_varint(&mut out, p.len() as u32);
    extend_bytes(&mut out, p);
    out
}

/// Builds the compression-armed framing of `p`.
pub fn build_frame_compressed(p: &[u8], threshold: i32, level: i32) -> (r: Vec<u8>)
    requires
        p@.len() <= MAX_PACKET_SIZE,
        threshold >= 0,
        0 <= level <= 12,
    ensures
        r@ == frame_compressed(p@, threshold, level as int),
{
    let mut out: Vec<u8> = Vec::new();
    if p.len() < threshold as usize {
        write_varint(&mut out, (p.len() + 1) as u32);
        write_varint(&mut out, 0);
        extend_bytes(&mut out, p);
        assert(out@ =~= frame_compressed(p@, threshold, level as int));
    } else {
        let deflated = zlib_compress(p, level);
        let mut inner: Vec<u8> = Vec::new();
        write_varint(&mut inner, p.len() as u32);
        inner.append(&mut { deflated });
        assert(inner@ =~= varint_bytes(p@.len() as u32) + zlib_deflate_of(p@, level as int));
        write_varint(&mut out, #[verifier::truncate] (inner.len() as u32));
        extend_bytes(&mut out, inner.as_slice());
        assert(out@ =~= frame_compressed(p@, threshold, level as int));
    }
    out
}

/// `find_chan` depends only on the connection ids, not the buffered bytes.
pub proof fn lemma_find_chan_same_conns(s1: Seq<OutChannel>, s2: Seq<OutChannel>, c: u64)
    requires
        s1.len() == s2.len(),
        forall|i: int| 0 <= i < s1.len() ==> s1[i].conn == s2[i].conn,
    ensures
        find_chan(s1, c) == find_chan(s2, c),
    decreases s1.len(),
{
    if s1.len() > 0 {
        assert(forall|i: int|
            0 <= i < s1.drop_first().len() ==> s1.drop_first()[i].conn
                == s2.drop_first()[i].conn);
        lemma_find_chan_same_conns(s1.drop_first(), s2.drop_first(), c);
    }
}

impl IoBuf {
    /// An empty outbound buffer.
    pub fn new() -> (r: IoBuf)
        ensures
            r.wf(),
            forall|c: u64| !r.has_conn(c),
    {
        let r = IoBuf { channels: Vec::new() };
        proof {
            assert forall|c: u64| !r.has_conn(c) by {
                lemma_find_chan(r.channels@, c);
            }
        }
        r
    }

    /// The channel index for `c`, when one exists.
    fn index_of(&self, c: u64) -> (r: Option<usize>)
        requires
            self.wf(),
        ensures
            match r {
                Some(i) => self.has_conn(c) && i == find_chan(self.channels@, c) && i
                    < self.channels@.len() && self.channels@[i as int].conn == c,
                None => !self.has_conn(c),
            },
    {
        let mut i: usize = 0;
        proof {
            lemma_find_chan(self.channels@, c);
        }
        while i < self.channels.len()
            invariant
                self.wf(),
                i <= self.channels@.len(),
                forall|j: int| 0 <= j < i ==> self.channels@[j].conn != c,
                find_chan(self.channels@, c) == -1 ==> forall|j: int|
                    0 <= j < self.channels@.len() ==> self.channels@[j].conn != c,
                find_chan(self.channels@, c) >= 0 ==> 0 <= find_chan(self.channels@, c)
                    < self.channels@.len() && self.channels@[find_chan(self.channels@, c)].conn
                    == c && forall|j: int|
                    0 <= j < find_chan(self.channels@, c) ==> self.channels@[j].conn != c,
            decreases self.channels@.len() - i,
        {
            if self.channels[i].conn == c {
                proof {
                    if find_chan(self.channels@, c) < i {
                        assert(self.channels@[find_chan(self.channels@, c)].conn != c);
                    }
                }
                return Some(i);
            }
            i = i + 1;
        }
        None
    }
}

} // verus!

verus! {

/// `find_chan` after a push: an existing match stands; otherwise the new
/// element is found exactly when it matches.
pub proof fn lemma_find_chan_push(s: Seq<OutChannel>, x: OutChannel, c: u64)
    ensures
        find_chan(s.push(x), c) == if find_chan(s, c) >= 0 {
            find_chan(s, c)
        } else if x.conn == c {
            s.len() as int
        } else {
            -1
        },
    decreases s.len(),
{
    reveal_with_fuel(find_chan, 3);
    if s.len() == 0 {
        assert(s.push(x).drop_first() =~= Seq::<OutChannel>::empty());
        assert(s.push(x)[0] == x);
        if x.conn == c {
            assert(find_chan(s.push(x), c) == 0);
        } else {
            assert(find_chan(s.push(x), c) == -1);
        }
    } else {
        let t = s.drop_first();
        let tp = s.push(x).drop_first();
        assert(tp =~= t.push(x));
        assert(s.push(x)[0] == s[0]);
        if s[0].conn == c {
            assert(find_chan(s.push(x), c) == 0);
            assert(find_chan(s, c) == 0);
        } else {
            lemma_find_chan_push(t, x, c);
            assert(find_chan(s, c) == if find_chan(t, c) < 0 {
                -1int
            } else {
                find_chan(t, c) + 1
            });
            assert(find_chan(s.push(x), c) == if find_chan(tp, c) < 0 {
                -1int
            } else {
                find_chan(tp, c) + 1
            });
        }
    }
}

impl IoBuf {
    /// Opens an outbound channel for a new connection: empty, not yet in the
    /// broadcast set. Every other channel is untouched.
    pub fn register(&mut self, conn: u64)
        requires
            old(self).wf(),
            !old(self).has_conn(conn),
        ensures
            final(self).wf(),
            final(self).has_conn(conn),
            final(self).outbound(conn) == Seq::<u8>::empty(),
            !final(self).receives_broadcasts(conn),
            forall|c: u64| c != conn ==> #[trigger] final(self).has_conn(c) == old(self).has_conn(c),
            forall|c: u64|
                c != conn && old(self).has_conn(c) ==> #[trigger] final(self).outbound(c)
                    == old(self).outbound(c) && final(self).receives_broadcasts(c)
                    == old(self).receives_broadcasts(c),
    {
        let ghost s0 = self.channels@;
        let ch = OutChannel { conn, bytes: Vec::new(), wants_broadcast: false };
        self.channels.push(ch);
        proof {
            lemma_find_chan(s0, conn);
            assert forall|c: u64| true implies find_chan(self.channels@, c) == (if find_chan(
                s0,
                c,
            ) >= 0 {
                find_chan(s0, c)
            } else if c == conn {
                s0.len() as int
            } else {
                -1
            }) by {
                lemma_find_chan_push(s0, ch, c);
            }
            assert forall|c: u64| c != conn && old(self).has_conn(c) implies final(self).outbound(c)
                == old(self).outbound(c) && final(self).receives_broadcasts(c)
                == old(self).receives_broadcasts(c) by {
                lemma_find_chan(s0, c);
            }
        }
    }

    /// Whether an outbound channel exists for `c`.
    pub fn has_conn_exec(&self, c: u64) -> (r: bool)
        requires
            self.wf(),
        ensures
            r == self.has_conn(c),
    {
        self.index_of(c).is_some()
    }

    /// Appends already-framed bytes to one connection's buffer.
    fn append_to(&mut self, i: usize, frame: Vec<u8>)
        requires
            old(self).wf(),
            i < old(self).channels@.len(),
        ensures
            final(self).wf(),
            final(self).channels@.len() == old(self).channels@.len(),
            final(self).channels@[i as int].conn == old(self).channels@[i as int].conn,
            final(self).channels@[i as int].wants_broadcast
                == old(self).channels@[i as int].wants_broadcast,
            final(self).channels@[i as int].bytes@ == old(self).channels@[i as int].bytes@
                + frame@,
            forall|j: int|
                0 <= j < old(self).channels@.len() && j != i ==> final(self).channels@[j]
                    == old(self).channels@[j],
    {
        let mut ch = self.channels.remove(i);
        let mut f = frame;
        ch.bytes.append(&mut f);
        self.channels.insert(i, ch);
        proof {
            assert(self.channels@ =~= old(self).channels@.update(
                i as int,
                self.channels@[i as int],
            ));
        }
    }
}

} // verus!

verus! {

impl IoBuf {
    /// Admits `conn` to the broadcast set. Returns whether the channel
    /// exists; nothing changes when it does not.
    pub fn set_receive_broadcasts(&mut self, conn: u64) -> (r: bool)
        requires
            old(self).wf(),
        ensures
            final(self).wf(),
            r == old(self).has_conn(conn),
            !r ==> *final(self) == *old(self),
            r ==> final(self).receives_broadcasts(conn) && final(self).outbound(conn) == old(self).outbound(conn),
            forall|c: u64| #[trigger] final(self).has_conn(c) == old(self).has_conn(c),
            forall|c: u64|
                c != conn && old(self).has_conn(c) ==> #[trigger] final(self).outbound(c)
                    == old(self).outbound(c) && final(self).receives_broadcasts(c)
                    == old(self).receives_broadcasts(c),
    {
        let ghost s0 = self.channels@;
        let i = match self.index_of(conn) {
            Some(i) => i,
            None => {
                return false;
            },
        };
        let mut ch = self.channels.remove(i);
        ch.wants_broadcast = true;
        self.channels.insert(i, ch);
        proof {
            assert(self.channels@ =~= s0.update(i as int, self.channels@[i as int]));
            assert forall|c: u64| true implies find_chan(self.channels@, c) == find_chan(s0, c) by {
                lemma_find_chan_same_conns(self.channels@, s0, c);
            }
            assert forall|c: u64| c != conn && old(self).has_conn(c) implies final(self).outbound(c)
                == old(self).outbound(c) && final(self).receives_broadcasts(c)
                == old(self).receives_broadcasts(c) by {
                lemma_find_chan(s0, c);
            }
        }
        true
    }

    /// Appends an already-framed packet to one connection's buffer. Returns
    /// whether the channel exists; nothing changes when it does not.
    pub fn send_to(&mut self, conn: u64, frame: Vec<u8>) -> (r: bool)
        requires
            old(self).wf(),
        ensures
            final(self).wf(),
            r == old(self).has_conn(conn),
            !r ==> *final(self) == *old(self),
            r ==> final(self).outbound(conn) == old(self).outbound(conn) + frame@ && final(self).receives_broadcasts(conn) == old(self).receives_broadcasts(conn),
            forall|c: u64| #[trigger] final(self).has_conn(c) == old(self).has_conn(c),
            forall|c: u64|
                c != conn && old(self).has_conn(c) ==> #[trigger] final(self).outbound(c)
                    == old(self).outbound(c) && final(self).receives_broadcasts(c)
                    == old(self).receives_broadcasts(c),
    {
        let ghost s0 = self.channels@;
        let i = match self.index_of(conn) {
            Some(i) => i,
            None => {
                return false;
            },
        };
        self.append_to(i, frame);
        proof {
            assert forall|c: u64| true implies find_chan(self.channels@, c) == find_chan(s0, c) by {
                lemma_find_chan_same_conns(self.channels@, s0, c);
            }
            assert forall|c: u64| c != conn && old(self).has_conn(c) implies final(self).outbound(c)
                == old(self).outbound(c) && final(self).receives_broadcasts(c)
                == old(self).receives_broadcasts(c) by {
                lemma_find_chan(s0, c);
            }
        }
        true
    }

    /// Takes the buffered bytes for `conn`, leaving its buffer empty, as the
    /// proxy's egress side does.
    pub fn drain(&mut self, conn: u64) -> (r: Option<Vec<u8>>)
        requires
            old(self).wf(),
        ensures
            final(self).wf(),
            r is Some == old(self).has_conn(conn),
            r is None ==> *final(self) == *old(self),
            r matches Some(v) ==> v@ == old(self).outbound(conn) && final(self).outbound(conn)
                == Seq::<u8>::empty() && final(self).receives_broadcasts(conn) == old(self).receives_broadcasts(conn),
            forall|c: u64| #[trigger] final(self).has_conn(c) == old(self).has_conn(c),
            forall|c: u64|
                c != conn && old(self).has_conn(c) ==> #[trigger] final(self).outbound(c)
                    == old(self).outbound(c) && final(self).receives_broadcasts(c)
                    == old(self).receives_broadcasts(c),
    {
        let ghost s0 = self.channels@;
        let i = match self.index_of(conn) {
            Some(i) => i,
            None => {
                return None;
            },
        };
        let mut ch = self.channels.remove(i);
        let bytes = ch.bytes;
        ch.bytes = Vec::new();
        self.channels.insert(i, ch);
        proof {
            assert(self.channels@ =~= s0.update(i as int, self.channels@[i as int]));
            assert forall|c: u64| true implies find_chan(self.channels@, c) == find_chan(s0, c) by {
                lemma_find_chan_same_conns(self.channels@, s0, c);
            }
            assert forall|c: u64| c != conn && old(self).has_conn(c) implies final(self).outbound(c)
                == old(self).outbound(c) && final(self).receives_broadcasts(c)
                == old(self).receives_broadcasts(c) by {
                lemma_find_chan(s0, c);
            }
        }
        Some(bytes)
    }

    /// Appends an already-framed packet to every channel in the broadcast
    /// set.
    pub fn broadcast_frame(&mut self, frame: &[u8])
        requires
            old(self).wf(),
        ensures
            final(self).wf(),
            forall|c: u64| #[trigger] final(self).has_conn(c) == old(self).has_conn(c),
            forall|c: u64|
                old(self).has_conn(c) ==> #[trigger] final(self).receives_broadcasts(c)
                    == old(self).receives_broadcasts(c),
            forall|c: u64|
                old(self).has_conn(c) ==> #[trigger] final(self).outbound(c) == if old(self).receives_broadcasts(c) {
                    old(self).outbound(c) + frame@
                } else {
                    old(self).outbound(c)
                },
    {
        let ghost s0 = self.channels@;
        let mut k: usize = 0;
        while k < self.channels.len()
            invariant
                self.wf(),
                old(self).wf(),
                k <= self.channels@.len(),
                self.channels@.len() == s0.len(),
                s0 == old(self).channels@,
                forall|j: int|
                    0 <= j < s0.len() ==> (#[trigger] self.channels@[j]).conn == s0[j].conn
                        && self.channels@[j].wants_broadcast == s0[j].wants_broadcast,
                forall|j: int|
                    0 <= j < k ==> (#[trigger] self.channels@[j]).bytes@ == if s0[j].wants_broadcast {
                        s0[j].bytes@ + frame@
                    } else {
                        s0[j].bytes@
                    },
                forall|j: int|
                    k <= j < s0.len() ==> (#[trigger] self.channels@[j]).bytes@ == s0[j].bytes@,
            decreases s0.len() - k,
        {
            let ghost sk = self.channels@;
            if self.channels[k].wants_broadcast {
                let mut owned: Vec<u8> = Vec::new();
                extend_bytes(&mut owned, frame);
                assert(owned@ =~= frame@);
                self.append_to(k, owned);
                assert(self.channels@[k as int].bytes@ == s0[k as int].bytes@ + frame@);
                assert(forall|j: int|
                    0 <= j < sk.len() && j != k ==> self.channels@[j] == sk[j]);
            }
            k = k + 1;
        }
        proof {
            assert forall|c: u64| true implies find_chan(self.channels@, c) == find_chan(s0, c) by {
                lemma_find_chan_same_conns(self.channels@, s0, c);
            }
            assert forall|c: u64| old(self).has_conn(c) implies final(self).outbound(c) == (if old(self).receives_broadcasts(c) {
                old(self).outbound(c) + frame@
            } else {
                old(self).outbound(c)
            }) && final(self).receives_broadcasts(c) == old(self).receives_broadcasts(c) by {
                lemma_find_chan(s0, c);
            }
        }
    }

}

} // verus!

verus! {

/// The egress facade handed to every stage: shared configuration plus the
/// outbound buffer partition.
pub struct Compose {
    pub global: Global,
    pub io: IoBuf,
}

impl Compose {
    /// Configuration and buffers are consistent.
    pub open spec fn wf(&self) -> bool {
        self.global.wf() && self.io.wf()
    }

    /// Whether an outbound channel exists for `c`.
    pub open spec fn has_conn(&self, c: u64) -> bool {
        self.io.has_conn(c)
    }

    /// The bytes buffered for `c`.
    pub open spec fn outbound(&self, c: u64) -> Seq<u8> {
        self.io.outbound(c)
    }

    /// Whether `c` receives broadcasts.
    pub open spec fn receives_broadcasts(&self, c: u64) -> bool {
        self.io.receives_broadcasts(c)
    }

    /// The frame a compressed unicast or broadcast of `p` produces.
    pub open spec fn compressed_frame_of(&self, p: Seq<u8>) -> Seq<u8> {
        frame_compressed(
            p,
            self.global.shared.compression_threshold,
            self.global.shared.compression_level as int,
        )
    }

    /// A fresh facade with no connections.
    pub fn new(global: Global) -> (r: Compose)
        requires
            global.wf(),
        ensures
            r.wf(),
            r.global == global,
            forall|c: u64| !r.has_conn(c),
    {
        Compose { global, io: IoBuf::new() }
    }

    /// Opens the outbound channel for a newly connected stream.
    pub fn register_connection(&mut self, conn: u64)
        requires
            old(self).wf(),
            !old(self).has_conn(conn),
        ensures
            final(self).wf(),
            final(self).global == old(self).global,
            final(self).has_conn(conn),
            final(self).outbound(conn) == Seq::<u8>::empty(),
            !final(self).receives_broadcasts(conn),
            forall|c: u64| c != conn ==> #[trigger] final(self).has_conn(c) == old(self).has_conn(c),
            forall|c: u64|
                c != conn && old(self).has_conn(c) ==> #[trigger] final(self).outbound(c)
                    == old(self).outbound(c) && final(self).receives_broadcasts(c)
                    == old(self).receives_broadcasts(c),
    {
        self.io.register(conn);
    }

    /// Opens the outbound channel for a connection unless one already
    /// exists; an existing channel is left exactly as it is.
    pub fn register_connection_if_new(&mut self, conn: u64)
        requires
            old(self).wf(),
        ensures
            final(self).wf(),
            final(self).global == old(self).global,
            final(self).has_conn(conn),
            old(self).has_conn(conn) ==> *final(self) == *old(self),
            !old(self).has_conn(conn) ==> final(self).outbound(conn) == Seq::<u8>::empty()
                && !final(self).receives_broadcasts(conn),
            forall|c: u64| c != conn ==> #[trigger] final(self).has_conn(c) == old(self).has_conn(c),
            forall|c: u64|
                c != conn && old(self).has_conn(c) ==> #[trigger] final(self).outbound(c)
                    == old(self).outbound(c) && final(self).receives_broadcasts(c)
                    == old(self).receives_broadcasts(c),
    {
        if self.io.has_conn_exec(conn) {
            return ;
        }
        self.io.register(conn);
    }

    /// Serializes, frames and enqueues one packet for one connection,
    /// compressing by the shared threshold. Fails exactly on an oversize
    /// payload or an unknown connection, changing nothing then.
    pub fn unicast(&mut self, payload: &[u8], conn: u64) -> (r: Result<(), SendError>)
        requires
            old(self).wf(),
        ensures
            final(self).wf(),
            final(self).global == old(self).global,
            payload@.len() > MAX_PACKET_SIZE ==> r == Err::<(), SendError>(SendError::TooLarge)
                && *final(self) == *old(self),
            payload@.len() <= MAX_PACKET_SIZE && !old(self).has_conn(conn) ==> r == Err::<
                (),
                SendError,
            >(SendError::NoChannel) && *final(self) == *old(self),
            payload@.len() <= MAX_PACKET_SIZE && old(self).has_conn(conn) ==> r == Ok::<
                (),
                SendError,
            >(()) && final(self).outbound(conn) == old(self).outbound(conn)
                + old(self).compressed_frame_of(payload@),
            forall|c: u64| #[trigger] final(self).has_conn(c) == old(self).has_conn(c),
            forall|c: u64|
                c != conn && old(self).has_conn(c) ==> #[trigger] final(self).outbound(c)
                    == old(self).outbound(c),
            forall|c: u64|
                c != conn && old(self).has_conn(c) ==> #[trigger] final(self).receives_broadcasts(c) == old(self).receives_broadcasts(c),
            old(self).has_conn(conn) ==> final(self).receives_broadcasts(conn) == old(self).receives_broadcasts(conn),
    {
        if payload.len() > MAX_PACKET_SIZE {
            return Err(SendError::TooLarge);
        }
        let frame = build_frame_compressed(
            payload,
            self.global.shared.compression_threshold,
            self.global.shared.compression_level,
        );
        let ok = self.io.send_to(conn, frame);
        proof {
            assert forall|c: u64|
                c != conn && old(self).has_conn(c) implies self.io.receives_broadcasts(c) == old(self).io.receives_broadcasts(c) by {
                assert(self.io.outbound(c) == old(self).io.outbound(c));
            }
        }
        if ok {
            Ok(())
        } else {
            Err(SendError::NoChannel)
        }
    }

    /// Serializes, frames and enqueues one packet for one connection without
    /// compression, as the login-time packets demand. Fails exactly on an
    /// oversize payload or an unknown connection, changing nothing then.
    pub fn unicast_no_compression(&mut self, payload: &[u8], conn: u64) -> (r: Result<
        (),
        SendError,
    >)
        requires
            old(self).wf(),
        ensures
            final(self).wf(),
            final(self).global == old(self).global,
            payload@.len() > MAX_PACKET_SIZE ==> r == Err::<(), SendError>(SendError::TooLarge)
                && *final(self) == *old(self),
            payload@.len() <= MAX_PACKET_SIZE && !old(self).has_conn(conn) ==> r == Err::<
                (),
                SendError,
            >(SendError::NoChannel) && *final(self) == *old(self),
            payload@.len() <= MAX_PACKET_SIZE && old(self).has_conn(conn) ==> r == Ok::<
                (),
                SendError,
            >(()) && final(self).outbound(conn) == old(self).outbound(conn) + frame_plain(payload@),
            forall|c: u64| #[trigger] final(self).has_conn(c) == old(self).has_conn(c),
            forall|c: u64|
                c != conn && old(self).has_conn(c) ==> #[trigger] final(self).outbound(c)
                    == old(self).outbound(c),
            forall|c: u64|
                c != conn && old(self).has_conn(c) ==> #[trigger] final(self).receives_broadcasts(c) == old(self).receives_broadcasts(c),
            old(self).has_conn(conn) ==> final(self).receives_broadcasts(conn) == old(self).receives_broadcasts(conn),
    {
        if payload.len() > MAX_PACKET_SIZE {
            return Err(SendError::TooLarge);
        }
        let frame = build_frame_plain(payload);
        let ok = self.io.send_to(conn, frame);
        proof {
            assert forall|c: u64|
                c != conn && old(self).has_conn(c) implies self.io.receives_broadcasts(c) == old(self).io.receives_broadcasts(c) by {
                assert(self.io.outbound(c) == old(self).io.outbound(c));
            }
        }
        if ok {
            Ok(())
        } else {
            Err(SendError::NoChannel)
        }
    }

    /// Frames one packet with compression and enqueues it for every
    /// connection in the broadcast set. Fails exactly on an oversize payload.
    pub fn broadcast(&mut self, payload: &[u8]) -> (r: Result<(), SendError>)
        requires
            old(self).wf(),
        ensures
            final(self).wf(),
            final(self).global == old(self).global,
            payload@.len() > MAX_PACKET_SIZE ==> r == Err::<(), SendError>(SendError::TooLarge)
                && *final(self) == *old(self),
            payload@.len() <= MAX_PACKET_SIZE ==> r == Ok::<(), SendError>(()),
            forall|c: u64| #[trigger] final(self).has_conn(c) == old(self).has_conn(c),
            forall|c: u64|
                old(self).has_conn(c) ==> #[trigger] final(self).receives_broadcasts(c)
                    == old(self).receives_broadcasts(c),
            payload@.len() <= MAX_PACKET_SIZE ==> forall|c: u64|
                old(self).has_conn(c) ==> #[trigger] final(self).outbound(c) == if old(self).receives_broadcasts(c) {
                    old(self).outbound(c) + old(self).compressed_frame_of(payload@)
                } else {
                    old(self).outbound(c)
                },
    {
        if payload.len() > MAX_PACKET_SIZE {
            return Err(SendError::TooLarge);
        }
        let frame = build_frame_compressed(
            payload,
            self.global.shared.compression_threshold,
            self.global.shared.compression_level,
        );
        self.io.broadcast_frame(frame.as_slice());
        Ok(())
    }

    /// Admits `conn` to the broadcast set; called once login succeeds.
    /// Returns whether the channel exists.
    pub fn set_receive_broadcasts(&mut self, conn: u64) -> (r: bool)
        requires
            old(self).wf(),
        ensures
            final(self).wf(),
            final(self).global == old(self).global,
            r == old(self).has_conn(conn),
            !r ==> *final(self) == *old(self),
            r ==> final(self).receives_broadcasts(conn) && final(self).outbound(conn) == old(self).outbound(conn),
            forall|c: u64| #[trigger] final(self).has_conn(c) == old(self).has_conn(c),
            forall|c: u64|
                c != conn && old(self).has_conn(c) ==> #[trigger] final(self).outbound(c)
                    == old(self).outbound(c) && final(self).receives_broadcasts(c)
                    == old(self).receives_broadcasts(c),
    {
        self.io.set_receive_broadcasts(conn)
    }

    /// Takes the buffered egress bytes for `conn`, as the proxy does when it
    /// flushes a connection.
    pub fn drain_outbound(&mut self, conn: u64) -> (r: Option<Vec<u8>>)
        requires
            old(self).wf(),
        ensures
            final(self).wf(),
            final(self).global == old(self).global,
            r is Some == old(self).has_conn(conn),
            r is None ==> *final(self) == *old(self),
            r matches Some(v) ==> v@ == old(self).outbound(conn) && final(self).outbound(conn)
                == Seq::<u8>::empty(),
            forall|c: u64| #[trigger] final(self).has_conn(c) == old(self).has_conn(c),
            forall|c: u64|
                old(self).has_conn(c) ==> #[trigger] final(self).receives_broadcasts(c)
                    == old(self).receives_broadcasts(c),
            forall|c: u64|
                c != conn && old(self).has_conn(c) ==> #[trigger] final(self).outbound(c)
                    == old(self).outbound(c),
    {
        let r = self.io.drain(conn);
        proof {
            assert forall|c: u64|
                c != conn && old(self).has_conn(c) implies self.io.receives_broadcasts(c) == old(self).io.receives_broadcasts(c) by {
                assert(self.io.outbound(c) == old(self).io.outbound(c));
            }
        }
        r
    }
}

} // verus!
