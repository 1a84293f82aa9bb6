//! The packet inspection registry: known packet shapes looked up by side,
//! protocol stage and id, and observed packets prepared for subscribers.

use vstd::prelude::*;
use vstd::slice::slice_to_vec;

verus! {

/// Which peer sent a packet.
#[derive(Clone, Copy, PartialEq, Eq, Structural, Debug)]
pub enum PacketSide {
    Serverbound,
    Clientbound,
}

/// The protocol stage a packet belongs to.
#[derive(Clone, Copy, PartialEq, Eq, Structural, Debug)]
pub enum PacketStage {
    Handshaking,
    Status,
    Login,
    Play,
}

/// One observed or registered packet shape.
pub struct Packet {
    pub side: PacketSide,
    pub stage: PacketStage,
    pub id: i32,
    /// Seconds since the epoch when the packet was observed.
    pub timestamp: Option<i64>,
    pub name: &'static str,
    /// Uncompressed packet data.
    pub data: Option<Vec<u8>>,
}

/// The bytes a packet carries, as a sequence option.
pub open spec fn data_view(d: Option<Vec<u8>>) -> Option<Seq<u8>> {
    match d {
        Some(v) => Some(v@),
        None => None,
    }
}

impl Packet {
    /// Packet identity for deduplication: side, stage, id and payload;
    /// the display name and the observation time do not count.
    pub open spec fn same_packet(&self, other: &Packet) -> bool {
        self.side == other.side && self.stage == other.stage && self.id == other.id && data_view(
            self.data,
        ) == data_view(other.data)
    }

    /// An owned copy of this packet.
    pub fn duplicate(&self) -> (r: Packet)
        ensures
            r.side == self.side,
            r.stage == self.stage,
            r.id == self.id,
            r.timestamp == self.timestamp,
            r.name == self.name,
            data_view(r.data) == data_view(self.data),
    {
        let data = match &self.data {
            Some(v) => Some(slice_to_vec(v.as_slice())),
            None => None,
        };
        Packet {
            side: self.side,
            stage: self.stage,
            id: self.id,
            timestamp: self.timestamp,
            name: self.name,
            data,
        }
    }
}

impl PartialEq for Packet {
    /// Packet identity: side, stage, id and payload.
    fn eq(&self, other: &Packet) -> (r: bool) {
        let data_same = match (&self.data, &other.data) {
            (Some(a), Some(b)) => crate::ign::bytes_eq(a.as_slice(), b.as_slice()),
            (None, None) => true,
            _ => false,
        };
        self.side == other.side && self.stage == other.stage && self.id == other.id && data_same
    }
}

impl vstd::std_specs::cmp::PartialEqSpecImpl for Packet {
    open spec fn obeys_eq_spec() -> bool {
        true
    }

    open spec fn eq_spec(&self, other: &Packet) -> bool {
        self.same_packet(other)
    }
}

/// The index of the first registered shape matching side, stage and id, or
/// `-1` when none does.
pub open spec fn find_packet(s: Seq<Packet>, side: PacketSide, stage: PacketStage, id: i32) -> int
    decreases s.len(),
{
    if s.len() == 0 {
        -1
    } else if s[0].side == side && s[0].stage == stage && s[0].id == id {
        0
    } else {
        let r = find_packet(s.drop_first(), side, stage, id);
        if r < 0 {
            -1
        } else {
            r + 1
        }
    }
}

/// `find_packet` returns either `-1` with no match present, or the first
/// matching index.
pub proof fn lemma_find_packet(s: Seq<Packet>, side: PacketSide, stage: PacketStage, id: i32)
    ensures
        find_packet(s, side, stage, id) == -1 ==> forall|i: int|
            0 <= i < s.len() ==> !((#[trigger] s[i]).side == side && s[i].stage == stage && s[i].id
                == id),
        find_packet(s, side, stage, id) >= 0 ==> 0 <= find_packet(s, side, stage, id) < s.len()
            && s[find_packet(s, side, stage, id)].side == side && s[find_packet(
            s,
            side,
            stage,
            id,
        )].stage == stage && s[find_packet(s, side, stage, id)].id == id,
    decreases s.len(),
{
    if s.len() > 0 && !(s[0].side == side && s[0].stage == stage && s[0].id == id) {
        let t = s.drop_first();
        lemma_find_packet(t, side, stage, id);
        let r = find_packet(t, side, stage, id);
        if r < 0 {
            assert forall|i: int|
                0 <= i < s.len() implies !((#[trigger] s[i]).side == side && s[i].stage == stage
                && s[i].id == id) by {
                if i > 0 {
                    assert(t[i - 1] == s[i]);
                }
            }
        } else {
            assert(s[r + 1] == t[r]);
        }
    }
}

/// The registry of known packet shapes.
pub struct PacketRegistry {
    packets: Vec<Packet>,
}

impl PacketRegistry {
    /// The registered shapes, in registration order.
    pub closed spec fn shapes(&self) -> Seq<Packet> {
        self.packets@
    }

    /// An empty registry.
    pub fn new() -> (r: PacketRegistry)
        ensures
            r.shapes() == Seq::<Packet>::empty(),
    {
        PacketRegistry { packets: Vec::new() }
    }

    /// Registers one packet shape.
    pub fn register(&mut self, packet: Packet)
        ensures
            final(self).shapes() == old(self).shapes().push(packet),
    {
        self.packets.push(packet);
    }

    /// Registers several packet shapes, in order.
    pub fn register_all(&mut self, packets: Vec<Packet>)
        ensures
            final(self).shapes() == old(self).shapes() + packets@,
    {
        let ghost s0 = self.packets@;
        let ghost ps = packets@;
        let mut rest = packets;
        proof {
            assert(ps.take(0) =~= Seq::<Packet>::empty());
            assert(s0 + ps.take(0) =~= s0);
        }
        while rest.len() > 0
            invariant
                rest@ == ps.skip(ps.len() - rest@.len()),
                rest@.len() <= ps.len(),
                self.packets@ == s0 + ps.take(ps.len() - rest@.len()),
            decreases rest@.len(),
        {
            let ghost k = ps.len() - rest@.len();
            let p = rest.remove(0);
            proof {
                assert(p == ps[k as int]);
                assert(rest@ =~= ps.skip(k as int + 1));
            }
            self.packets.push(p);
            proof {
                assert(self.packets@ =~= s0 + ps.take(k as int + 1));
            }
        }
        proof {
            assert(ps.take(ps.len() as int) =~= ps);
        }
    }

    /// The first registered shape for side, stage and id, or the unknown
    /// marker carrying the observation time.
    pub fn get_specific_packet(
        &self,
        side: PacketSide,
        stage: PacketStage,
        id: i32,
        now: i64,
    ) -> (r: Packet)
        ensures
            ({
                let f = find_packet(self.shapes(), side, stage, id);
                if f >= 0 {
                    r.side == self.shapes()[f].side && r.stage == self.shapes()[f].stage && r.id
                        == self.shapes()[f].id && r.timestamp == self.shapes()[f].timestamp
                        && r.name == self.shapes()[f].name && data_view(r.data) == data_view(
                        self.shapes()[f].data,
                    )
                } else {
                    r.side == side && r.stage == stage && r.id == id && r.timestamp == Some(now)
                        && r.data is None
                }
            }),
    {
        proof {
            lemma_find_packet(self.packets@, side, stage, id);
        }
        let mut i: usize = 0;
        while i < self.packets.len()
            invariant
                i <= self.packets@.len(),
                forall|j: int|
                    0 <= j < i ==> !((#[trigger] self.packets@[j]).side == side
                        && self.packets@[j].stage == stage && self.packets@[j].id == id),
                find_packet(self.packets@, side, stage, id) >= 0 ==> 0 <= find_packet(
                    self.packets@,
                    side,
                    stage,
                    id,
                ) < self.packets@.len(),
            decreases self.packets@.len() - i,
        {
            let p = &self.packets[i];
            if p.side == side && p.stage == stage && p.id == id {
                proof {
                    lemma_find_packet(self.packets@, side, stage, id);
                    lemma_find_packet_first(self.packets@, side, stage, id, i as int);
                }
                return self.packets[i].duplicate();
            }
            i = i + 1;
        }
        proof {
            lemma_find_packet(self.packets@, side, stage, id);
            if find_packet(self.packets@, side, stage, id) >= 0 {
                let f = find_packet(self.packets@, side, stage, id);
                assert(!(self.packets@[f].side == side && self.packets@[f].stage == stage
                    && self.packets@[f].id == id));
            }
        }
        Packet { side, stage, id, timestamp: Some(now), name: "Unknown Packet", data: None }
    }

    /// Prepares the record sent to subscribers for an observed packet: the
    /// registered shape (or the unknown marker) carrying the observed body
    /// and time.
    pub fn process(
        &self,
        side: PacketSide,
        stage: PacketStage,
        id: i32,
        body: &[u8],
        now: i64,
    ) -> (r: Packet)
        ensures
            ({
                let f = find_packet(self.shapes(), side, stage, id);
                &&& data_view(r.data) == Some(body@)
                &&& r.timestamp == Some(now)
                &&& (f >= 0 ==> r.side == self.shapes()[f].side && r.stage == self.shapes()[f].stage
                    && r.id == self.shapes()[f].id && r.name == self.shapes()[f].name)
                &&& (f < 0 ==> r.side == side && r.stage == stage && r.id == id)
            }),
    {
        let mut p = self.get_specific_packet(side, stage, id, now);
        p.data = Some(slice_to_vec(body));
        p.timestamp = Some(now);
        p
    }
}

impl Default for PacketRegistry {
    /// An empty registry.
    fn default() -> (r: PacketRegistry)
        ensures
            r.shapes() == Seq::<Packet>::empty(),
    {
        PacketRegistry::new()
    }
}

/// A match with no earlier match is what `find_packet` returns.
proof fn lemma_find_packet_first(
    s: Seq<Packet>,
    side: PacketSide,
    stage: PacketStage,
    id: i32,
    i: int,
)
    requires
        0 <= i < s.len(),
        s[i].side == side && s[i].stage == stage && s[i].id == id,
        forall|j: int|
            0 <= j < i ==> !((#[trigger] s[j]).side == side && s[j].stage == stage && s[j].id
                == id),
    ensures
        find_packet(s, side, stage, id) == i,
    decreases s.len(),
{
    lemma_find_packet(s, side, stage, id);
    let f = find_packet(s, side, stage, id);
    if f == -1 {
        assert(!(s[i].side == side && s[i].stage == stage && s[i].id == id));
    } else if f < i {
        assert(!(s[f].side == side && s[f].stage == stage && s[f].id == id));
    } else if f > i {
        lemma_find_packet_before(s, side, stage, id, i);
    }
}

/// No match can sit before the found index.
proof fn lemma_find_packet_before(
    s: Seq<Packet>,
    side: PacketSide,
    stage: PacketStage,
    id: i32,
    i: int,
)
    requires
        0 <= i < s.len(),
        s[i].side == side && s[i].stage == stage && s[i].id == id,
    ensures
        find_packet(s, side, stage, id) <= i,
    decreases s.len(),
{
    if s.len() > 0 && !(s[0].side == side && s[0].stage == stage && s[0].id == id) {
        let t = s.drop_first();
        assert(t[i - 1] == s[i]);
        lemma_find_packet_before(t, side, stage, id, i - 1);
    }
}

} // verus!
