//! Per-connection sessions and the handshake/status/login state machine.

use crate::compose::{frame_compressed, frame_plain, Compose, SendError};
use crate::decoder::{Frame, FrameDecoder};
use crate::ident::{offline_uuid_of_bytes, Uuid};
use crate::ign::IgnMap;
use crate::json::{make_status_json, status_json_of};
use crate::skin::SkinRequest;
use crate::wire::{
    make_login_compression, make_login_success, make_query_pong, make_query_response,
    parse_login_hello, parse_query_ping, query_pong_payload, query_response_payload, ID_QUERY_PING,
    ID_QUERY_REQUEST,
};
use crate::wire::{login_compression_payload, login_success_payload, parse_handshake, ID_LOGIN_COMPRESSION, ID_LOGIN_HELLO, ID_LOGIN_SUCCESS};
use vstd::prelude::*;

verus! {

/// The protocol stage a session is in. Monotonic along the two legal paths;
/// `Terminate` is absorbing.
#[derive(Clone, Copy, PartialEq, Eq, Structural, Debug)]
pub enum PacketState {
    Handshake,
    Status,
    Login,
    Play,
    Terminate,
}

/// The single-step transitions the state machine may take: stay in place,
/// or move along Handshake→Status, Handshake→Login, Login→Play,
/// Status→Terminate.
pub open spec fn legal_transition(a: PacketState, b: PacketState) -> bool {
    a == b || (a == PacketState::Handshake && (b == PacketState::Status || b
        == PacketState::Login)) || (a == PacketState::Login && b == PacketState::Play) || (a
        == PacketState::Status && b == PacketState::Terminate)
}

/// The states reachable from `a` by legal transitions: every observation
/// sequence is a prefix of (Handshake, Status, Terminate) or of (Handshake,
/// Login, Play).
pub open spec fn reachable_state(a: PacketState, b: PacketState) -> bool {
    match a {
        PacketState::Handshake => true,
        PacketState::Status => b == PacketState::Status || b == PacketState::Terminate,
        PacketState::Login => b == PacketState::Login || b == PacketState::Play,
        PacketState::Play => b == PacketState::Play,
        PacketState::Terminate => b == PacketState::Terminate,
    }
}

/// A legal step preserves reachability.
proof fn lemma_reachable_step(a: PacketState, b: PacketState, c: PacketState)
    requires
        reachable_state(a, b),
        legal_transition(b, c),
    ensures
        reachable_state(a, c),
{
}

/// Monotonic state, pointwise: along any run whose every step is a legal
/// transition, each later state is reachable from each earlier one.
pub proof fn lemma_state_monotonic_pair(run: Seq<PacketState>, i: int, j: int)
    requires
        forall|k: int| 0 <= k < run.len() - 1 ==> legal_transition(#[trigger] run[k], run[k + 1]),
        0 <= i <= j < run.len(),
    ensures
        reachable_state(run[i], run[j]),
    decreases j - i,
{
    if i < j {
        lemma_state_monotonic_pair(run, i, j - 1);
        assert(legal_transition(run[j - 1], run[j]));
        lemma_reachable_step(run[i], run[j - 1], run[j]);
    }
}

/// Monotonic state: every observation sequence of states is a prefix of
/// (Handshake, Status, Terminate) or of (Handshake, Login, Play); once a
/// session is past a state it never returns, and Play and Terminate are
/// final.
pub proof fn lemma_state_monotonic(run: Seq<PacketState>)
    requires
        forall|k: int| 0 <= k < run.len() - 1 ==> legal_transition(#[trigger] run[k], run[k + 1]),
    ensures
        forall|i: int, j: int| 0 <= i <= j < run.len() ==> reachable_state(run[i], run[j]),
{
    assert forall|i: int, j: int| 0 <= i <= j < run.len() implies reachable_state(
        run[i],
        run[j],
    ) by {
        lemma_state_monotonic_pair(run, i, j);
    }
}

/// Marks a session for teardown by the removal pipeline; an empty reason is
/// a silent drop.
#[derive(Debug)]
pub struct PendingRemove {
    pub reason: String,
}

impl PendingRemove {
    /// A removal request with the given user-visible reason.
    pub fn new(reason: String) -> (r: PendingRemove)
        ensures
            r.reason@ == reason@,
    {
        PendingRemove { reason }
    }
}

/// A player inventory, empty at connect time; slots hold raw item ids and
/// counts.
pub struct PlayerInventory {
    pub slots: Vec<(u16, u8)>,
}

/// Outstanding block-change acknowledgements, empty at connect time.
pub struct ConfirmBlockSequences {
    pub sequences: Vec<i32>,
}

/// The animation a session currently plays; `None` at connect time.
pub struct ActiveAnimation {
    pub kind: Option<u8>,
}

/// The simulation components a prefab attaches on login success.
pub struct PlayerComponents {
    /// Tick until which the player is immune.
    pub immune_until: u64,
    /// Experience points.
    pub xp: u16,
    /// Velocity in milliblocks per tick.
    pub velocity: (i32, i32, i32),
    /// Chunk position; the null position before any placement.
    pub chunk_position: (i32, i32),
    /// Chunks queued for sending.
    pub chunk_send_queue: Vec<(i32, i32)>,
}

impl PlayerComponents {
    /// The prefab defaults applied on login.
    pub open spec fn is_prefab_default(&self) -> bool {
        self.immune_until == 0 && self.xp == 0 && self.velocity == (0i32, 0i32, 0i32)
            && self.chunk_position == (0i32, 0i32) && self.chunk_send_queue@.len() == 0
    }

    /// Builds the prefab defaults.
    pub fn prefab_default() -> (r: PlayerComponents)
        ensures
            r.is_prefab_default(),
    {
        PlayerComponents {
            immune_until: 0,
            xp: 0,
            velocity: (0, 0, 0),
            chunk_position: (0, 0),
            chunk_send_queue: Vec::new(),
        }
    }
}

/// Why a handler rejected a frame. Every kind is fatal for the session.
#[derive(Clone, Copy, PartialEq, Eq, Structural, Debug)]
pub enum SessionError {
    /// The frame does not decode as a packet this state accepts.
    BadPacket,
    /// The egress facade refused the reply.
    Send(SendError),
}

/// One connection's server-side record.
pub struct Session {
    /// The simulation entity id; unique among live sessions.
    pub entity_id: u64,
    /// The wire-protocol entity id broadcast to clients.
    pub minecraft_id: i32,
    /// The proxy-side stream id; immutable, unique among live sessions.
    pub conn: u64,
    /// The protocol stage.
    pub state: PacketState,
    /// The per-connection frame decoder.
    pub decoder: FrameDecoder,
    /// The bound username, once login succeeded.
    pub name: Option<Vec<u8>>,
    /// The bound account id, once login succeeded.
    pub uuid: Option<Uuid>,
    /// Present when the removal pipeline must tear this session down.
    pub pending_remove: Option<PendingRemove>,
    /// Empty at connect time.
    pub inventory: PlayerInventory,
    /// Empty at connect time.
    pub confirm_block_sequences: ConfirmBlockSequences,
    /// No animation at connect time.
    pub active_animation: ActiveAnimation,
    /// The prefab components, once login succeeded.
    pub components: Option<PlayerComponents>,
    /// The resolved skin, once the resolver delivered one.
    pub skin: Option<crate::skin::PlayerSkin>,
}

impl Session {
    /// A session is coherent: the decoder is usable; name, account id and
    /// prefab components exist exactly from Play onwards; compression is
    /// armed exactly from Play onwards.
    pub open spec fn wf(&self) -> bool {
        &&& self.decoder.wf()
        &&& (self.state == PacketState::Play <==> self.name is Some)
        &&& (self.state == PacketState::Play <==> self.uuid is Some)
        &&& (self.state == PacketState::Play <==> self.components is Some)
        &&& (self.state == PacketState::Play <==> self.decoder.armed())
        &&& (self.name matches Some(n) ==> n@.len() <= 16)
    }

    /// A fresh session for a newly connected stream: Handshake state, empty
    /// decoder, default components.
    pub fn connect(entity_id: u64, minecraft_id: i32, conn: u64) -> (r: Session)
        ensures
            r.wf(),
            r.entity_id == entity_id,
            r.minecraft_id == minecraft_id,
            r.conn == conn,
            r.state == PacketState::Handshake,
            r.decoder.remaining() == Seq::<u8>::empty(),
            !r.decoder.armed(),
            r.pending_remove is None,
            r.inventory.slots@.len() == 0,
            r.confirm_block_sequences.sequences@.len() == 0,
            r.active_animation.kind is None,
    {
        Session {
            entity_id,
            minecraft_id,
            conn,
            state: PacketState::Handshake,
            decoder: FrameDecoder::new(),
            name: None,
            uuid: None,
            pending_remove: None,
            inventory: PlayerInventory { slots: Vec::new() },
            confirm_block_sequences: ConfirmBlockSequences { sequences: Vec::new() },
            active_animation: ActiveAnimation { kind: None },
            components: None,
            skin: None,
        }
    }
}

/// Handles one frame in the Handshake state: decodes the handshake request
/// and moves to Status or Login by its next-state field. Fails, leaving the
/// state unchanged, exactly when the frame is not a well-formed handshake.
pub fn process_handshake(login_state: &mut PacketState, frame: &Frame) -> (r: Result<
    (),
    SessionError,
>)
    requires
        *old(login_state) == PacketState::Handshake,
    ensures
        legal_transition(*old(login_state), *final(login_state)),
        match parse_handshake(frame.body@) {
            Some(h) => frame.id == 0 ==> r is Ok && *final(login_state) == (if h.3 == 1 {
                PacketState::Status
            } else {
                PacketState::Login
            }),
            None => r is Err && *final(login_state) == *old(login_state),
        },
        frame.id != 0 ==> r is Err && *final(login_state) == *old(login_state),
{
    if frame.id != 0 {
        return Err(SessionError::BadPacket);
    }
    let h = match crate::wire::decode_handshake(frame.body.as_slice()) {
        Some(h) => h,
        None => {
            return Err(SessionError::BadPacket);
        },
    };
    if h.next_state == 1 {
        *login_state = PacketState::Status;
    } else {
        *login_state = PacketState::Login;
    }
    Ok(())
}

/// Handles one frame in the Status state.
///
/// A query request is answered with the status document built from the
/// shared configuration, uncompressed, and the state stands. A ping is
/// answered with a pong echoing its payload, uncompressed, and the session
/// moves to Terminate. Anything else is a protocol violation and fails with
/// the state and egress untouched.
pub fn process_status(
    login_state: &mut PacketState,
    frame: &Frame,
    conn: u64,
    compose: &mut Compose,
) -> (r: Result<(), SessionError>)
    requires
        *old(login_state) == PacketState::Status,
        old(compose).wf(),
        old(compose).has_conn(conn),
    ensures
        final(compose).wf(),
        final(compose).global == old(compose).global,
        legal_transition(*old(login_state), *final(login_state)),
        forall|c: u64| #[trigger] final(compose).has_conn(c) == old(compose).has_conn(c),
        forall|c: u64|
            c != conn && old(compose).has_conn(c) ==> #[trigger] final(compose).outbound(c) == old(compose).outbound(c),
        frame.id == ID_QUERY_REQUEST && frame.body@.len() == 0 ==> r is Ok && *final(login_state)
            == PacketState::Status && final(compose).outbound(conn) == old(compose).outbound(conn)
            + frame_plain(
            query_response_payload(
                status_json_of(
                    old(compose).global.player_count,
                    old(compose).global.max_players,
                    old(compose).global.description@,
                ),
            ),
        ),
        frame.id == ID_QUERY_PING ==> match parse_query_ping(frame.body@) {
            Some(p) => r is Ok && *final(login_state) == PacketState::Terminate && final(compose).outbound(conn) == old(compose).outbound(conn) + frame_plain(query_pong_payload(p)),
            None => r is Err && *final(login_state) == *old(login_state) && *final(compose)
                == *old(compose),
        },
        frame.id == ID_QUERY_REQUEST && frame.body@.len() != 0 ==> r is Err && *final(login_state)
            == *old(login_state) && *final(compose) == *old(compose),
        frame.id != ID_QUERY_REQUEST && frame.id != ID_QUERY_PING ==> r is Err && *final(login_state) == *old(login_state) && *final(compose) == *old(compose),
{
    if frame.id == ID_QUERY_REQUEST {
        if frame.body.len() != 0 {
            return Err(SessionError::BadPacket);
        }
        let json = make_status_json(
            compose.global.player_count,
            compose.global.max_players,
            compose.global.description.as_slice(),
        );
        let payload = make_query_response(json.as_slice());
        proof {
            crate::varint::lemma_varint_bytes_len(0);
            crate::varint::lemma_varint_bytes_len(json@.len() as u32);
            assert(payload@.len() <= crate::MAX_PACKET_SIZE);
        }
        match compose.unicast_no_compression(payload.as_slice(), conn) {
            Ok(()) => Ok(()),
            Err(e) => Err(SessionError::Send(e)),
        }
    } else if frame.id == ID_QUERY_PING {
        let p = match crate::wire::decode_query_ping(frame.body.as_slice()) {
            Some(p) => p,
            None => {
                return Err(SessionError::BadPacket);
            },
        };
        let payload = make_query_pong(p);
        proof {
            crate::varint::lemma_varint_bytes_len(1);
            crate::wire::lemma_be_bytes_len(p as u64 as int, 8);
            assert(payload@.len() <= crate::MAX_PACKET_SIZE);
        }
        match compose.unicast_no_compression(payload.as_slice(), conn) {
            Ok(()) => {
                *login_state = PacketState::Terminate;
                Ok(())
            },
            Err(e) => Err(SessionError::Send(e)),
        }
    } else {
        Err(SessionError::BadPacket)
    }
}

} // verus!

verus! {

/// The account id a login binds: the profile id when the client supplied
/// one, the offline UUID of the username otherwise.
pub open spec fn login_uuid_of(name: Seq<u8>, profile: Option<int>) -> int {
    match profile {
        Some(u) => u,
        None => offline_uuid_of_bytes(name),
    }
}

impl Session {
    /// Handles one frame in the Login state: the identity binder.
    ///
    /// On a well-formed login hello, in this order: sends the compression
    /// notice uncompressed; arms the decoder; binds the profile id or the
    /// offline UUID; sends the login success compressed; moves to Play;
    /// queues the username for the directory; attaches the prefab
    /// components; admits the connection to broadcasts; and schedules a
    /// skin resolution. On anything else it fails with nothing changed, and
    /// the caller tears the session down.
    pub fn process_login(
        &mut self,
        frame: &Frame,
        compose: &mut Compose,
        ign: &mut IgnMap,
    ) -> (r: Result<SkinRequest, SessionError>)
        requires
            old(self).wf(),
            old(self).state == PacketState::Login,
            old(compose).wf(),
            old(compose).has_conn(old(self).conn),
            old(ign).wf(),
        ensures
            final(self).wf(),
            final(compose).wf(),
            final(ign).wf(),
            final(compose).global == old(compose).global,
            final(self).entity_id == old(self).entity_id,
            final(self).minecraft_id == old(self).minecraft_id,
            final(self).conn == old(self).conn,
            final(self).pending_remove is Some <==> old(self).pending_remove is Some,
            final(self).decoder.remaining() == old(self).decoder.remaining(),
            legal_transition(old(self).state, final(self).state),
            forall|c: u64| #[trigger] final(compose).has_conn(c) == old(compose).has_conn(c),
            forall|c: u64|
                c != old(self).conn && old(compose).has_conn(c) ==> #[trigger] final(compose).outbound(c) == old(compose).outbound(c) && final(compose).receives_broadcasts(c)
                    == old(compose).receives_broadcasts(c),
            frame.id != ID_LOGIN_HELLO || parse_login_hello(frame.body@) is None ==> r is Err
                && *final(self) == *old(self) && *final(compose) == *old(compose) && *final(ign)
                == *old(ign),
            frame.id == ID_LOGIN_HELLO ==> match parse_login_hello(frame.body@) {
                Some((name, profile)) => {
                    let uuid_v = login_uuid_of(name, profile);
                    let threshold = old(compose).global.shared.compression_threshold;
                    &&& r matches Ok(req) && req.entity_id == old(self).entity_id
                        && req.uuid.value as int == uuid_v
                    &&& final(self).state == PacketState::Play
                    &&& final(self).name matches Some(n) && n@ == name
                    &&& final(self).uuid matches Some(u) && u.value as int == uuid_v
                    &&& final(self).components matches Some(c) && c.is_prefab_default()
                    &&& final(self).decoder.threshold() == Some(threshold)
                    &&& final(compose).outbound(old(self).conn) == old(compose).outbound(
                        old(self).conn,
                    ) + frame_plain(login_compression_payload(threshold)) + frame_compressed(
                        login_success_payload(uuid_v, name),
                        threshold,
                        old(compose).global.shared.compression_level as int,
                    )
                    &&& final(compose).receives_broadcasts(old(self).conn)
                    &&& final(ign).snapshot() == old(ign).snapshot()
                    &&& final(ign).effective() == old(ign).effective().insert(
                        name,
                        old(self).entity_id,
                    )
                },
                None => true,
            },
    {
        if frame.id != ID_LOGIN_HELLO {
            return Err(SessionError::BadPacket);
        }
        let hello = match crate::wire::decode_login_hello(frame.body.as_slice()) {
            Some(h) => h,
            None => {
                return Err(SessionError::BadPacket);
            },
        };
        let threshold = compose.global.shared.compression_threshold;
        let comp_payload = make_login_compression(threshold);
        proof {
            crate::varint::lemma_varint_bytes_len(ID_LOGIN_COMPRESSION);
            crate::varint::lemma_varint_bytes_len(threshold as u32);
        }
        match compose.unicast_no_compression(comp_payload.as_slice(), self.conn) {
            Ok(()) => (),
            Err(e) => {
                return Err(SessionError::Send(e));
            },
        }
        self.decoder.set_compression(threshold);
        let uuid = match hello.profile_id {
            Some(u) => Uuid { value: u },
            None => crate::ident::offline_uuid_bytes(hello.username.as_slice()),
        };
        let succ_payload = make_login_success(uuid.value, hello.username.as_slice());
        proof {
            crate::varint::lemma_varint_bytes_len(ID_LOGIN_SUCCESS);
            crate::varint::lemma_varint_bytes_len(hello.username@.len() as u32);
            crate::varint::lemma_varint_bytes_len(0);
            crate::wire::lemma_be_bytes_len(uuid.value as int, 16);
        }
        match compose.unicast(succ_payload.as_slice(), self.conn) {
            Ok(()) => (),
            Err(e) => {
                return Err(SessionError::Send(e));
            },
        }
        self.state = PacketState::Play;
        let name_copy = vstd::slice::slice_to_vec(hello.username.as_slice());
        ign.insert(name_copy, self.entity_id);
        self.name = Some(hello.username);
        self.uuid = Some(uuid);
        self.components = Some(PlayerComponents::prefab_default());
        let _ = compose.set_receive_broadcasts(self.conn);
        Ok(SkinRequest { entity_id: self.entity_id, uuid })
    }
}

} // verus!
