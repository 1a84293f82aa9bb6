//! The server world: live sessions, the two directories, the egress facade
//! and the receive mailbox, driven through the staged tick schedule.

use crate::compose::{Compose, Global};
use crate::decoder::Frame;
use crate::ign::IgnMap;
use crate::json::make_chat_json;
use crate::lookup::StreamLookup;
use crate::queue::ReceiveQueue;
use crate::session::{
    process_handshake, process_status, reachable_state, PacketState, PendingRemove, Session,
};
use crate::skin::{SkinRequest, SkinResponse};
use crate::wire::{
    entities_destroy_payload, make_entities_destroy, make_login_disconnect, make_play_disconnect,
    make_player_remove, player_remove_payload,
};
use vstd::prelude::*;

verus! {

/// The central server state owning the ingress pipeline.
pub struct Hyperion {
    /// Live sessions, in creation order.
    pub sessions: Vec<Session>,
    /// Connection to entity directory; bijective over live sessions.
    pub stream_lookup: StreamLookup,
    /// Username to entity directory, reconciled once per tick.
    pub ign_map: IgnMap,
    /// The egress facade.
    pub compose: Compose,
    /// The mailbox the proxy fills.
    pub receive: ReceiveQueue,
    /// The next entity id to assign.
    pub next_entity_id: u64,
    /// Skin resolutions scheduled by logins this tick; the async side drains
    /// them.
    pub skin_requests: Vec<SkinRequest>,
    /// Frames delivered to Play sessions, handed to the gameplay layer.
    pub play_events: Vec<(u64, Frame)>,
}

/// The world invariant over the session list and its directories.
pub open spec fn sessions_wf(ss: Seq<Session>, lookup: StreamLookup, compose: Compose) -> bool {
    &&& forall|i: int| 0 <= i < ss.len() ==> (#[trigger] ss[i]).wf()
    &&& forall|i: int, j: int|
        0 <= i < j < ss.len() ==> ss[i].entity_id != ss[j].entity_id && ss[i].conn != ss[j].conn
    &&& forall|i: int| 0 <= i < ss.len() ==> compose.has_conn((#[trigger] ss[i]).conn)
    &&& forall|i: int|
        0 <= i < ss.len() ==> lookup.view_map().contains_key((#[trigger] ss[i]).conn)
            && lookup.view_map()[ss[i].conn] == ss[i].entity_id
    &&& forall|c: u64|
        lookup.view_map().contains_key(c) ==> exists|i: int| 0 <= i < ss.len() && (#[trigger] ss[i]).conn == c
}

impl Hyperion {
    /// The whole world is coherent. In particular the connection directory
    /// is bijective over live sessions: it binds exactly the live
    /// connections, each to its session's entity, and distinct sessions
    /// have distinct connections and entities.
    pub open spec fn wf(&self) -> bool {
        &&& self.compose.wf()
        &&& self.ign_map.wf()
        &&& self.stream_lookup.wf()
        &&& sessions_wf(self.sessions@, self.stream_lookup, self.compose)
        &&& forall|i: int|
            0 <= i < self.sessions@.len() ==> (#[trigger] self.sessions@[i]).entity_id
                < self.next_entity_id
    }

    /// A fresh world with no sessions.
    pub fn new(global: Global) -> (r: Hyperion)
        requires
            global.wf(),
        ensures
            r.wf(),
            r.sessions@.len() == 0,
            r.compose.global == global,
    {
        Hyperion {
            sessions: Vec::new(),
            stream_lookup: StreamLookup::new(),
            ign_map: IgnMap::new(),
            compose: Compose::new(global),
            receive: ReceiveQueue::new(),
            next_entity_id: 1,
            skin_requests: Vec::new(),
            play_events: Vec::new(),
        }
    }

    /// The session index for a connection, when one exists.
    fn session_index(&self, conn: u64) -> (r: Option<usize>)
        requires
            self.wf(),
        ensures
            match r {
                Some(i) => i < self.sessions@.len() && self.sessions@[i as int].conn == conn,
                None => forall|i: int|
                    0 <= i < self.sessions@.len() ==> (#[trigger] self.sessions@[i]).conn != conn,
            },
    {
        let mut i: usize = 0;
        while i < self.sessions.len()
            invariant
                i <= self.sessions@.len(),
                forall|j: int| 0 <= j < i ==> (#[trigger] self.sessions@[j]).conn != conn,
            decreases self.sessions@.len() - i,
        {
            if self.sessions[i].conn == conn {
                return Some(i);
            }
            i = i + 1;
        }
        None
    }

    /// The tick-boundary reconciliation of the username directory: queued
    /// changes become the snapshot that lookups see.
    pub fn update_ign_map(&mut self)
        requires
            old(self).wf(),
        ensures
            final(self).wf(),
            final(self).ign_map.snapshot() == old(self).ign_map.effective(),
            final(self).ign_map.pending_ops().len() == 0,
            final(self).sessions@ == old(self).sessions@,
            final(self).compose == old(self).compose,
            final(self).stream_lookup == old(self).stream_lookup,
            final(self).receive == old(self).receive,
            old(self).ign_consistent() ==> final(self).ign_consistent(),
    {
        self.ign_map.update();
        proof {
            assert(self.ign_map.effective() =~= old(self).ign_map.effective());
            if old(self).ign_consistent() {
                assert forall|i: int| #[trigger] self.is_play(i) implies self.ign_map.effective().contains_key(
                    self.play_name(i),
                ) && self.ign_map.effective()[self.play_name(i)]
                    == self.sessions@[i].entity_id by {
                    assert(old(self).is_play(i));
                }
                assert forall|k: Seq<u8>| #[trigger] self.ign_map.effective().contains_key(
                    k,
                ) implies exists|i: int| self.is_play(i) && self.play_name(i) == k by {
                    assert(old(self).ign_map.effective().contains_key(k));
                    let i = choose|i: int|
                        old(self).is_play(i) && old(self).play_name(i) == k;
                    assert(self.is_play(i) && self.play_name(i) == k);
                }
                assert forall|i: int, j: int|
                    #[trigger] self.is_play(i) && #[trigger] self.is_play(j) && i != j implies self.play_name(
                    i,
                ) != self.play_name(j) by {
                    assert(old(self).is_play(i) && old(self).is_play(j));
                }
            }
        }
    }

    /// Drains connect and disconnect events: connects become fresh
    /// Handshake sessions with an outbound channel and a directory binding;
    /// disconnects mark their session for removal with the "disconnected"
    /// reason.
    pub fn generate_ingress_events(&mut self)
        requires
            old(self).wf(),
        ensures
            final(self).wf(),
            final(self).receive.connects().len() == 0,
            final(self).receive.disconnects().len() == 0,
            final(self).receive.mails() == old(self).receive.mails(),
    {
        let connects = self.receive.drain_connects();
        let mut k: usize = 0;
        while k < connects.len()
            invariant
                self.wf(),
                self.receive.connects().len() == 0,
                self.receive.disconnects() == old(self).receive.disconnects(),
                self.receive.mails() == old(self).receive.mails(),
            decreases connects@.len() - k,
        {
            let conn = connects[k];
            self.spawn_session(conn);
            k = k + 1;
        }
        let disconnects = self.receive.drain_disconnects();
        let mut k2: usize = 0;
        while k2 < disconnects.len()
            invariant
                self.wf(),
                self.receive.connects().len() == 0,
                self.receive.disconnects().len() == 0,
                self.receive.mails() == old(self).receive.mails(),
            decreases disconnects@.len() - k2,
        {
            let conn = disconnects[k2];
            self.mark_disconnected(conn);
            k2 = k2 + 1;
        }
    }

    /// Creates a fresh session for a new connection; a connection id that is
    /// already live is left alone.
    pub fn spawn_session(&mut self, conn: u64)
        requires
            old(self).wf(),
        ensures
            final(self).wf(),
            final(self).receive == old(self).receive,
            old(self).stream_lookup.view_map().contains_key(conn) ==> *final(self) == *old(self),
            !old(self).stream_lookup.view_map().contains_key(conn) && old(self).next_entity_id
                < u64::MAX ==> {
                let fresh = final(self).sessions@.last();
                &&& final(self).sessions@.len() == old(self).sessions@.len() + 1
                &&& forall|j: int|
                    0 <= j < old(self).sessions@.len() ==> final(self).sessions@[j] == old(self).sessions@[j]
                &&& fresh.conn == conn
                &&& fresh.entity_id == old(self).next_entity_id
                &&& fresh.state == PacketState::Handshake
                &&& fresh.pending_remove is None
                &&& !fresh.decoder.armed()
                &&& final(self).stream_lookup.view_map() == old(self).stream_lookup.view_map().insert(conn, old(self).next_entity_id)
                &&& final(self).ign_map == old(self).ign_map
            },
    {
        match self.stream_lookup.get(conn) {
            Some(_) => {
            },
            None => {
                proof {
                    assert forall|i: int|
                        0 <= i < self.sessions@.len() implies (#[trigger] self.sessions@[i]).conn
                        != conn by {
                        assert(self.stream_lookup.view_map().contains_key(self.sessions@[i].conn));
                    }
                }
                let entity_id = self.next_entity_id;
                if entity_id == u64::MAX {
                    return ;
                }
                self.next_entity_id = entity_id + 1;
                let minecraft_id = #[verifier::truncate] (entity_id as i32);
                let s = Session::connect(entity_id, minecraft_id, conn);
                self.compose.register_connection_if_new(conn);
                self.stream_lookup.insert(conn, entity_id);
                let ghost ss0 = self.sessions@;
                self.sessions.push(s);
                proof {
                    assert(self.sessions@.drop_last() =~= ss0);
                    assert forall|c: u64|
                        self.stream_lookup.view_map().contains_key(c) implies exists|i: int|
                        0 <= i < self.sessions@.len() && (#[trigger] self.sessions@[i]).conn
                            == c by {
                        if c == conn {
                            assert(self.sessions@[ss0.len() as int].conn == c);
                        } else {
                            let i = choose|i: int|
                                0 <= i < ss0.len() && (#[trigger] ss0[i]).conn == c;
                            assert(self.sessions@[i].conn == c);
                        }
                    }
                }
            },
        }
    }

    /// Marks the session of a closed transport for removal, with the
    /// standard reason; an unknown connection is ignored.
    pub fn mark_disconnected(&mut self, conn: u64)
        requires
            old(self).wf(),
        ensures
            final(self).wf(),
            final(self).receive == old(self).receive,
            final(self).sessions@.len() == old(self).sessions@.len(),
            forall|j: int|
                0 <= j < old(self).sessions@.len() && (#[trigger] old(self).sessions@[j]).conn
                    != conn ==> final(self).sessions@[j] == old(self).sessions@[j],
            forall|j: int|
                0 <= j < old(self).sessions@.len() && (#[trigger] old(self).sessions@[j]).conn
                    == conn ==> {
                    let before = old(self).sessions@[j];
                    let after = final(self).sessions@[j];
                    &&& after.conn == before.conn
                    &&& after.entity_id == before.entity_id
                    &&& after.state == before.state
                    &&& after.decoder == before.decoder
                    &&& after.name == before.name
                    &&& after.uuid == before.uuid
                    &&& (after.pending_remove matches Some(pr) && pr.reason@ == "disconnected"@)
                },
    {
        let idx = match self.session_index(conn) {
            Some(i) => i,
            None => {
                return ;
            },
        };
        let ghost ss0 = self.sessions@;
        let mut s = self.sessions.remove(idx);
        s.pending_remove = Some(PendingRemove::new(disconnect_reason()));
        self.sessions.insert(idx, s);
        proof {
            assert(self.sessions@ =~= ss0.update(idx as int, self.sessions@[idx as int]));
            assert forall|c: u64|
                self.stream_lookup.view_map().contains_key(c) implies exists|i: int|
                0 <= i < self.sessions@.len() && (#[trigger] self.sessions@[i]).conn == c by {
                let i = choose|i: int| 0 <= i < ss0.len() && (#[trigger] ss0[i]).conn == c;
                assert(self.sessions@[i].conn == c);
            }
        }
    }

    /// Copies each pending byte delivery into its session's decoder, in
    /// mailbox order, compacting the buffer first; deliveries for unknown
    /// connections are dropped.
    pub fn ingress_to_ecs(&mut self)
        requires
            old(self).wf(),
        ensures
            final(self).wf(),
            final(self).receive.mails().len() == 0,
    {
        let mails = self.receive.drain_mails();
        let mut k: usize = 0;
        while k < mails.len()
            invariant
                self.wf(),
                self.receive.mails().len() == 0,
            decreases mails@.len() - k,
        {
            let conn = mails[k].conn;
            let idx = match self.session_index(conn) {
                Some(i) => i,
                None => {
                    k = k + 1;
                    continue ;
                },
            };
            let ghost ss0 = self.sessions@;
            let mut s = self.sessions.remove(idx);
            s.decoder.shift_excess();
            s.decoder.queue_slice(mails[k].bytes.as_slice());
            self.sessions.insert(idx, s);
            proof {
                assert(self.sessions@ =~= ss0.update(idx as int, self.sessions@[idx as int]));
                assert forall|c: u64|
                    self.stream_lookup.view_map().contains_key(c) implies exists|i: int|
                    0 <= i < self.sessions@.len() && (#[trigger] self.sessions@[i]).conn == c by {
                    let i = choose|i: int| 0 <= i < ss0.len() && (#[trigger] ss0[i]).conn == c;
                    assert(self.sessions@[i].conn == c);
                }
            }
            k = k + 1;
        }
    }
}

/// The reason attached when the proxy reports a closed transport.
fn disconnect_reason() -> (r: String)
    ensures
        r@ == "disconnected"@,
{
    let r = "disconnected".to_owned();
    proof {
        reveal_strlit("disconnected");
    }
    r
}

} // verus!

verus! {


/// The predicate a session must meet to survive the removal pipeline.
pub open spec fn keep_filter() -> spec_fn(Session) -> bool {
    |s: Session| s.pending_remove is None
}

/// The predicate selecting the sessions the removal pipeline takes.
pub open spec fn marked_filter() -> spec_fn(Session) -> bool {
    |s: Session| s.pending_remove is Some
}

/// The connections of the sessions marked for removal.
pub open spec fn marked_conns(ss: Seq<Session>) -> Set<u64> {
    Set::new(
        |c: u64|
            exists|j: int|
                0 <= j < ss.len() && (#[trigger] ss[j]).pending_remove is Some && ss[j].conn == c,
    )
}

/// The bound names of the sessions marked for removal.
pub open spec fn marked_names(ss: Seq<Session>) -> Set<Seq<u8>> {
    Set::new(
        |k: Seq<u8>|
            exists|j: int|
                0 <= j < ss.len() && (#[trigger] ss[j]).pending_remove is Some && (ss[j].name
                    matches Some(n) && n@ == k),
    )
}

/// The bytes the removal of `victims`, in order, appends to every channel in
/// the broadcast set: per logged-in victim, its entity-destroy frame then its
/// player-remove frame.
pub open spec fn removal_broadcasts(victims: Seq<Session>, compose: Compose) -> Seq<u8>
    decreases victims.len(),
{
    if victims.len() == 0 {
        Seq::empty()
    } else {
        let rest = removal_broadcasts(victims.drop_last(), compose);
        match victims.last().uuid {
            Some(u) => rest + compose.compressed_frame_of(
                entities_destroy_payload(victims.last().minecraft_id),
            ) + compose.compressed_frame_of(player_remove_payload(u.value as int)),
            None => rest,
        }
    }
}

impl Hyperion {
    /// Tears one marked session down, in the contractual order: broadcast
    /// the entity destroy, broadcast the player remove, unicast the reason
    /// to the victim when one is set, then destroy the session and drop its
    /// directory bindings. Sessions that never logged in vanish silently.
    pub fn remove_marked(&mut self, idx: usize)
        requires
            old(self).wf(),
            idx < old(self).sessions@.len(),
        ensures
            final(self).wf(),
            final(self).sessions@ == old(self).sessions@.remove(idx as int),
            final(self).receive == old(self).receive,
            final(self).compose.global == old(self).compose.global,
            final(self).ign_map.snapshot() == old(self).ign_map.snapshot(),
            final(self).stream_lookup.view_map() == old(self).stream_lookup.view_map().remove(
                old(self).sessions@[idx as int].conn,
            ),
            old(self).sessions@[idx as int].name matches Some(n) ==> final(self).ign_map.effective()
                == old(self).ign_map.effective().remove(n@),
            old(self).sessions@[idx as int].name is None ==> final(self).ign_map.effective() == old(self).ign_map.effective(),
            forall|c: u64| #[trigger] final(self).compose.has_conn(c) == old(self).compose.has_conn(c),
            forall|c: u64|
                old(self).compose.has_conn(c) ==> #[trigger] final(self).compose.receives_broadcasts(c)
                    == old(self).compose.receives_broadcasts(c),
            old(self).sessions@[idx as int].uuid matches Some(u) ==> {
                let victim = old(self).sessions@[idx as int];
                let destroy_frame = old(self).compose.compressed_frame_of(
                    entities_destroy_payload(victim.minecraft_id),
                );
                let remove_frame = old(self).compose.compressed_frame_of(
                    player_remove_payload(u.value as int),
                );
                forall|c: u64|
                    c != victim.conn && old(self).compose.has_conn(c) ==> #[trigger] final(self).compose.outbound(c) == if old(self).compose.receives_broadcasts(c) {
                        old(self).compose.outbound(c) + destroy_frame + remove_frame
                    } else {
                        old(self).compose.outbound(c)
                    }
            },
            old(self).sessions@[idx as int].uuid is None ==> forall|c: u64|
                old(self).compose.has_conn(c) ==> #[trigger] final(self).compose.outbound(c)
                    == old(self).compose.outbound(c),
            ({
                let victim = old(self).sessions@[idx as int];
                &&& victim.uuid matches Some(u)
                &&& victim.pending_remove matches Some(pr)
                &&& 0 < vstd::utf8::encode_utf8(pr.reason@).len() <= 4096
                &&& old(self).compose.has_conn(victim.conn)
            }) ==> {
                let victim = old(self).sessions@[idx as int];
                let u = victim.uuid->Some_0;
                let pr = victim.pending_remove->Some_0;
                let broadcasts = if old(self).compose.receives_broadcasts(victim.conn) {
                    old(self).compose.compressed_frame_of(
                        entities_destroy_payload(victim.minecraft_id),
                    ) + old(self).compose.compressed_frame_of(
                        player_remove_payload(u.value as int),
                    )
                } else {
                    Seq::<u8>::empty()
                };
                final(self).compose.outbound(victim.conn) == old(self).compose.outbound(
                    victim.conn,
                ) + broadcasts + crate::compose::frame_plain(
                    crate::wire::play_disconnect_payload(
                        crate::json::chat_json_of(vstd::utf8::encode_utf8(pr.reason@)),
                    ),
                )
            },
    {
        let ghost ss0 = self.sessions@;
        let mut victim = self.sessions.remove(idx);
        let has_uuid = victim.uuid.is_some();
        if has_uuid {
            let u = match victim.uuid {
                Some(u) => u,
                None => {
                    proof {
                        assert(false);
                    }
                    crate::ident::Uuid { value: 0 }
                },
            };
            let destroy_payload = make_entities_destroy(victim.minecraft_id);
            proof {
                crate::varint::lemma_varint_bytes_len(crate::wire::ID_ENTITIES_DESTROY);
                crate::varint::lemma_varint_bytes_len(1);
                crate::varint::lemma_varint_bytes_len(victim.minecraft_id as u32);
            }
            let _ = self.compose.broadcast(destroy_payload.as_slice());
            let remove_payload = make_player_remove(u.value);
            proof {
                crate::varint::lemma_varint_bytes_len(crate::wire::ID_PLAYER_REMOVE);
                crate::varint::lemma_varint_bytes_len(1);
                crate::wire::lemma_be_bytes_len(u.value as int, 16);
            }
            let _ = self.compose.broadcast(remove_payload.as_slice());
            match &victim.pending_remove {
                Some(pr) => {
                    let reason_bytes = pr.reason.as_str().as_bytes();
                    if reason_bytes.len() != 0 && reason_bytes.len() <= 4096 {
                        let chat = make_chat_json(reason_bytes);
                        if chat.len() <= 0x7FFF {
                            let payload = make_play_disconnect(chat.as_slice());
                            proof {
                                crate::varint::lemma_varint_bytes_len(
                                    crate::wire::ID_PLAY_DISCONNECT,
                                );
                                crate::varint::lemma_varint_bytes_len(chat@.len() as u32);
                            }
                            if payload.len() <= crate::MAX_PACKET_SIZE {
                                let _ = self.compose.unicast_no_compression(
                                    payload.as_slice(),
                                    victim.conn,
                                );
                            }
                        }
                    }
                },
                None => {},
            }
        }
        self.stream_lookup.remove(victim.conn);
        match victim.name {
            Some(n) => {
                self.ign_map.remove(n);
            },
            None => {},
        }
        proof {
            ss0.remove_ensures(idx as int);
            assert(self.sessions@ =~= ss0.remove(idx as int));
            assert forall|c: u64|
                self.stream_lookup.view_map().contains_key(c) implies exists|i: int|
                0 <= i < self.sessions@.len() && (#[trigger] self.sessions@[i]).conn == c by {
                let i = choose|i: int| 0 <= i < ss0.len() && (#[trigger] ss0[i]).conn == c;
                assert(c != ss0[idx as int].conn);
                assert(i != idx);
                if i < idx {
                    assert(self.sessions@[i].conn == c);
                } else {
                    assert(self.sessions@[i - 1].conn == c);
                }
            }
            assert forall|i: int|
                0 <= i < self.sessions@.len() implies self.stream_lookup.view_map().contains_key(
                (#[trigger] self.sessions@[i]).conn,
            ) && self.stream_lookup.view_map()[self.sessions@[i].conn]
                == self.sessions@[i].entity_id by {
                let io = if i < idx {
                    i
                } else {
                    i + 1
                };
                assert(self.sessions@[i] == ss0[io]);
                assert(ss0[io].conn != ss0[idx as int].conn);
            }
        }
    }

    /// Drains every session marked for removal through the removal
    /// pipeline, in session order. Afterwards exactly the unmarked sessions
    /// remain, in their order; every removed connection has left the stream
    /// directory and every removed bound name has a removal queued in the
    /// username directory; and every channel in the broadcast set observed,
    /// per logged-in victim in order, the entity-destroy frame then the
    /// player-remove frame. A marked session never re-enters the simulation:
    /// it is destroyed within this very stage.
    pub fn process_removals(&mut self)
        requires
            old(self).wf(),
        ensures
            final(self).wf(),
            final(self).receive == old(self).receive,
            final(self).compose.global == old(self).compose.global,
            final(self).ign_map.snapshot() == old(self).ign_map.snapshot(),
            final(self).sessions@ == old(self).sessions@.filter(keep_filter()),
            final(self).stream_lookup.view_map() == old(self).stream_lookup.view_map().remove_keys(
                marked_conns(old(self).sessions@),
            ),
            final(self).ign_map.effective() == old(self).ign_map.effective().remove_keys(
                marked_names(old(self).sessions@),
            ),
            forall|c: u64| #[trigger] final(self).compose.has_conn(c) == old(self).compose.has_conn(c),
            forall|c: u64|
                old(self).compose.has_conn(c) ==> #[trigger] final(self).compose.receives_broadcasts(c)
                    == old(self).compose.receives_broadcasts(c),
            forall|c: u64|
                old(self).compose.has_conn(c) && !marked_conns(old(self).sessions@).contains(c)
                    ==> #[trigger] final(self).compose.outbound(c) == if old(self).compose.receives_broadcasts(c) {
                    old(self).compose.outbound(c) + removal_broadcasts(
                        old(self).sessions@.filter(marked_filter()),
                        old(self).compose,
                    )
                } else {
                    old(self).compose.outbound(c)
                },
            forall|i: int|
                0 <= i < final(self).sessions@.len() ==> (#[trigger] final(self).sessions@[i]).pending_remove is None,
    {
        let ghost orig = self.sessions@;
        let mut i: usize = 0;
        let ghost mut m: int = 0;
        proof {
            reveal(Seq::filter);
            assert(orig.take(0) =~= Seq::<Session>::empty());
            assert(orig.take(0).filter(keep_filter()) =~= Seq::<Session>::empty());
            assert(orig.take(0).filter(marked_filter()) =~= Seq::<Session>::empty());
            assert(self.sessions@ =~= orig.take(0).filter(keep_filter()) + orig.skip(0));
            assert(marked_conns(orig.take(0)) =~= Set::<u64>::empty());
            assert(marked_names(orig.take(0)) =~= Set::<Seq<u8>>::empty());
            assert(self.stream_lookup.view_map() =~= old(self).stream_lookup.view_map().remove_keys(
                marked_conns(orig.take(0)),
            ));
            assert(self.ign_map.effective() =~= old(self).ign_map.effective().remove_keys(
                marked_names(orig.take(0)),
            ));
        }
        while i < self.sessions.len()
            invariant
                self.wf(),
                self.receive == old(self).receive,
                self.compose.global == old(self).compose.global,
                self.ign_map.snapshot() == old(self).ign_map.snapshot(),
                orig == old(self).sessions@,
                0 <= m <= orig.len(),
                i as int == orig.take(m).filter(keep_filter()).len(),
                self.sessions@ == orig.take(m).filter(keep_filter()) + orig.skip(m),
                self.stream_lookup.view_map() == old(self).stream_lookup.view_map().remove_keys(
                    marked_conns(orig.take(m)),
                ),
                self.ign_map.effective() == old(self).ign_map.effective().remove_keys(
                    marked_names(orig.take(m)),
                ),
                forall|c: u64| #[trigger] self.compose.has_conn(c) == old(self).compose.has_conn(c),
                forall|c: u64|
                    old(self).compose.has_conn(c) ==> #[trigger] self.compose.receives_broadcasts(c)
                        == old(self).compose.receives_broadcasts(c),
                forall|c: u64|
                    old(self).compose.has_conn(c) && !marked_conns(orig.take(m)).contains(c)
                        ==> #[trigger] self.compose.outbound(c) == if old(self).compose.receives_broadcasts(c) {
                        old(self).compose.outbound(c) + removal_broadcasts(
                            orig.take(m).filter(marked_filter()),
                            old(self).compose,
                        )
                    } else {
                        old(self).compose.outbound(c)
                    },
                forall|j: int|
                    0 <= j < i ==> (#[trigger] self.sessions@[j]).pending_remove is None,
            decreases self.sessions@.len() - i,
        {
            proof {
                reveal(Seq::filter);
                orig.take(m).filter_lemma(keep_filter());
                assert(self.sessions@[i as int] == orig.skip(m)[0]);
                assert(orig.skip(m)[0] == orig[m]);
                assert(orig.take(m + 1).drop_last() =~= orig.take(m));
                assert(orig.take(m + 1).last() == orig[m]);
            }
            let ghost victim = orig[m];
            if self.sessions[i].pending_remove.is_some() {
                let ghost pre = *self;
                self.remove_marked(i);
                proof {
                    reveal(Seq::filter);
                    assert(orig.take(m + 1).filter(keep_filter()) =~= orig.take(m).filter(
                        keep_filter(),
                    ));
                    assert(orig.take(m + 1).filter(marked_filter()) =~= orig.take(m).filter(
                        marked_filter(),
                    ).push(victim));
                    assert(pre.sessions@.remove(i as int) =~= orig.take(m).filter(keep_filter())
                        + orig.skip(m + 1)) by {
                        pre.sessions@.remove_ensures(i as int);
                        assert(orig.skip(m).drop_first() =~= orig.skip(m + 1));
                    }
                    assert(self.sessions@ =~= orig.take(m + 1).filter(keep_filter()) + orig.skip(
                        m + 1,
                    ));
                    assert(marked_conns(orig.take(m + 1)) =~= marked_conns(orig.take(m)).insert(
                        victim.conn,
                    )) by {
                        assert forall|c: u64| marked_conns(orig.take(m + 1)).contains(c)
                            implies marked_conns(orig.take(m)).insert(victim.conn).contains(c) by {
                            let j = choose|j: int|
                                0 <= j < orig.take(m + 1).len() && (#[trigger] orig.take(
                                    m + 1,
                                )[j]).pending_remove is Some && orig.take(m + 1)[j].conn == c;
                            if j < m {
                                assert(orig.take(m)[j] == orig.take(m + 1)[j]);
                                assert(marked_conns(orig.take(m)).contains(c));
                            }
                        }
                        assert forall|c: u64| marked_conns(orig.take(m)).insert(
                            victim.conn,
                        ).contains(c) implies marked_conns(orig.take(m + 1)).contains(c) by {
                            if c == victim.conn {
                                assert(orig.take(m + 1)[m].pending_remove is Some && orig.take(
                                    m + 1,
                                )[m].conn == c);
                            } else {
                                let j = choose|j: int|
                                    0 <= j < orig.take(m).len() && (#[trigger] orig.take(
                                        m,
                                    )[j]).pending_remove is Some && orig.take(m)[j].conn == c;
                                assert(orig.take(m + 1)[j] == orig.take(m)[j]);
                            }
                        }
                    }
                    assert(self.stream_lookup.view_map() =~= old(self).stream_lookup.view_map().remove_keys(marked_conns(orig.take(m + 1))));
                    match victim.name {
                        Some(n) => {
                            assert(marked_names(orig.take(m + 1)) =~= marked_names(
                                orig.take(m),
                            ).insert(n@)) by {
                                assert forall|k: Seq<u8>| marked_names(orig.take(m + 1)).contains(
                                    k,
                                ) implies marked_names(orig.take(m)).insert(n@).contains(k) by {
                                    let j = choose|j: int|
                                        0 <= j < orig.take(m + 1).len() && (#[trigger] orig.take(
                                            m + 1,
                                        )[j]).pending_remove is Some && (orig.take(
                                            m + 1,
                                        )[j].name matches Some(nn) && nn@ == k);
                                    if j < m {
                                        assert(orig.take(m)[j] == orig.take(m + 1)[j]);
                                        assert(marked_names(orig.take(m)).contains(k));
                                    }
                                }
                                assert forall|k: Seq<u8>| marked_names(orig.take(m)).insert(
                                    n@,
                                ).contains(k) implies marked_names(orig.take(m + 1)).contains(
                                    k,
                                ) by {
                                    if k == n@ {
                                        assert((#[trigger] orig.take(m + 1)[m]).pending_remove is Some
                                            && (orig.take(m + 1)[m].name matches Some(nn) && nn@
                                            == k));
                                    } else {
                                        let j = choose|j: int|
                                            0 <= j < orig.take(m).len() && (#[trigger] orig.take(
                                                m,
                                            )[j]).pending_remove is Some && (orig.take(
                                                m,
                                            )[j].name matches Some(nn) && nn@ == k);
                                        assert(orig.take(m + 1)[j] == orig.take(m)[j]);
                                    }
                                }
                            }
                        },
                        None => {
                            assert(marked_names(orig.take(m + 1)) =~= marked_names(orig.take(m)))
                                by {
                                assert forall|k: Seq<u8>| marked_names(orig.take(m + 1)).contains(
                                    k,
                                ) implies marked_names(orig.take(m)).contains(k) by {
                                    let j = choose|j: int|
                                        0 <= j < orig.take(m + 1).len() && (#[trigger] orig.take(
                                            m + 1,
                                        )[j]).pending_remove is Some && (orig.take(
                                            m + 1,
                                        )[j].name matches Some(nn) && nn@ == k);
                                    assert(j != m);
                                    assert(orig.take(m)[j] == orig.take(m + 1)[j]);
                                }
                                assert forall|k: Seq<u8>| marked_names(orig.take(m)).contains(
                                    k,
                                ) implies marked_names(orig.take(m + 1)).contains(k) by {
                                    let j = choose|j: int|
                                        0 <= j < orig.take(m).len() && (#[trigger] orig.take(
                                            m,
                                        )[j]).pending_remove is Some && (orig.take(
                                            m,
                                        )[j].name matches Some(nn) && nn@ == k);
                                    assert(orig.take(m + 1)[j] == orig.take(m)[j]);
                                }
                            }
                        },
                    }
                    assert(self.ign_map.effective() =~= old(self).ign_map.effective().remove_keys(
                        marked_names(orig.take(m + 1)),
                    ));
                    assert forall|c: u64|
                        old(self).compose.has_conn(c) && !marked_conns(orig.take(m + 1)).contains(
                            c,
                        ) implies #[trigger] self.compose.outbound(c) == (if old(self).compose.receives_broadcasts(c) {
                        old(self).compose.outbound(c) + removal_broadcasts(
                            orig.take(m + 1).filter(marked_filter()),
                            old(self).compose,
                        )
                    } else {
                        old(self).compose.outbound(c)
                    }) by {
                        assert(!marked_conns(orig.take(m)).contains(c));
                        assert(c != victim.conn);
                        let prior = removal_broadcasts(
                            orig.take(m).filter(marked_filter()),
                            old(self).compose,
                        );
                        assert(orig.take(m + 1).filter(marked_filter()).drop_last() =~= orig.take(
                            m,
                        ).filter(marked_filter()));
                        match victim.uuid {
                            Some(u) => {
                                let df = old(self).compose.compressed_frame_of(
                                    entities_destroy_payload(victim.minecraft_id),
                                );
                                let rf = old(self).compose.compressed_frame_of(
                                    player_remove_payload(u.value as int),
                                );
                                if old(self).compose.receives_broadcasts(c) {
                                    assert(self.compose.outbound(c) =~= old(self).compose.outbound(c) + (prior + df + rf));
                                }
                            },
                            None => {},
                        }
                    }
                    m = m + 1;
                }
            } else {
                proof {
                    reveal(Seq::filter);
                    assert(orig.take(m + 1).filter(keep_filter()) =~= orig.take(m).filter(
                        keep_filter(),
                    ).push(victim));
                    assert(orig.take(m + 1).filter(marked_filter()) =~= orig.take(m).filter(
                        marked_filter(),
                    ));
                    assert(self.sessions@ =~= orig.take(m + 1).filter(keep_filter()) + orig.skip(
                        m + 1,
                    )) by {
                        assert(orig.skip(m) =~= seq![orig[m]] + orig.skip(m + 1));
                    }
                    assert(marked_conns(orig.take(m + 1)) =~= marked_conns(orig.take(m))) by {
                        assert forall|c: u64| marked_conns(orig.take(m + 1)).contains(c)
                            implies marked_conns(orig.take(m)).contains(c) by {
                            let j = choose|j: int|
                                0 <= j < orig.take(m + 1).len() && (#[trigger] orig.take(
                                    m + 1,
                                )[j]).pending_remove is Some && orig.take(m + 1)[j].conn == c;
                            assert(j != m);
                            assert(orig.take(m)[j] == orig.take(m + 1)[j]);
                        }
                        assert forall|c: u64| marked_conns(orig.take(m)).contains(c)
                            implies marked_conns(orig.take(m + 1)).contains(c) by {
                            let j = choose|j: int|
                                0 <= j < orig.take(m).len() && (#[trigger] orig.take(
                                    m,
                                )[j]).pending_remove is Some && orig.take(m)[j].conn == c;
                            assert(orig.take(m + 1)[j] == orig.take(m)[j]);
                        }
                    }
                    assert(marked_names(orig.take(m + 1)) =~= marked_names(orig.take(m))) by {
                        assert forall|k: Seq<u8>| marked_names(orig.take(m + 1)).contains(k)
                            implies marked_names(orig.take(m)).contains(k) by {
                            let j = choose|j: int|
                                0 <= j < orig.take(m + 1).len() && (#[trigger] orig.take(
                                    m + 1,
                                )[j]).pending_remove is Some && (orig.take(m + 1)[j].name matches Some(nn) && nn@ == k);
                            assert(j != m);
                            assert(orig.take(m)[j] == orig.take(m + 1)[j]);
                        }
                        assert forall|k: Seq<u8>| marked_names(orig.take(m)).contains(k)
                            implies marked_names(orig.take(m + 1)).contains(k) by {
                            let j = choose|j: int|
                                0 <= j < orig.take(m).len() && (#[trigger] orig.take(
                                    m,
                                )[j]).pending_remove is Some && (orig.take(m)[j].name matches Some(nn) && nn@ == k);
                            assert(orig.take(m + 1)[j] == orig.take(m)[j]);
                        }
                    }
                    m = m + 1;
                }
                i = i + 1;
            }
        }
        proof {
            reveal(Seq::filter);
            assert(orig.skip(m).len() == 0);
            assert(m == orig.len());
            assert(orig.take(m) =~= orig);
            assert(final(self).sessions@ =~= orig.filter(keep_filter()));
        }
    }
}

} // verus!

verus! {

/// Combines the drive loop's bookkeeping: an old session that no surviving
/// session advanced from is fully destroyed, its connection unbound and its
/// entity id gone, because entity ids were unique and survivors keep theirs.
#[verifier::rlimit(100)]
proof fn lemma_recv_outcome(orig: Seq<Session>, now: Seq<Session>, lookup: StreamLookup)
    requires
        forall|j1: int, j2: int|
            0 <= j1 < j2 < orig.len() ==> orig[j1].entity_id != orig[j2].entity_id,
        forall|k: int| 0 <= k < now.len() ==> advanced_from(orig, #[trigger] now[k]),
        forall|j: int|
            0 <= j < orig.len() ==> survives_into((#[trigger] orig[j]), now)
                || !lookup.view_map().contains_key(orig[j].conn),
    ensures
        forall|j: int|
            0 <= j < orig.len() ==> survives_into((#[trigger] orig[j]), now) || (
            !lookup.view_map().contains_key(orig[j].conn) && forall|k: int|
                0 <= k < now.len() ==> (#[trigger] now[k]).entity_id != orig[j].entity_id),
{
    assert forall|j: int|
        0 <= j < orig.len() implies survives_into((#[trigger] orig[j]), now) || (
    !lookup.view_map().contains_key(orig[j].conn) && forall|k: int|
        0 <= k < now.len() ==> (#[trigger] now[k]).entity_id != orig[j].entity_id) by {
        if !survives_into(orig[j], now) {
            assert forall|k: int|
                0 <= k < now.len() implies (#[trigger] now[k]).entity_id != orig[j].entity_id by {
                assert(advanced_from(orig, now[k]));
                let j2 = choose|j2: int|
                    0 <= j2 < orig.len() && session_advanced(#[trigger] orig[j2], now[k]);
                if now[k].entity_id == orig[j].entity_id {
                    assert(orig[j2].entity_id == orig[j].entity_id);
                    if j2 != j {
                        assert(orig[j2].entity_id != orig[j].entity_id);
                    }
                    assert(session_advanced(orig[j], now[k]));
                    assert(survives_into(orig[j], now));
                }
            }
        }
    }
}

/// How one drive of the state machine may advance a surviving session:
/// identity fixed, the state moved only along the legal paths, the removal
/// mark untouched.
pub open spec fn session_advanced(before: Session, after: Session) -> bool {
    &&& after.entity_id == before.entity_id
    &&& after.conn == before.conn
    &&& after.minecraft_id == before.minecraft_id
    &&& reachable_state(before.state, after.state)
    &&& (after.pending_remove is Some <==> before.pending_remove is Some)
}

/// Whether `s` advanced, by one drive of the state machine, from some
/// session of `orig`.
pub open spec fn advanced_from(orig: Seq<Session>, s: Session) -> bool {
    exists|j: int| 0 <= j < orig.len() && session_advanced(#[trigger] orig[j], s)
}

/// Whether some session of `now` advanced from `before`.
pub open spec fn survives_into(before: Session, now: Seq<Session>) -> bool {
    exists|k: int| 0 <= k < now.len() && session_advanced(before, #[trigger] now[k])
}

/// A longer origin prefix keeps every advancement.
proof fn lemma_advanced_mono(orig: Seq<Session>, m: int, s: Session)
    requires
        0 <= m < orig.len(),
        advanced_from(orig.take(m), s),
    ensures
        advanced_from(orig.take(m + 1), s),
{
    let j = choose|j: int|
        0 <= j < orig.take(m).len() && session_advanced(#[trigger] orig.take(m)[j], s);
    assert(orig.take(m + 1)[j] == orig.take(m)[j]);
    assert(session_advanced(orig.take(m + 1)[j], s));
}

/// A survivor list extended on the right keeps every survival.
proof fn lemma_survives_mono(before: Session, now: Seq<Session>, longer: Seq<Session>)
    requires
        survives_into(before, now),
        now.len() <= longer.len(),
        forall|k: int| 0 <= k < now.len() ==> #[trigger] longer[k] == now[k],
    ensures
        survives_into(before, longer),
{
    let k = choose|k: int| 0 <= k < now.len() && session_advanced(before, #[trigger] now[k]);
    assert(session_advanced(before, longer[k]));
}

/// What driving a session's frames decided.
#[derive(Clone, Copy, PartialEq, Eq, Structural, Debug)]
pub enum DriveVerdict {
    /// The session stays live.
    Keep,
    /// A fatal decode error or protocol violation: destroy silently.
    Destroy,
}

/// Pulls every complete frame from one session's decoder and dispatches it
/// by state. Returns whether the session survives; on any fatal decode
/// error or protocol violation it is to be destroyed silently.
#[verifier::loop_isolation(false)]
pub fn drive_session(
    s: &mut Session,
    compose: &mut Compose,
    ign: &mut IgnMap,
    skin_requests: &mut Vec<SkinRequest>,
    play_events: &mut Vec<(u64, Frame)>,
) -> (verdict: DriveVerdict)
    requires
        old(s).wf(),
        old(compose).wf(),
        old(compose).has_conn(old(s).conn),
        old(ign).wf(),
    ensures
        final(s).wf(),
        final(compose).wf(),
        final(ign).wf(),
        final(compose).global == old(compose).global,
        final(s).entity_id == old(s).entity_id,
        final(s).minecraft_id == old(s).minecraft_id,
        final(s).conn == old(s).conn,
        reachable_state(old(s).state, final(s).state),
        final(s).pending_remove is Some <==> old(s).pending_remove is Some,
        final(ign).snapshot() == old(ign).snapshot(),
        forall|c: u64| #[trigger] final(compose).has_conn(c) == old(compose).has_conn(c),
        forall|c: u64|
            c != old(s).conn && old(compose).has_conn(c) ==> #[trigger] final(compose).outbound(c)
                == old(compose).outbound(c),
        final(s).state == PacketState::Play && old(s).state != PacketState::Play ==> (final(s).name matches Some(n) && final(ign).effective() == old(ign).effective().insert(
            n@,
            old(s).entity_id,
        )),
        !(final(s).state == PacketState::Play && old(s).state != PacketState::Play) ==> final(ign).effective() == old(ign).effective(),
        session_advanced(*old(s), *final(s)),
        verdict == DriveVerdict::Keep ==> crate::decoder::parse_frame(
            final(s).decoder.remaining(),
            final(s).decoder.armed(),
        ) is Incomplete,
        old(play_events)@.is_prefix_of(final(play_events)@),
        old(skin_requests)@.is_prefix_of(final(skin_requests)@),
{
    loop
        invariant
            s.wf(),
            compose.wf(),
            ign.wf(),
            compose.global == old(compose).global,
            compose.has_conn(s.conn),
            s.entity_id == old(s).entity_id,
            s.minecraft_id == old(s).minecraft_id,
            s.conn == old(s).conn,
            reachable_state(old(s).state, s.state),
            s.pending_remove is Some <==> old(s).pending_remove is Some,
            ign.snapshot() == old(ign).snapshot(),
            forall|c: u64| #[trigger] compose.has_conn(c) == old(compose).has_conn(c),
            forall|c: u64|
                c != old(s).conn && old(compose).has_conn(c) ==> #[trigger] compose.outbound(c)
                    == old(compose).outbound(c),
            s.state == PacketState::Play && old(s).state != PacketState::Play ==> (s.name matches Some(n)
                && ign.effective() == old(ign).effective().insert(n@, old(s).entity_id)),
            !(s.state == PacketState::Play && old(s).state != PacketState::Play) ==> ign.effective()
                == old(ign).effective(),
            old(play_events)@.is_prefix_of(play_events@),
            old(skin_requests)@.is_prefix_of(skin_requests@),
        decreases s.decoder.remaining().len(),
    {
        let ghost rem0 = s.decoder.remaining();
        let ghost armed0 = s.decoder.armed();
        proof {
            crate::decoder::lemma_parse_frame_consumed(rem0, armed0);
        }
        let frame = match s.decoder.try_next() {
            Err(_) => {
                return DriveVerdict::Destroy;
            },
            Ok(None) => {
                return DriveVerdict::Keep;
            },
            Ok(Some(f)) => f,
        };
        match s.state {
            PacketState::Handshake => {
                if process_handshake(&mut s.state, &frame).is_err() {
                    return DriveVerdict::Destroy;
                }
            },
            PacketState::Status => {
                if process_status(&mut s.state, &frame, s.conn, compose).is_err() {
                    return DriveVerdict::Destroy;
                }
            },
            PacketState::Login => {
                match s.process_login(&frame, compose, ign) {
                    Ok(req) => {
                        skin_requests.push(req);
                    },
                    Err(_) => {
                        send_login_failure(compose, s.conn);
                        return DriveVerdict::Destroy;
                    },
                }
            },
            PacketState::Play => {
                play_events.push((s.entity_id, frame));
            },
            PacketState::Terminate => {},
        }
    }
}

/// Sends the human-readable login failure notice, best effort and
/// uncompressed, before the session is torn down.
pub fn send_login_failure(compose: &mut Compose, conn: u64)
    requires
        old(compose).wf(),
    ensures
        final(compose).wf(),
        final(compose).global == old(compose).global,
        forall|c: u64| #[trigger] final(compose).has_conn(c) == old(compose).has_conn(c),
        forall|c: u64|
            c != conn && old(compose).has_conn(c) ==> #[trigger] final(compose).outbound(c) == old(compose).outbound(c) && final(compose).receives_broadcasts(c) == old(compose).receives_broadcasts(c),
        old(compose).has_conn(conn) ==> final(compose).receives_broadcasts(conn) == old(compose).receives_broadcasts(conn),
    {
    let msg = "Failed to process login packet. Are you on the right version of Minecraft? (Required: 1.20.1)";
    let chat = make_chat_json(msg.as_bytes());
    if chat.len() <= 0x7FFF {
        let payload = make_login_disconnect(chat.as_slice());
        if payload.len() <= crate::MAX_PACKET_SIZE {
            let _ = compose.unicast_no_compression(payload.as_slice(), conn);
        }
    }
}

impl Hyperion {
    /// Processes one session of the drive loop: drives its frames, then
    /// either reinstates it advanced or destroys it, dropping its directory
    /// bindings.
    #[verifier::rlimit(100)]
    #[verifier::spinoff_prover]
    fn recv_step(&mut self, i: usize) -> (kept: bool)
        requires
            old(self).wf(),
            i < old(self).sessions@.len(),
        ensures
            final(self).wf(),
            final(self).receive == old(self).receive,
            final(self).compose.global == old(self).compose.global,
            final(self).ign_map.snapshot() == old(self).ign_map.snapshot(),
            old(self).play_events@.is_prefix_of(final(self).play_events@),
            old(self).skin_requests@.is_prefix_of(final(self).skin_requests@),
            kept ==> {
                &&& final(self).sessions@.len() == old(self).sessions@.len()
                &&& forall|k: int|
                    0 <= k < old(self).sessions@.len() && k != i ==> #[trigger] final(self).sessions@[k] == old(self).sessions@[k]
                &&& session_advanced(
                    old(self).sessions@[i as int],
                    final(self).sessions@[i as int],
                )
                &&& crate::decoder::parse_frame(
                    final(self).sessions@[i as int].decoder.remaining(),
                    final(self).sessions@[i as int].decoder.armed(),
                ) is Incomplete
                &&& final(self).stream_lookup.view_map() == old(self).stream_lookup.view_map()
            },
            !kept ==> {
                &&& final(self).sessions@ == old(self).sessions@.remove(i as int)
                &&& final(self).stream_lookup.view_map() == old(self).stream_lookup.view_map().remove(old(self).sessions@[i as int].conn)
            },
    {
        let ghost pre = self.sessions@;
        let mut s = self.sessions.remove(i);
        let verdict = drive_session(
            &mut s,
            &mut self.compose,
            &mut self.ign_map,
            &mut self.skin_requests,
            &mut self.play_events,
        );
        match verdict {
            DriveVerdict::Keep => {
                self.sessions.insert(i, s);
                proof {
                    assert(self.sessions@ =~= pre.update(i as int, self.sessions@[i as int]));
                    assert forall|c: u64|
                        self.stream_lookup.view_map().contains_key(c) implies exists|j: int|
                        0 <= j < self.sessions@.len() && (#[trigger] self.sessions@[j]).conn
                            == c by {
                        let j = choose|j: int| 0 <= j < pre.len() && (#[trigger] pre[j]).conn == c;
                        assert(self.sessions@[j].conn == c);
                    }
                }
                true
            },
            DriveVerdict::Destroy => {
                self.stream_lookup.remove(s.conn);
                match s.name {
                    Some(n) => {
                        self.ign_map.remove(n);
                    },
                    None => {},
                }
                proof {
                    pre.remove_ensures(i as int);
                    assert(self.sessions@ =~= pre.remove(i as int));
                    assert forall|c: u64|
                        self.stream_lookup.view_map().contains_key(c) implies exists|j: int|
                        0 <= j < self.sessions@.len() && (#[trigger] self.sessions@[j]).conn
                            == c by {
                        let j = choose|j: int| 0 <= j < pre.len() && (#[trigger] pre[j]).conn == c;
                        assert(c != pre[i as int].conn);
                        assert(j != i);
                        if j < i {
                            assert(self.sessions@[j].conn == c);
                        } else {
                            assert(self.sessions@[j - 1].conn == c);
                        }
                    }
                    assert forall|j: int|
                        0 <= j < self.sessions@.len() implies self.stream_lookup.view_map().contains_key(
                        (#[trigger] self.sessions@[j]).conn,
                    ) && self.stream_lookup.view_map()[self.sessions@[j].conn]
                        == self.sessions@[j].entity_id by {
                        let jo = if j < i {
                            j
                        } else {
                            j + 1
                        };
                        assert(self.sessions@[j] == pre[jo]);
                        assert(pre[jo].conn != pre[i as int].conn);
                    }
                }
                false
            },
        }
    }

    /// Drives every live session's complete frames through the state
    /// machine, in session order. Every surviving session advanced from one
    /// old session along the legal state paths, with its decoder consumed
    /// until no complete frame remains; every old session either survives or
    /// was destroyed, leaving the session list, the stream directory and
    /// (through a queued removal of its name, if bound) the username
    /// directory; sessions with broken framing or an illegal packet are the
    /// destroyed ones, a failed login being told so first. Play frames and
    /// skin requests are only ever appended.
    #[verifier::rlimit(100)]
    #[verifier::spinoff_prover]
    pub fn recv_data(&mut self)
        requires
            old(self).wf(),
        ensures
            final(self).wf(),
            final(self).receive == old(self).receive,
            final(self).compose.global == old(self).compose.global,
            final(self).ign_map.snapshot() == old(self).ign_map.snapshot(),
            forall|k: int|
                0 <= k < final(self).sessions@.len() ==> advanced_from(
                    old(self).sessions@,
                    #[trigger] final(self).sessions@[k],
                ),
            forall|k: int|
                0 <= k < final(self).sessions@.len() ==> crate::decoder::parse_frame(
                    (#[trigger] final(self).sessions@[k]).decoder.remaining(),
                    final(self).sessions@[k].decoder.armed(),
                ) is Incomplete,
            old(self).play_events@.is_prefix_of(final(self).play_events@),
            old(self).skin_requests@.is_prefix_of(final(self).skin_requests@),
            (forall|i: int|
                0 <= i < old(self).sessions@.len() ==> (#[trigger] old(self).sessions@[i]).pending_remove is None) ==> forall|i: int|
                0 <= i < final(self).sessions@.len() ==> (#[trigger] final(self).sessions@[i]).pending_remove is None,
    {
        let ghost orig = self.sessions@;
        let mut i: usize = 0;
        let ghost mut m: int = 0;
        proof {
            assert(self.sessions@.skip(0) =~= orig.skip(0));
        }
        while i < self.sessions.len()
            invariant
                self.wf(),
                self.receive == old(self).receive,
                self.compose.global == old(self).compose.global,
                self.ign_map.snapshot() == old(self).ign_map.snapshot(),
                orig == old(self).sessions@,
                forall|j1: int, j2: int|
                    0 <= j1 < j2 < orig.len() ==> orig[j1].entity_id != orig[j2].entity_id,
                0 <= m <= orig.len(),
                i as int <= m,
                i <= self.sessions@.len(),
                self.sessions@.skip(i as int) == orig.skip(m),
                forall|k: int|
                    0 <= k < i ==> advanced_from(orig.take(m), #[trigger] self.sessions@[k]),
                forall|k: int|
                    0 <= k < i ==> crate::decoder::parse_frame(
                        (#[trigger] self.sessions@[k]).decoder.remaining(),
                        self.sessions@[k].decoder.armed(),
                    ) is Incomplete,
                old(self).play_events@.is_prefix_of(self.play_events@),
                old(self).skin_requests@.is_prefix_of(self.skin_requests@),
            decreases self.sessions@.len() - i,
        {
            let ghost pre = self.sessions@;
            proof {
                assert(self.sessions@.skip(i as int).len() == orig.skip(m).len());
                assert(m < orig.len());
                assert(self.sessions@.skip(i as int)[0] == self.sessions@[i as int]);
                assert(orig.skip(m)[0] == orig[m]);
                assert(self.sessions@[i as int] == orig[m]);
            }
            let kept = self.recv_step(i);
            proof {
                assert forall|x: int| 0 <= x < pre.len() - i implies #[trigger] pre[i + x]
                    == orig[m + x] by {
                    assert(pre.skip(i as int)[x] == orig.skip(m)[x]);
                    assert(pre.skip(i as int)[x] == pre[i + x]);
                    assert(orig.skip(m)[x] == orig[m + x]);
                }
                if kept {
                    assert(self.sessions@.skip(i as int + 1) =~= orig.skip(m + 1)) by {
                        assert forall|x: int|
                            0 <= x < self.sessions@.len() - i - 1 implies #[trigger] self.sessions@.skip(
                            i as int + 1,
                        )[x] == orig.skip(m + 1)[x] by {
                            assert(self.sessions@.skip(i as int + 1)[x] == self.sessions@[i + 1
                                + x]);
                            assert(self.sessions@[i + 1 + x] == pre[i + 1 + x]);
                            assert(pre[i + (x + 1)] == orig[m + (x + 1)]);
                            assert(orig.skip(m + 1)[x] == orig[m + 1 + x]);
                        }
                    }
                    assert(self.sessions@.skip(i as int + 1) == orig.skip(m + 1));
                    assert(session_advanced(orig[m], self.sessions@[i as int]));
                    assert(orig.take(m + 1)[m] == orig[m]);
                    assert(advanced_from(orig.take(m + 1), self.sessions@[i as int]));
                    assert forall|k: int| 0 <= k < i + 1 implies advanced_from(
                        orig.take(m + 1),
                        #[trigger] self.sessions@[k],
                    ) by {
                        if k < i {
                            assert(self.sessions@[k] == pre[k]);
                            lemma_advanced_mono(orig, m, self.sessions@[k]);
                        }
                    }
                } else {
                    assert(self.sessions@ == pre.remove(i as int));
                    pre.remove_ensures(i as int);
                    assert(self.sessions@.len() == pre.len() - 1);
                    assert(self.sessions@.skip(i as int) =~= orig.skip(m + 1)) by {
                        assert forall|x: int|
                            0 <= x < self.sessions@.len() - i implies #[trigger] self.sessions@.skip(
                            i as int,
                        )[x] == orig.skip(m + 1)[x] by {
                            assert(self.sessions@.skip(i as int)[x] == self.sessions@[i + x]);
                            assert(self.sessions@[i + x] == pre[i + x + 1]);
                            assert(pre[i + (x + 1)] == orig[m + (x + 1)]);
                            assert(orig.skip(m + 1)[x] == orig[m + 1 + x]);
                        }
                    }
                    assert(self.sessions@.skip(i as int) == orig.skip(m + 1));
                    assert(!self.stream_lookup.view_map().contains_key(orig[m].conn));
                    assert(self.sessions@.take(i as int) =~= pre.take(i as int));
                    assert forall|k: int| 0 <= k < i implies advanced_from(
                        orig.take(m + 1),
                        #[trigger] self.sessions@[k],
                    ) by {
                        assert(self.sessions@[k] == pre[k]);
                        lemma_advanced_mono(orig, m, self.sessions@[k]);
                    }
                }
                m = m + 1;
            }
            if kept {
                i = i + 1;
            }
        }
        proof {
            assert(orig.skip(m).len() == 0);
            assert(m == orig.len());
            assert(orig.take(m) =~= orig);
            assert(self.sessions@.take(i as int) =~= self.sessions@);
            if forall|j: int| 0 <= j < orig.len() ==> (#[trigger] orig[j]).pending_remove is None {
                assert forall|k: int|
                    0 <= k < self.sessions@.len() implies (#[trigger] self.sessions@[k]).pending_remove is None by {
                    assert(advanced_from(orig, self.sessions@[k]));
                    let j = choose|j: int|
                        0 <= j < orig.len() && session_advanced(#[trigger] orig[j], self.sessions@[k]);
                    assert(orig[j].pending_remove is None);
                }
            }
        }
    }

    /// Applies completed skin resolutions: each is attached to its target
    /// session; late arrivals for entities no longer live are dropped.
    pub fn deliver_skins(&mut self, responses: Vec<SkinResponse>)
        requires
            old(self).wf(),
        ensures
            final(self).wf(),
    {
        let mut rs = responses;
        while rs.len() > 0
            invariant
                self.wf(),
            decreases rs@.len(),
        {
            let r = match rs.pop() {
                Some(r) => r,
                None => {
                    proof {
                        assert(false);
                    }
                    return ;
                },
            };
            let mut j: usize = 0;
            let mut target: Option<usize> = None;
            while j < self.sessions.len()
                invariant
                    self.wf(),
                    target matches Some(t) ==> t < self.sessions@.len(),
                decreases self.sessions@.len() - j,
            {
                if self.sessions[j].entity_id == r.entity_id {
                    target = Some(j);
                }
                j = j + 1;
            }
            match target {
                Some(t) => {
                    let ghost ss0 = self.sessions@;
                    let mut s = self.sessions.remove(t);
                    s.skin = Some(r.skin);
                    self.sessions.insert(t, s);
                    proof {
                        assert(self.sessions@ =~= ss0.update(t as int, self.sessions@[t as int]));
                        assert forall|c: u64|
                            self.stream_lookup.view_map().contains_key(c) implies exists|jj: int|
                            0 <= jj < self.sessions@.len() && (#[trigger] self.sessions@[jj]).conn
                                == c by {
                            let jj = choose|jj: int|
                                0 <= jj < ss0.len() && (#[trigger] ss0[jj]).conn == c;
                            assert(self.sessions@[jj].conn == c);
                        }
                    }
                },
                None => {},
            }
        }
    }

    /// One simulation tick over already-delivered input, in the staged
    /// order: reconcile the username directory, drain connects and
    /// disconnects, copy bytes into the decoders, run the removal pipeline,
    /// then drive every session's state machine.
    pub fn tick(&mut self)
        requires
            old(self).wf(),
        ensures
            final(self).wf(),
            forall|i: int|
                0 <= i < final(self).sessions@.len() ==> (#[trigger] final(self).sessions@[i]).pending_remove is None,
    {
        self.update_ign_map();
        self.generate_ingress_events();
        self.ingress_to_ecs();
        self.process_removals();
        self.recv_data();
    }

    /// Takes the skin requests scheduled by this tick's logins, for the
    /// asynchronous resolver.
    pub fn drain_skin_requests(&mut self) -> (r: Vec<SkinRequest>)
        requires
            old(self).wf(),
        ensures
            final(self).wf(),
            r@ == old(self).skin_requests@,
            final(self).skin_requests@.len() == 0,
    {
        let mut out: Vec<SkinRequest> = Vec::new();
        core::mem::swap(&mut self.skin_requests, &mut out);
        out
    }

    /// Takes the frames delivered to Play sessions, for the gameplay layer.
    pub fn drain_play_events(&mut self) -> (r: Vec<(u64, Frame)>)
        requires
            old(self).wf(),
        ensures
            final(self).wf(),
            r@ == old(self).play_events@,
            final(self).play_events@.len() == 0,
    {
        let mut out: Vec<(u64, Frame)> = Vec::new();
        core::mem::swap(&mut self.play_events, &mut out);
        out
    }
}

} // verus!

verus! {

/// The ingress systems as one installable unit: a single pass runs the
/// staged schedule once over the world.
pub struct IngressModule {}

impl IngressModule {
    /// Runs the staged ingress schedule for one tick.
    pub fn module(world: &mut Hyperion)
        requires
            old(world).wf(),
        ensures
            final(world).wf(),
    {
        world.tick();
    }
}

} // verus!

verus! {

impl Hyperion {
    /// Whether session `i` is a bound player: live and in the Play state.
    pub open spec fn is_play(&self, i: int) -> bool {
        0 <= i < self.sessions@.len() && self.sessions@[i].state == PacketState::Play
    }

    /// The name session `i` is bound under.
    pub open spec fn play_name(&self, i: int) -> Seq<u8> {
        self.sessions@[i].name->Some_0@
    }

    /// The username directory agrees with the bound players: no two Play
    /// sessions share a name, every Play session's name maps to its entity
    /// in the effective directory, and every directory binding belongs to a
    /// Play session. This fails, by design of the reconnect race, while two
    /// live Play sessions carry one name; the proxy's disconnect events
    /// resolve that race.
    pub open spec fn ign_consistent(&self) -> bool {
        &&& forall|i: int, j: int|
            #[trigger] self.is_play(i) && #[trigger] self.is_play(j) && i != j ==> self.play_name(
                i,
            ) != self.play_name(j)
        &&& forall|i: int|
            #[trigger] self.is_play(i) ==> self.ign_map.effective().contains_key(self.play_name(i))
                && self.ign_map.effective()[self.play_name(i)] == self.sessions@[i].entity_id
        &&& forall|k: Seq<u8>|
            #[trigger] self.ign_map.effective().contains_key(k) ==> exists|i: int|
                self.is_play(i) && self.play_name(i) == k
    }

    /// The directory consistency after a tick boundary: once reconciled,
    /// lookups resolve a name to an entity exactly when a Play session
    /// carries that name and that entity.
    pub proof fn lemma_ign_boundary(&self, k: Seq<u8>, e: u64)
        requires
            self.wf(),
            self.ign_consistent(),
            self.ign_map.pending_ops().len() == 0,
        ensures
            (self.ign_map.snapshot().contains_key(k) && self.ign_map.snapshot()[k] == e) <==> exists|i: int|
                self.is_play(i) && self.play_name(i) == k && self.sessions@[i].entity_id == e,
    {
        assert(self.ign_map.effective() =~= self.ign_map.snapshot());
        if self.ign_map.snapshot().contains_key(k) && self.ign_map.snapshot()[k] == e {
            let i = choose|i: int| self.is_play(i) && self.play_name(i) == k;
            assert(self.is_play(i));
            assert(self.sessions@[i].entity_id == e);
        }
        if exists|i: int| self.is_play(i) && self.play_name(i) == k && self.sessions@[i].entity_id
            == e {
            let i = choose|i: int|
                self.is_play(i) && self.play_name(i) == k && self.sessions@[i].entity_id == e;
            assert(self.is_play(i));
        }
    }
}

} // verus!

verus! {

impl Hyperion {
    /// The connection bijection: the stream directory binds exactly the
    /// live connections, each to its session's entity, distinct sessions
    /// never share a connection or an entity, and a bound entity identifies
    /// its session uniquely.
    pub proof fn lemma_stream_lookup_bijective(&self)
        requires
            self.wf(),
        ensures
            forall|i: int|
                0 <= i < self.sessions@.len() ==> self.stream_lookup.view_map().contains_key(
                    (#[trigger] self.sessions@[i]).conn,
                ) && self.stream_lookup.view_map()[self.sessions@[i].conn]
                    == self.sessions@[i].entity_id,
            forall|c: u64|
                #[trigger] self.stream_lookup.view_map().contains_key(c) ==> exists|i: int|
                    0 <= i < self.sessions@.len() && (#[trigger] self.sessions@[i]).conn == c,
            forall|i: int, j: int|
                0 <= i < self.sessions@.len() && 0 <= j < self.sessions@.len() && i != j
                    ==> (#[trigger] self.sessions@[i]).conn != (#[trigger] self.sessions@[j]).conn
                    && self.sessions@[i].entity_id != self.sessions@[j].entity_id,
    {
    }
}

} // verus!
