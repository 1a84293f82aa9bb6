//! End-to-end scenarios over the world: the status flow, offline login,
//! malformed input, removal ordering, protocol violations and reconnects.

use hyperion::compose::{Global, Shared};
use hyperion::skin::{choose_skin, PlayerSkin, SkinResponse};
use sha2::Digest;
use hyperion::session::PacketState;
use hyperion::varint::write_varint;
use hyperion::queue::ReceiveQueue;
use hyperion::world::Hyperion;

fn test_global() -> Global {
    Global {
        shared: Shared { compression_threshold: 256, compression_level: 6 },
        player_count: 3,
        max_players: 12000,
        description: b"Getting 10k players to PvP at once".to_vec(),
        ms_last_tick: 0,
    }
}

fn plain_frame(payload: &[u8]) -> Vec<u8> {
    let mut f = Vec::new();
    write_varint(&mut f, payload.len() as u32);
    f.extend_from_slice(payload);
    f
}

fn handshake_frame(next_state: u8) -> Vec<u8> {
    let mut p = vec![0x00];
    write_varint(&mut p, 763);
    write_varint(&mut p, 9);
    p.extend_from_slice(b"localhost");
    p.extend_from_slice(&25565u16.to_be_bytes());
    p.push(next_state);
    plain_frame(&p)
}

fn query_request_frame() -> Vec<u8> {
    plain_frame(&[0x00])
}

fn query_ping_frame(payload: i64) -> Vec<u8> {
    let mut p = vec![0x01];
    p.extend_from_slice(&payload.to_be_bytes());
    plain_frame(&p)
}

fn login_hello_frame(name: &[u8]) -> Vec<u8> {
    let mut p = vec![0x00];
    write_varint(&mut p, name.len() as u32);
    p.extend_from_slice(name);
    p.push(0x00);
    plain_frame(&p)
}

/// Reads one unsigned varint, advancing the position.
fn read_vi(bytes: &[u8], pos: &mut usize) -> u32 {
    let mut acc: u64 = 0;
    let mut shift = 0;
    loop {
        let b = bytes[*pos];
        *pos += 1;
        acc |= ((b & 0x7F) as u64) << shift;
        if b & 0x80 == 0 {
            return acc as u32;
        }
        shift += 7;
    }
}

/// Splits a byte stream of plain frames into payloads.
fn split_plain_frames(bytes: &[u8]) -> Vec<Vec<u8>> {
    let mut out = Vec::new();
    let mut pos = 0;
    while pos < bytes.len() {
        let len = read_vi(bytes, &mut pos) as usize;
        out.push(bytes[pos..pos + len].to_vec());
        pos += len;
    }
    out
}

/// Unwraps the payload of a frame sent on a compression-armed connection
/// whose payload stayed under the threshold: a zero marker then the payload.
fn unwrap_uncompressed_marker(frame_payload: &[u8]) -> Vec<u8> {
    assert_eq!(frame_payload[0], 0x00, "expected the stored-verbatim marker");
    frame_payload[1..].to_vec()
}

#[test]
fn vanilla_ping() {
    let mut w = Hyperion::new(test_global());
    w.receive.push_connect(100);
    w.tick();
    assert_eq!(w.sessions.len(), 1);
    w.receive.push_bytes(100, handshake_frame(1));
    w.receive.push_bytes(100, query_request_frame());
    w.receive.push_bytes(100, query_ping_frame(0x0123_4567_89AB_CDEF));
    w.tick();

    let out = w.compose.drain_outbound(100).expect("channel exists");
    let frames = split_plain_frames(&out);
    assert_eq!(frames.len(), 2);

    // Status response: id 0, then a length-prefixed JSON string.
    let mut pos = 0usize;
    assert_eq!(read_vi(&frames[0], &mut pos), 0x00);
    let jlen = read_vi(&frames[0], &mut pos) as usize;
    let json = &frames[0][pos..pos + jlen];
    let v: serde_json::Value = serde_json::from_slice(json).expect("valid JSON");
    assert_eq!(v["version"]["protocol"], 763);
    assert_eq!(v["version"]["name"], "1.20.1");
    assert_eq!(v["players"]["online"], 3);
    assert_eq!(v["players"]["max"], 12000);

    // Pong echoing the ping payload.
    assert_eq!(frames[1][0], 0x01);
    assert_eq!(frames[1][1..], 0x0123_4567_89AB_CDEFi64.to_be_bytes());

    // The session terminated; no player was created.
    assert_eq!(w.sessions.len(), 1);
    assert_eq!(w.sessions[0].state, PacketState::Terminate);
    assert!(w.sessions[0].uuid.is_none());
    assert!(w.sessions[0].name.is_none());
}

#[test]
fn offline_login() {
    let mut w = Hyperion::new(test_global());
    w.receive.push_connect(7);
    w.tick();
    w.receive.push_bytes(7, handshake_frame(2));
    w.receive.push_bytes(7, login_hello_frame(b"Alice"));
    w.tick();

    let out = w.compose.drain_outbound(7).expect("channel exists");
    let frames = split_plain_frames(&out);
    assert_eq!(frames.len(), 2);

    // First the compression notice, uncompressed: id 3, threshold 256.
    assert_eq!(frames[0], vec![0x03, 0x80, 0x02]);

    // Then the login success, in compressed framing (under the threshold it
    // is stored verbatim behind a zero marker).
    let success = unwrap_uncompressed_marker(&frames[1]);
    assert_eq!(success[0], 0x02);
    let digest = sha2::Sha256::digest(b"Alice");
    let uuid = u128::from_be_bytes(digest[0..16].try_into().unwrap());
    assert_eq!(success[1..17], uuid.to_be_bytes());
    assert_eq!(success[17], 5);
    assert_eq!(&success[18..23], b"Alice");

    // The session reached Play and carries the identity.
    assert_eq!(w.sessions[0].state, PacketState::Play);
    assert_eq!(w.sessions[0].name.as_deref(), Some(b"Alice".as_slice()));
    assert_eq!(w.sessions[0].uuid.map(|u| u.value), Some(uuid));
    let entity = w.sessions[0].entity_id;

    // A skin resolution was scheduled for the session.
    let requests = w.drain_skin_requests();
    assert_eq!(requests.len(), 1);
    assert_eq!(requests[0].entity_id, entity);
    assert_eq!(requests[0].uuid.value, uuid);

    // The name directory resolves the name after the next tick boundary.
    assert_eq!(w.ign_map.get(b"Alice"), None);
    w.tick();
    assert_eq!(w.ign_map.get(b"Alice"), Some(entity));
    assert_eq!(w.stream_lookup.get(7), Some(entity));
}

#[test]
fn login_with_malformed_frame() {
    let mut w = Hyperion::new(test_global());
    w.receive.push_connect(9);
    w.tick();
    w.receive.push_bytes(9, handshake_frame(2));
    // A frame whose declared length exceeds the maximum packet size.
    let mut bad = Vec::new();
    write_varint(&mut bad, 0x20_0000);
    w.receive.push_bytes(9, bad);
    w.tick();

    // Silent destruction: no session and no login disconnect notice.
    assert_eq!(w.sessions.len(), 0);
    assert_eq!(w.stream_lookup.get(9), None);
    let out = w.compose.drain_outbound(9).expect("channel remains for the proxy");
    assert!(out.is_empty());
}

#[test]
fn disconnect_while_in_play() {
    let mut w = Hyperion::new(test_global());
    for conn in [1u64, 2] {
        w.receive.push_connect(conn);
    }
    w.tick();
    w.receive.push_bytes(1, handshake_frame(2));
    w.receive.push_bytes(1, login_hello_frame(b"Alice"));
    w.receive.push_bytes(2, handshake_frame(2));
    w.receive.push_bytes(2, login_hello_frame(b"Bob"));
    w.tick();
    let alice_entity = w.sessions[0].entity_id;
    let alice_mcid = w.sessions[0].minecraft_id;
    let alice_uuid = w.sessions[0].uuid.unwrap().value;
    // Flush the login packets before observing the removal traffic.
    w.compose.drain_outbound(1).unwrap();
    w.compose.drain_outbound(2).unwrap();

    w.receive.push_disconnect(1);
    w.tick();

    // Alice is gone from the sessions and both directories.
    assert_eq!(w.sessions.len(), 1);
    assert_eq!(w.sessions[0].conn, 2);
    assert_eq!(w.stream_lookup.get(1), None);
    w.tick();
    assert_eq!(w.ign_map.get(b"Alice"), None);
    assert_eq!(w.ign_map.get(b"Bob"), Some(w.sessions[0].entity_id));
    assert!(w.sessions.iter().all(|s| s.entity_id != alice_entity));

    // Bob observed, in order: the entity destroy, then the player remove.
    let out = w.compose.drain_outbound(2).expect("channel exists");
    let frames = split_plain_frames(&out);
    assert_eq!(frames.len(), 2);
    let destroy = unwrap_uncompressed_marker(&frames[0]);
    let mut pos = 0usize;
    assert_eq!(read_vi(&destroy, &mut pos), 0x3E);
    assert_eq!(read_vi(&destroy, &mut pos), 1);
    assert_eq!(read_vi(&destroy, &mut pos), alice_mcid as u32);
    let remove = unwrap_uncompressed_marker(&frames[1]);
    assert_eq!(remove[0], 0x3B);
    assert_eq!(remove[1], 0x01);
    assert_eq!(remove[2..18], alice_uuid.to_be_bytes());

    // The victim saw the broadcasts and then the disconnect reason.
    let out = w.compose.drain_outbound(1).expect("channel remains");
    let frames = split_plain_frames(&out);
    assert_eq!(frames.len(), 3);
    assert_eq!(frames[2][0], 0x1A);
    let mut pos = 1usize;
    let rlen = read_vi(&frames[2], &mut pos) as usize;
    let chat: serde_json::Value =
        serde_json::from_slice(&frames[2][pos..pos + rlen]).expect("valid JSON");
    assert_eq!(chat["text"], "disconnected");
}

#[test]
fn protocol_violation() {
    let mut w = Hyperion::new(test_global());
    w.receive.push_connect(4);
    w.receive.push_connect(5);
    w.tick();
    w.receive.push_bytes(4, handshake_frame(1));
    // A Login-state packet id while in Status.
    w.receive.push_bytes(4, plain_frame(&[0x05, 0x01, 0x02]));
    w.receive.push_bytes(5, handshake_frame(1));
    w.tick();

    // The offender is silently destroyed; the other session is unaffected.
    assert_eq!(w.sessions.len(), 1);
    assert_eq!(w.sessions[0].conn, 5);
    assert_eq!(w.sessions[0].state, PacketState::Status);
    let out = w.compose.drain_outbound(4).expect("channel remains");
    assert!(out.is_empty());
}

#[test]
fn reconnect_under_same_name() {
    let mut w = Hyperion::new(test_global());
    w.receive.push_connect(1);
    w.tick();
    w.receive.push_bytes(1, handshake_frame(2));
    w.receive.push_bytes(1, login_hello_frame(b"Alice"));
    w.tick();
    let first_entity = w.sessions[0].entity_id;

    w.receive.push_connect(2);
    w.tick();
    w.receive.push_bytes(2, handshake_frame(2));
    w.receive.push_bytes(2, login_hello_frame(b"Alice"));
    w.tick();
    assert_eq!(w.sessions.len(), 2);
    let second_entity = w.sessions[1].entity_id;
    assert_ne!(first_entity, second_entity);

    // After the boundary the directory points at the latest binding, and
    // the connection directory stays bijective over live sessions.
    w.tick();
    assert_eq!(w.ign_map.get(b"Alice"), Some(second_entity));
    assert_eq!(w.stream_lookup.get(1), Some(first_entity));
    assert_eq!(w.stream_lookup.get(2), Some(second_entity));
}

#[test]
fn skins_are_delivered_and_late_arrivals_dropped() {
    let mut w = Hyperion::new(test_global());
    w.receive.push_connect(1);
    w.tick();
    w.receive.push_bytes(1, handshake_frame(2));
    w.receive.push_bytes(1, login_hello_frame(b"Alice"));
    w.tick();
    let entity = w.sessions[0].entity_id;
    let requests = w.drain_skin_requests();
    assert_eq!(requests.len(), 1);

    let skin = choose_skin(
        None,
        Some(PlayerSkin { textures: vec![1, 2, 3], signature: vec![4] }),
    );
    w.deliver_skins(vec![
        SkinResponse { entity_id: entity, skin },
        SkinResponse { entity_id: 999_999, skin: choose_skin(None, None) },
    ]);
    let held = w.sessions[0].skin.as_ref().expect("skin attached");
    assert_eq!(held.textures, vec![1, 2, 3]);
    assert_eq!(held.signature, vec![4]);
}

#[test]
fn resolution_policy_prefers_cache_then_upstream_then_sentinel() {
    let cached = PlayerSkin { textures: vec![9], signature: vec![8] };
    let fetched = PlayerSkin { textures: vec![1], signature: vec![2] };
    let r = choose_skin(Some(cached), Some(fetched));
    assert_eq!(r.textures, vec![9]);
    let r = choose_skin(
        None,
        Some(PlayerSkin { textures: vec![1], signature: vec![2] }),
    );
    assert_eq!(r.textures, vec![1]);
    let r = choose_skin(None, None);
    assert!(r.textures.is_empty() && r.signature.is_empty());
}

#[test]
fn empty_username_still_binds() {
    let mut w = Hyperion::new(test_global());
    w.receive.push_connect(3);
    w.tick();
    w.receive.push_bytes(3, handshake_frame(2));
    w.receive.push_bytes(3, login_hello_frame(b""));
    w.tick();
    assert_eq!(w.sessions[0].state, PacketState::Play);
    let entity = w.sessions[0].entity_id;
    w.tick();
    assert_eq!(w.ign_map.get(b""), Some(entity));
}

#[test]
fn receive_queue_preserves_order() {
    let mut q = ReceiveQueue::new();
    q.push_connect(1);
    q.push_connect(2);
    q.push_disconnect(9);
    q.push_bytes(1, vec![0xAA]);
    q.push_bytes(2, vec![0xBB]);
    q.push_bytes(1, vec![0xCC]);
    assert_eq!(q.drain_connects(), vec![1, 2]);
    assert_eq!(q.drain_disconnects(), vec![9]);
    let mails = q.drain_mails();
    let pairs: Vec<(u64, Vec<u8>)> = mails.into_iter().map(|m| (m.conn, m.bytes)).collect();
    assert_eq!(
        pairs,
        vec![(1, vec![0xAA]), (2, vec![0xBB]), (1, vec![0xCC])]
    );
    assert!(q.drain_connects().is_empty());
}
