//! Wire-level tests: varints, big-endian fields, packet payloads, JSON
//! documents and the offline UUID derivation.

use hyperion::ident::{offline_uuid, offline_uuid_bytes};
use hyperion::json::{make_chat_json, make_status_json};
use hyperion::varint::{read_varint, write_varint, VarIntRead};
use sha2::Digest;
use hyperion::wire::{
    decode_handshake, decode_login_hello, decode_query_ping, make_entities_destroy,
    make_login_compression, make_login_success, make_player_remove, make_query_pong,
};

fn varint(n: u32) -> Vec<u8> {
    let mut v = Vec::new();
    write_varint(&mut v, n);
    v
}

#[test]
fn varint_small_values_are_single_bytes() {
    assert_eq!(varint(0), vec![0x00]);
    assert_eq!(varint(1), vec![0x01]);
    assert_eq!(varint(127), vec![0x7f]);
}

#[test]
fn varint_multi_byte_values() {
    assert_eq!(varint(128), vec![0x80, 0x01]);
    assert_eq!(varint(255), vec![0xff, 0x01]);
    assert_eq!(varint(300), vec![0xac, 0x02]);
    assert_eq!(varint(763), vec![0xfb, 0x05]);
    assert_eq!(varint(2_097_151), vec![0xff, 0xff, 0x7f]);
    assert_eq!(varint(u32::MAX), vec![0xff, 0xff, 0xff, 0xff, 0x0f]);
}

#[test]
fn varint_round_trips() {
    for n in [0u32, 1, 127, 128, 255, 300, 763, 25565, 2_097_151, u32::MAX] {
        let enc = varint(n);
        match read_varint(&enc, 0) {
            VarIntRead::Value { value, len } => {
                assert_eq!(value, n);
                assert_eq!(len, enc.len());
            }
            other => panic!("expected value, got {other:?}"),
        }
    }
}

#[test]
fn varint_incomplete_and_too_long() {
    assert!(matches!(read_varint(&[0x80], 0), VarIntRead::Incomplete));
    assert!(matches!(
        read_varint(&[0x80, 0x80, 0x80, 0x80, 0x80, 0x01], 0),
        VarIntRead::Malformed
    ));
}

#[test]
fn query_pong_echoes_payload_bytes() {
    let p = make_query_pong(0x0123_4567_89AB_CDEFi64);
    assert_eq!(
        p,
        vec![0x01, 0x01, 0x23, 0x45, 0x67, 0x89, 0xAB, 0xCD, 0xEF]
    );
}

#[test]
fn login_compression_payload_bytes() {
    assert_eq!(make_login_compression(256), vec![0x03, 0x80, 0x02]);
}

#[test]
fn login_success_payload_shape() {
    let p = make_login_success(0xAABB, b"Bob");
    // id, sixteen uuid bytes, name length, name, empty property list
    let mut expect = vec![0x02];
    expect.extend_from_slice(&0xAABBu128.to_be_bytes());
    expect.extend_from_slice(&[0x03, b'B', b'o', b'b', 0x00]);
    assert_eq!(p, expect);
}

#[test]
fn entities_destroy_and_player_remove_payloads() {
    assert_eq!(make_entities_destroy(5), vec![0x3E, 0x01, 0x05]);
    let mut expect = vec![0x3B, 0x01];
    expect.extend_from_slice(&7u128.to_be_bytes());
    assert_eq!(make_player_remove(7), expect);
}

#[test]
fn handshake_decodes() {
    let mut body = varint(763);
    body.extend_from_slice(&varint(9));
    body.extend_from_slice(b"localhost");
    body.extend_from_slice(&25565u16.to_be_bytes());
    body.push(0x01);
    let h = decode_handshake(&body).expect("well-formed handshake");
    assert_eq!(h.protocol_version, 763);
    assert_eq!(h.server_address, b"localhost");
    assert_eq!(h.server_port, 25565);
    assert_eq!(h.next_state, 1);
}

#[test]
fn handshake_rejects_trailing_bytes() {
    let mut body = varint(763);
    body.extend_from_slice(&varint(0));
    body.extend_from_slice(&25565u16.to_be_bytes());
    body.push(0x02);
    body.push(0xFF);
    assert!(decode_handshake(&body).is_none());
}

#[test]
fn login_hello_without_profile() {
    let mut body = varint(5);
    body.extend_from_slice(b"Alice");
    body.push(0x00);
    let h = decode_login_hello(&body).expect("well-formed hello");
    assert_eq!(h.username, b"Alice");
    assert_eq!(h.profile_id, None);
}

#[test]
fn login_hello_with_profile() {
    let mut body = varint(3);
    body.extend_from_slice(b"Bob");
    body.push(0x01);
    body.extend_from_slice(&42u128.to_be_bytes());
    let h = decode_login_hello(&body).expect("well-formed hello");
    assert_eq!(h.username, b"Bob");
    assert_eq!(h.profile_id, Some(42));
}

#[test]
fn login_hello_rejects_long_names() {
    let mut body = varint(17);
    body.extend_from_slice(b"ANameMuchTooLongX");
    body.push(0x00);
    assert!(decode_login_hello(&body).is_none());
}

#[test]
fn query_ping_decodes_exactly_eight_bytes() {
    assert_eq!(
        decode_query_ping(&(-5i64).to_be_bytes()),
        Some(-5i64)
    );
    assert_eq!(decode_query_ping(&[1, 2, 3]), None);
}

#[test]
fn offline_uuid_matches_sha256_prefix() {
    // SHA-256("abc") = ba7816bf 8f01cfea 414140de 5dae2223 b00361a3 ...
    let u = offline_uuid("abc");
    assert_eq!(u.value, 0xba7816bf_8f01cfea_414140de_5dae2223u128);
}

#[test]
fn offline_uuid_is_a_function_of_the_bytes() {
    let digest = sha2::Sha256::digest(b"Alice");
    let expect = u128::from_be_bytes(digest[0..16].try_into().unwrap());
    assert_eq!(offline_uuid("Alice").value, expect);
    assert_eq!(offline_uuid_bytes(b"Alice").value, expect);
    assert_eq!(offline_uuid("Alice").value, offline_uuid("Alice").value);
}

#[test]
fn status_json_parses_and_carries_the_fields() {
    let json = make_status_json(17, 12000, b"A server");
    let v: serde_json::Value = serde_json::from_slice(&json).expect("valid JSON");
    assert_eq!(v["version"]["name"], "1.20.1");
    assert_eq!(v["version"]["protocol"], 763);
    assert_eq!(v["players"]["online"], 17);
    assert_eq!(v["players"]["max"], 12000);
    assert_eq!(v["description"], "A server");
}

#[test]
fn status_json_escapes_description() {
    let json = make_status_json(0, 100, b"say \"hi\" \\ \n done");
    let v: serde_json::Value = serde_json::from_slice(&json).expect("valid JSON");
    assert_eq!(v["description"], "say \"hi\" \\ \n done");
}

#[test]
fn chat_json_escapes_text() {
    let chat = make_chat_json(b"a\"b\\c");
    let v: serde_json::Value = serde_json::from_slice(&chat).expect("valid JSON");
    assert_eq!(v["text"], "a\"b\\c");
}
