//! Byte-level wire encodings for the packets the ingress pipeline sends and
//! receives, each pinned to a specification-level byte sequence.
//!
//! A packet's payload is its id as a variable-length integer followed by its
//! body; framing (length prefix, compression) is layered on top elsewhere.

use crate::varint::{read_varint, varint_bytes, varint_read, write_varint, VarIntRead};
use vstd::prelude::*;

verus! {

/// Packet id of the handshake request.
pub const ID_HANDSHAKE: u32 = 0x00;

/// Packet id of the status query request.
pub const ID_QUERY_REQUEST: u32 = 0x00;

/// Packet id of the status ping.
pub const ID_QUERY_PING: u32 = 0x01;

/// Packet id of the status query response.
pub const ID_QUERY_RESPONSE: u32 = 0x00;

/// Packet id of the status pong.
pub const ID_QUERY_PONG: u32 = 0x01;

/// Packet id of the login hello request.
pub const ID_LOGIN_HELLO: u32 = 0x00;

/// Packet id of the login disconnect notice.
pub const ID_LOGIN_DISCONNECT: u32 = 0x00;

/// Packet id of the login success notice.
pub const ID_LOGIN_SUCCESS: u32 = 0x02;

/// Packet id of the login compression notice.
pub const ID_LOGIN_COMPRESSION: u32 = 0x03;

/// Packet id of the play-state disconnect notice.
pub const ID_PLAY_DISCONNECT: u32 = 0x1A;

/// Packet id of the play-state entity destroy broadcast.
pub const ID_ENTITIES_DESTROY: u32 = 0x3E;

/// Packet id of the play-state player remove broadcast.
pub const ID_PLAYER_REMOVE: u32 = 0x3B;

/// The `n`-byte big-endian encoding of `v % 256^n`.
pub open spec fn be_bytes(v: int, n: nat) -> Seq<u8>
    decreases n,
{
    if n == 0 {
        Seq::empty()
    } else {
        be_bytes(v / 256, (n - 1) as nat) + seq![(v % 256) as u8]
    }
}

/// A big-endian encoding is exactly `n` bytes long.
pub proof fn lemma_be_bytes_len(v: int, n: nat)
    ensures
        be_bytes(v, n).len() == n,
    decreases n,
{
    if n > 0 {
        lemma_be_bytes_len(v / 256, (n - 1) as nat);
    }
}

/// Appends the `n`-byte big-endian encoding of `v`.
pub fn write_be(buf: &mut Vec<u8>, v: u128, n: usize)
    requires
        n <= 16,
    ensures
        final(buf)@ == old(buf)@ + be_bytes(v as int, n as nat),
    decreases n,
{
    if n == 0 {
        assert(buf@ =~= old(buf)@ + be_bytes(v as int, 0));
        return ;
    }
    write_be(buf, v / 256, n - 1);
    buf.push((v % 256) as u8);
    assert(buf@ =~= old(buf)@ + be_bytes(v as int, n as nat));
}

/// Reads `n` bytes starting at `from` as a big-endian integer.
pub fn read_be(s: &[u8], from: usize, n: usize) -> (r: u128)
    requires
        n <= 16,
        from + n <= s@.len(),
    ensures
        r == crate::ident::be_int_of(s@.subrange(from as int, from as int + n)),
{
    let mut r: u128 = 0;
    let mut i: usize = 0;
    let total = s.len();
    proof {
        assert(s@.subrange(from as int, from as int) =~= Seq::<u8>::empty());
        crate::ident::lemma_pow256_all();
    }
    while i < n
        invariant
            n <= 16,
            from + n <= s@.len(),
            total == s@.len(),
            i <= n,
            r == crate::ident::be_int_of(s@.subrange(from as int, from as int + i)),
            crate::ident::pow256(16) == 0x1_0000_0000_0000_0000_0000_0000_0000_0000,
        decreases n - i,
    {
        let b = s[from + i];
        proof {
            let part = s@.subrange(from as int, from as int + i);
            crate::ident::lemma_be_int_bound(part);
            crate::ident::lemma_pow256_mono((i + 1) as nat, 16);
            assert(s@.subrange(from as int, from as int + i + 1).drop_last() =~= part);
            assert(s@.subrange(from as int, from as int + i + 1).last() == b);
            assert(r * 256 + b < crate::ident::pow256((i + 1) as nat)) by (nonlinear_arith)
                requires
                    0 <= r < crate::ident::pow256(i as nat),
                    b < 256,
                    crate::ident::pow256((i + 1) as nat) == 256 * crate::ident::pow256(i as nat),
            ;
            assert(r * 256 >= 0) by (nonlinear_arith)
                requires
                    r >= 0,
            ;
        }
        r = r * 256 + (b as u128);
        i = i + 1;
    }
    r
}

/// A length-prefixed string of raw bytes, as the protocol writes it.
pub open spec fn encode_str_bytes(s: Seq<u8>) -> Seq<u8> {
    varint_bytes(s.len() as u32) + s
}

/// Appends the length-prefixed encoding of `s`.
pub fn write_str_bytes(buf: &mut Vec<u8>, s: &[u8])
    requires
        s@.len() <= 0x7FFF,
    ensures
        final(buf)@ == old(buf)@ + encode_str_bytes(s@),
{
    write_varint(buf, s.len() as u32);
    let mut i: usize = 0;
    while i < s.len()
        invariant
            i <= s@.len(),
            buf@ == old(buf)@ + varint_bytes(s@.len() as u32) + s@.take(i as int),
        decreases s@.len() - i,
    {
        buf.push(s[i]);
        assert(buf@ =~= old(buf)@ + varint_bytes(s@.len() as u32) + s@.take(i + 1));
        i = i + 1;
    }
    assert(s@.take(s@.len() as int) =~= s@);
    assert(buf@ =~= old(buf)@ + encode_str_bytes(s@));
}

/// Payload of the status query response carrying `json`.
pub open spec fn query_response_payload(json: Seq<u8>) -> Seq<u8> {
    varint_bytes(ID_QUERY_RESPONSE) + encode_str_bytes(json)
}

/// Payload of the status pong echoing `payload`.
pub open spec fn query_pong_payload(payload: i64) -> Seq<u8> {
    varint_bytes(ID_QUERY_PONG) + be_bytes(payload as u64 as int, 8)
}

/// Payload of the login compression notice arming `threshold`.
pub open spec fn login_compression_payload(threshold: i32) -> Seq<u8> {
    varint_bytes(ID_LOGIN_COMPRESSION) + varint_bytes(threshold as u32)
}

/// Payload of the login success notice: account id, username, no properties.
pub open spec fn login_success_payload(uuid: int, username: Seq<u8>) -> Seq<u8> {
    varint_bytes(ID_LOGIN_SUCCESS) + be_bytes(uuid, 16) + encode_str_bytes(username)
        + varint_bytes(0)
}

/// Payload of the login disconnect notice carrying a chat component.
pub open spec fn login_disconnect_payload(reason_json: Seq<u8>) -> Seq<u8> {
    varint_bytes(ID_LOGIN_DISCONNECT) + encode_str_bytes(reason_json)
}

/// Payload of the play-state disconnect notice carrying a chat component.
pub open spec fn play_disconnect_payload(reason_json: Seq<u8>) -> Seq<u8> {
    varint_bytes(ID_PLAY_DISCONNECT) + encode_str_bytes(reason_json)
}

/// Payload of the entity destroy broadcast for one entity id.
pub open spec fn entities_destroy_payload(entity_id: i32) -> Seq<u8> {
    varint_bytes(ID_ENTITIES_DESTROY) + varint_bytes(1) + varint_bytes(entity_id as u32)
}

/// Payload of the player remove broadcast for one account id.
pub open spec fn player_remove_payload(uuid: int) -> Seq<u8> {
    varint_bytes(ID_PLAYER_REMOVE) + varint_bytes(1) + be_bytes(uuid, 16)
}

/// Builds the status query response payload.
pub fn make_query_response(json: &[u8]) -> (r: Vec<u8>)
    requires
        json@.len() <= 0x7FFF,
    ensures
        r@ == query_response_payload(json@),
{
    let mut out: Vec<u8> = Vec::new();
    write_varint(&mut out, ID_QUERY_RESPONSE);
    write_str_bytes(&mut out, json);
    assert(out@ =~= query_response_payload(json@));
    out
}

/// Builds the status pong payload.
pub fn make_query_pong(payload: i64) -> (r: Vec<u8>)
    ensures
        r@ == query_pong_payload(payload),
{
    let mut out: Vec<u8> = Vec::new();
    write_varint(&mut out, ID_QUERY_PONG);
    write_be(&mut out, (payload as u64) as u128, 8);
    assert(out@ =~= query_pong_payload(payload));
    out
}

/// Builds the login compression payload.
pub fn make_login_compression(threshold: i32) -> (r: Vec<u8>)
    ensures
        r@ == login_compression_payload(threshold),
{
    let mut out: Vec<u8> = Vec::new();
    write_varint(&mut out, ID_LOGIN_COMPRESSION);
    write_varint(&mut out, threshold as u32);
    assert(out@ =~= login_compression_payload(threshold));
    out
}

/// Builds the login success payload.
pub fn make_login_success(uuid: u128, username: &[u8]) -> (r: Vec<u8>)
    requires
        username@.len() <= 16,
    ensures
        r@ == login_success_payload(uuid as int, username@),
{
    let mut out: Vec<u8> = Vec::new();
    write_varint(&mut out, ID_LOGIN_SUCCESS);
    write_be(&mut out, uuid, 16);
    write_str_bytes(&mut out, username);
    write_varint(&mut out, 0);
    assert(out@ =~= login_success_payload(uuid as int, username@));
    out
}

/// Builds the login disconnect payload.
pub fn make_login_disconnect(reason_json: &[u8]) -> (r: Vec<u8>)
    requires
        reason_json@.len() <= 0x7FFF,
    ensures
        r@ == login_disconnect_payload(reason_json@),
{
    let mut out: Vec<u8> = Vec::new();
    write_varint(&mut out, ID_LOGIN_DISCONNECT);
    write_str_bytes(&mut out, reason_json);
    assert(out@ =~= login_disconnect_payload(reason_json@));
    out
}

/// Builds the play-state disconnect payload.
pub fn make_play_disconnect(reason_json: &[u8]) -> (r: Vec<u8>)
    requires
        reason_json@.len() <= 0x7FFF,
    ensures
        r@ == play_disconnect_payload(reason_json@),
{
    let mut out: Vec<u8> = Vec::new();
    write_varint(&mut out, ID_PLAY_DISCONNECT);
    write_str_bytes(&mut out, reason_json);
    assert(out@ =~= play_disconnect_payload(reason_json@));
    out
}

/// Builds the entity destroy broadcast payload.
pub fn make_entities_destroy(entity_id: i32) -> (r: Vec<u8>)
    ensures
        r@ == entities_destroy_payload(entity_id),
{
    let mut out: Vec<u8> = Vec::new();
    write_varint(&mut out, ID_ENTITIES_DESTROY);
    write_varint(&mut out, 1);
    write_varint(&mut out, entity_id as u32);
    assert(out@ =~= entities_destroy_payload(entity_id));
    out
}

/// Builds the player remove broadcast payload.
pub fn make_player_remove(uuid: u128) -> (r: Vec<u8>)
    ensures
        r@ == player_remove_payload(uuid as int),
{
    let mut out: Vec<u8> = Vec::new();
    write_varint(&mut out, ID_PLAYER_REMOVE);
    write_varint(&mut out, 1);
    write_be(&mut out, uuid, 16);
    assert(out@ =~= player_remove_payload(uuid as int));
    out
}

} // verus!

use vstd::slice::{slice_subrange, slice_to_vec};

verus! {

/// A decoded handshake request.
pub struct Handshake {
    pub protocol_version: i32,
    pub server_address: Vec<u8>,
    pub server_port: u16,
    pub next_state: u8,
}

/// Parses a handshake body: protocol version, address (at most 255 bytes),
/// port, and a next state of 1 (status) or 2 (login), with nothing trailing.
pub open spec fn parse_handshake(s: Seq<u8>) -> Option<(i32, Seq<u8>, u16, u8)> {
    match varint_read(s) {
        VarIntRead::Value { value: pv, len: l1 } => {
            let s1 = s.skip(l1 as int);
            match varint_read(s1) {
                VarIntRead::Value { value: alen, len: l2 } => {
                    let s2 = s1.skip(l2 as int);
                    if alen > 255 || s2.len() < alen + 2 {
                        None
                    } else {
                        let addr = s2.take(alen as int);
                        let port = ((s2[alen as int] as int) * 256 + s2[alen as int + 1]) as u16;
                        let s3 = s2.skip(alen as int + 2);
                        match varint_read(s3) {
                            VarIntRead::Value { value: ns, len: l3 } => {
                                if s3.len() == l3 && (ns == 1 || ns == 2) {
                                    Some(((pv as i32), addr, port, ns as u8))
                                } else {
                                    None
                                }
                            },
                            _ => None,
                        }
                    }
                },
                _ => None,
            }
        },
        _ => None,
    }
}

/// Decodes a handshake body.
pub fn decode_handshake(s: &[u8]) -> (r: Option<Handshake>)
    ensures
        match r {
            Some(h) => parse_handshake(s@) == Some(
                (h.protocol_version, h.server_address@, h.server_port, h.next_state),
            ),
            None => parse_handshake(s@) is None,
        },
{
    let total = s.len();
    proof {
        assert(s@.skip(0) =~= s@);
    }
    let (pv, l1) = match read_varint(s, 0) {
        VarIntRead::Value { value, len } => (value, len),
        _ => {
            return None;
        },
    };
    let (alen, l2) = match read_varint(s, l1) {
        VarIntRead::Value { value, len } => (value, len),
        _ => {
            return None;
        },
    };
    let ghost s1 = s@.skip(l1 as int);
    let ghost s2 = s1.skip(l2 as int);
    assert(s2 =~= s@.skip(l1 as int + l2 as int));
    if alen > 255 || (total - l1 - l2) < (alen as usize) + 2 {
        return None;
    }
    let astart = l1 + l2;
    let aend = astart + (alen as usize);
    let server_address = slice_to_vec(slice_subrange(s, astart, aend));
    assert(server_address@ =~= s2.take(alen as int));
    let port_hi = *slice_index_ref(s, aend);
    let port_lo = *slice_index_ref(s, aend + 1);
    let server_port: u16 = (port_hi as u16) * 256 + (port_lo as u16);
    assert(s2[alen as int] == port_hi && s2[alen as int + 1] == port_lo);
    let ghost s3 = s2.skip(alen as int + 2);
    assert(s3 =~= s@.skip(aend as int + 2));
    let (ns, l3) = match read_varint(s, aend + 2) {
        VarIntRead::Value { value, len } => (value, len),
        _ => {
            return None;
        },
    };
    if !(total - aend - 2 == l3 && (ns == 1 || ns == 2)) {
        return None;
    }
    Some(
        Handshake {
            protocol_version: pv as i32,
            server_address,
            server_port,
            next_state: ns as u8,
        },
    )
}

/// A decoded login hello request.
pub struct LoginHello {
    pub username: Vec<u8>,
    pub profile_id: Option<u128>,
}

/// Whether every byte is seven-bit, so that the bytes spell the username in
/// any reasonable character encoding.
pub open spec fn all_ascii(s: Seq<u8>) -> bool {
    forall|i: int| 0 <= i < s.len() ==> s[i] < 128
}

/// Parses a login hello body: a username of at most sixteen seven-bit bytes,
/// then an optional sixteen-byte profile id, with nothing trailing.
pub open spec fn parse_login_hello(s: Seq<u8>) -> Option<(Seq<u8>, Option<int>)> {
    match varint_read(s) {
        VarIntRead::Value { value: nlen, len: l1 } => {
            let s1 = s.skip(l1 as int);
            if nlen > 16 || s1.len() < nlen + 1 {
                None
            } else {
                let name = s1.take(nlen as int);
                if !all_ascii(name) {
                    None
                } else {
                    let flag = s1[nlen as int];
                    let s2 = s1.skip(nlen as int + 1);
                    if flag == 0 && s2.len() == 0 {
                        Some((name, None))
                    } else if flag == 1 && s2.len() == 16 {
                        Some((name, Some(crate::ident::be_int_of(s2))))
                    } else {
                        None
                    }
                }
            }
        },
        _ => None,
    }
}

/// Decodes a login hello body.
#[verifier::rlimit(60)]
#[verifier::loop_isolation(false)]
pub fn decode_login_hello(s: &[u8]) -> (r: Option<LoginHello>)
    ensures
        match r {
            Some(h) => parse_login_hello(s@) == Some(
                (
                    h.username@,
                    match h.profile_id {
                        Some(u) => Some(u as int),
                        None => None,
                    },
                ),
            ),
            None => parse_login_hello(s@) is None,
        },
{
    let total = s.len();
    proof {
        assert(s@.skip(0) =~= s@);
    }
    let (nlen, l1) = match read_varint(s, 0) {
        VarIntRead::Value { value, len } => (value, len),
        _ => {
            return None;
        },
    };
    let ghost s1 = s@.skip(l1 as int);
    if nlen > 16 || (total - l1) < (nlen as usize) + 1 {
        return None;
    }
    let nstart = l1;
    let nend = nstart + (nlen as usize);
    let username = slice_to_vec(slice_subrange(s, nstart, nend));
    assert(username@ =~= s1.take(nlen as int));
    let mut i: usize = 0;
    while i < username.len()
        invariant
            i <= username@.len(),
            username@ == s1.take(nlen as int),
            forall|j: int| 0 <= j < i ==> username@[j] < 128,
        decreases username@.len() - i,
    {
        if username[i] >= 128 {
            assert(s1.take(nlen as int)[i as int] >= 128);
            assert(!all_ascii(s1.take(nlen as int)));
            return None;
        }
        i = i + 1;
    }
    assert(all_ascii(username@));
    let flag = *slice_index_ref(s, nend);
    assert(s1[nlen as int] == flag);
    let ghost s2 = s1.skip(nlen as int + 1);
    assert(s2 =~= s@.skip(nend as int + 1));
    if flag == 0 && total - nend == 1 {
        return Some(LoginHello { username, profile_id: None });
    }
    if flag == 1 && total - nend == 17 {
        let uuid = read_be(s, nend + 1, 16);
        assert(s@.subrange(nend as int + 1, nend as int + 17) =~= s2);
        return Some(LoginHello { username, profile_id: Some(uuid) });
    }
    None
}

/// Parses a status ping body: exactly eight payload bytes.
pub open spec fn parse_query_ping(s: Seq<u8>) -> Option<i64> {
    if s.len() == 8 {
        Some((crate::ident::be_int_of(s) as u64) as i64)
    } else {
        None
    }
}

/// Decodes a status ping body.
pub fn decode_query_ping(s: &[u8]) -> (r: Option<i64>)
    ensures
        r == parse_query_ping(s@),
{
    if s.len() != 8 {
        return None;
    }
    let v = read_be(s, 0, 8);
    proof {
        assert(s@.subrange(0, 8) =~= s@);
        crate::ident::lemma_be_int_bound(s@);
        crate::ident::lemma_pow256_mono(8, 16);
    }
    Some((v as u64) as i64)
}

/// Reads one element of a slice by reference.
fn slice_index_ref<T>(s: &[T], i: usize) -> (r: &T)
    requires
        0 <= i < s@.len(),
    ensures
        *r == s@[i as int],
{
    vstd::slice::slice_index_get(s, i)
}

} // verus!
