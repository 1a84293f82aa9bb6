//! The JSON documents the status flow emits: a fixed-shape status response
//! and single-text chat components, built byte by byte with exact contracts.

use vstd::prelude::*;

verus! {

/// The hexadecimal digit for `n`, lower case.
pub open spec fn hex_digit(n: u8) -> u8 {
    if n < 10 {
        (48 + n) as u8
    } else {
        (87 + n) as u8
    }
}

/// How a JSON string escapes the byte `b`: quote and backslash get a
/// backslash, control bytes become a six-byte universal escape, everything
/// else stands as it is.
pub open spec fn escape_byte(b: u8) -> Seq<u8> {
    if b == 34 {
        seq![92u8, 34u8]
    } else if b == 92 {
        seq![92u8, 92u8]
    } else if b < 32 {
        seq![92u8, 117u8, 48u8, 48u8, hex_digit(b / 16), hex_digit(b % 16)]
    } else {
        seq![b]
    }
}

/// The JSON string-escaped form of `s`.
pub open spec fn json_escaped(s: Seq<u8>) -> Seq<u8>
    decreases s.len(),
{
    if s.len() == 0 {
        Seq::empty()
    } else {
        json_escaped(s.drop_last()) + escape_byte(s.last())
    }
}

/// Escaping at most six-folds a string.
pub proof fn lemma_json_escaped_len(s: Seq<u8>)
    ensures
        json_escaped(s).len() <= 6 * s.len(),
    decreases s.len(),
{
    if s.len() > 0 {
        lemma_json_escaped_len(s.drop_last());
    }
}

/// Appends the JSON string-escaped form of `s`.
pub fn json_escape_into(out: &mut Vec<u8>, s: &[u8])
    ensures
        final(out)@ == old(out)@ + json_escaped(s@),
{
    let mut i: usize = 0;
    while i < s.len()
        invariant
            i <= s@.len(),
            out@ == old(out)@ + json_escaped(s@.take(i as int)),
        decreases s@.len() - i,
    {
        let b = s[i];
        if b == 34 {
            out.push(92);
            out.push(34);
        } else if b == 92 {
            out.push(92);
            out.push(92);
        } else if b < 32 {
            out.push(92);
            out.push(117);
            out.push(48);
            out.push(48);
            let hi = b / 16;
            let lo = b % 16;
            out.push(if hi < 10 { 48 + hi } else { 87 + hi });
            out.push(if lo < 10 { 48 + lo } else { 87 + lo });
        } else {
            out.push(b);
        }
        proof {
            assert(s@.take(i + 1).drop_last() =~= s@.take(i as int));
            assert(s@.take(i + 1).last() == s@[i as int]);
            assert(out@ =~= old(out)@ + json_escaped(s@.take(i + 1)));
        }
        i = i + 1;
    }
    proof {
        assert(s@.take(s@.len() as int) =~= s@);
    }
}

/// The decimal digits of `n`, most significant first.
pub open spec fn dec_digits(n: int) -> Seq<u8>
    decreases n,
{
    if n < 10 {
        seq![(48 + if n >= 0 { n } else { 0 }) as u8]
    } else {
        dec_digits(n / 10) + seq![(48 + n % 10) as u8]
    }
}

/// Ten raised to `k`.
pub open spec fn pow10(k: nat) -> int
    decreases k,
{
    if k == 0 {
        1
    } else {
        10 * pow10((k - 1) as nat)
    }
}

proof fn lemma_dec_digits_le(n: int, k: nat)
    requires
        0 <= n < pow10(k),
        1 <= k,
    ensures
        1 <= dec_digits(n).len() <= k,
    decreases k,
{
    if n >= 10 {
        assert(pow10(k) == 10 * pow10((k - 1) as nat));
        lemma_dec_digits_le(n / 10, (k - 1) as nat);
    }
}

/// A 64-bit value needs at most twenty digits; a 32-bit one at most ten.
pub proof fn lemma_dec_digits_len(n: int)
    requires
        0 <= n,
    ensures
        1 <= dec_digits(n).len(),
        n < 0x1_0000_0000_0000_0000 ==> dec_digits(n).len() <= 20,
        n < 0x1_0000_0000 ==> dec_digits(n).len() <= 10,
    decreases n,
{
    reveal_with_fuel(pow10, 21);
    if n < 0x1_0000_0000 {
        assert(pow10(10) == 10000000000);
        lemma_dec_digits_le(n, 10);
    } else if n < 0x1_0000_0000_0000_0000 {
        assert(pow10(20) == 100000000000000000000);
        lemma_dec_digits_le(n, 20);
    }
}

/// Appends the decimal rendering of `n`.
pub fn write_decimal(out: &mut Vec<u8>, n: u64)
    ensures
        final(out)@ == old(out)@ + dec_digits(n as int),
    decreases n,
{
    if n < 10 {
        out.push(48 + (n as u8));
        assert(out@ =~= old(out)@ + dec_digits(n as int));
        return ;
    }
    write_decimal(out, n / 10);
    out.push(48 + ((n % 10) as u8));
    assert(out@ =~= old(out)@ + dec_digits(n as int));
}

/// The opening bytes of a single-text chat component.
pub open spec fn chat_prefix() -> Seq<u8> {
    seq![123u8, 34u8, 116u8, 101u8, 120u8, 116u8, 34u8, 58u8, 34u8]
}

/// A chat component holding exactly the escaped `text`.
pub open spec fn chat_json_of(text: Seq<u8>) -> Seq<u8> {
    chat_prefix() + json_escaped(text) + seq![34u8, 125u8]
}

/// Builds the chat component for `text`.
pub fn make_chat_json(text: &[u8]) -> (r: Vec<u8>)
    ensures
        r@ == chat_json_of(text@),
        r@.len() <= 9 + 2 + 6 * text@.len(),
{
    let mut out: Vec<u8> = Vec::new();
    out.push(123);
    out.push(34);
    out.push(116);
    out.push(101);
    out.push(120);
    out.push(116);
    out.push(34);
    out.push(58);
    out.push(34);
    assert(out@ =~= chat_prefix());
    json_escape_into(&mut out, text);
    out.push(34);
    out.push(125);
    proof {
        lemma_json_escaped_len(text@);
        assert(out@ =~= chat_json_of(text@));
    }
    out
}

/// The status document up to the online player count.
pub open spec fn status_part_version() -> Seq<u8> {
    seq![123u8, 34u8, 118u8, 101u8, 114u8, 115u8, 105u8, 111u8, 110u8, 34u8, 58u8, 123u8, 34u8, 110u8, 97u8, 109u8, 101u8, 34u8, 58u8, 34u8, 49u8, 46u8, 50u8, 48u8, 46u8, 49u8, 34u8, 44u8, 34u8, 112u8, 114u8, 111u8, 116u8, 111u8, 99u8, 111u8, 108u8, 34u8, 58u8, 55u8, 54u8, 51u8, 125u8, 44u8, 34u8, 112u8, 108u8, 97u8, 121u8, 101u8, 114u8, 115u8, 34u8, 58u8, 123u8, 34u8, 111u8, 110u8, 108u8, 105u8, 110u8, 101u8, 34u8, 58u8]
}

/// The status document between the online count and the maximum.
pub open spec fn status_part_max() -> Seq<u8> {
    seq![44u8, 34u8, 109u8, 97u8, 120u8, 34u8, 58u8]
}

/// The status document between the maximum and the escaped description.
pub open spec fn status_part_description() -> Seq<u8> {
    seq![44u8, 34u8, 115u8, 97u8, 109u8, 112u8, 108u8, 101u8, 34u8, 58u8, 91u8, 93u8, 125u8, 44u8, 34u8, 100u8, 101u8, 115u8, 99u8, 114u8, 105u8, 112u8, 116u8, 105u8, 111u8, 110u8, 34u8, 58u8, 34u8]
}

/// The status response document: version name and protocol are fixed, the
/// player counts and the description vary.
pub open spec fn status_json_of(online: u32, max: u32, description: Seq<u8>) -> Seq<u8> {
    status_part_version() + dec_digits(online as int) + status_part_max() + dec_digits(max as int)
        + status_part_description() + json_escaped(description) + seq![34u8, 125u8]
}

/// Appends the opening of the status document, through the version object.
fn push_status_version(out: &mut Vec<u8>)
    ensures
        final(out)@ == old(out)@ + status_part_version(),
{
    out.push(123);
    out.push(34);
    out.push(118);
    out.push(101);
    out.push(114);
    out.push(115);
    out.push(105);
    out.push(111);
    out.push(110);
    out.push(34);
    out.push(58);
    out.push(123);
    out.push(34);
    out.push(110);
    out.push(97);
    out.push(109);
    out.push(101);
    out.push(34);
    out.push(58);
    out.push(34);
    out.push(49);
    out.push(46);
    out.push(50);
    out.push(48);
    out.push(46);
    out.push(49);
    out.push(34);
    out.push(44);
    out.push(34);
    out.push(112);
    out.push(114);
    out.push(111);
    out.push(116);
    out.push(111);
    out.push(99);
    out.push(111);
    out.push(108);
    out.push(34);
    out.push(58);
    out.push(55);
    out.push(54);
    out.push(51);
    out.push(125);
    out.push(44);
    out.push(34);
    out.push(112);
    out.push(108);
    out.push(97);
    out.push(121);
    out.push(101);
    out.push(114);
    out.push(115);
    out.push(34);
    out.push(58);
    out.push(123);
    out.push(34);
    out.push(111);
    out.push(110);
    out.push(108);
    out.push(105);
    out.push(110);
    out.push(101);
    out.push(34);
    out.push(58);
    assert(out@ =~= old(out)@ + status_part_version());
}

/// Appends the key for the advertised capacity.
fn push_status_max(out: &mut Vec<u8>)
    ensures
        final(out)@ == old(out)@ + status_part_max(),
{
    out.push(44);
    out.push(34);
    out.push(109);
    out.push(97);
    out.push(120);
    out.push(34);
    out.push(58);
    assert(out@ =~= old(out)@ + status_part_max());
}

/// Appends the empty sample list and the key for the description.
fn push_status_description(out: &mut Vec<u8>)
    ensures
        final(out)@ == old(out)@ + status_part_description(),
{
    out.push(44);
    out.push(34);
    out.push(115);
    out.push(97);
    out.push(109);
    out.push(112);
    out.push(108);
    out.push(101);
    out.push(34);
    out.push(58);
    out.push(91);
    out.push(93);
    out.push(125);
    out.push(44);
    out.push(34);
    out.push(100);
    out.push(101);
    out.push(115);
    out.push(99);
    out.push(114);
    out.push(105);
    out.push(112);
    out.push(116);
    out.push(105);
    out.push(111);
    out.push(110);
    out.push(34);
    out.push(58);
    out.push(34);
    assert(out@ =~= old(out)@ + status_part_description());
}

/// Builds the status response document.
pub fn make_status_json(online: u32, max: u32, description: &[u8]) -> (r: Vec<u8>)
    ensures
        r@ == status_json_of(online, max, description@),
        r@.len() <= 100 + 22 + 6 * description@.len(),
{
    let mut out: Vec<u8> = Vec::new();
    push_status_version(&mut out);
    write_decimal(&mut out, online as u64);
    let ghost mid1 = out@;
    push_status_max(&mut out);
    write_decimal(&mut out, max as u64);
    let ghost mid2 = out@;
    push_status_description(&mut out);
    json_escape_into(&mut out, description);
    out.push(34);
    out.push(125);
    proof {
        lemma_json_escaped_len(description@);
        lemma_dec_digits_len(online as int);
        lemma_dec_digits_len(max as int);
        assert(out@ =~= status_json_of(online, max, description@));
    }
    out
}

} // verus!
