//! Account identity: the offline UUID is the first sixteen bytes of the
//! SHA-256 digest of the UTF-8 username, read as a big-endian 128-bit
//! integer.

use sha2::Digest;
use vstd::prelude::*;
use vstd::string::StringSliceAdditionalSpecFns;

verus! {

/// The SHA-256 digest of `data`: a function of the input bytes alone.
pub uninterp spec fn sha256_of(data: Seq<u8>) -> Seq<u8>;

/// Relies on `sha2::Sha256::digest`: the digest is 32 bytes and depends only
/// on the input bytes.
#[verifier::external_body]
pub(crate) fn sha256(data: &[u8]) -> (r: Vec<u8>)
    ensures
        r@ == sha256_of(data@),
        r@.len() == 32,
{
    sha2::Sha256::digest(data).to_vec()
}

/// A 128-bit account identifier.
#[derive(Clone, Copy, PartialEq, Eq, Structural, Debug)]
pub struct Uuid {
    pub value: u128,
}

/// 256 raised to `k`: the weight of the `k`-th byte from the end in a
/// big-endian reading.
pub open spec fn pow256(k: nat) -> int
    decreases k,
{
    if k == 0 {
        1
    } else {
        256 * pow256((k - 1) as nat)
    }
}

/// The big-endian integer a byte string denotes.
pub open spec fn be_int_of(s: Seq<u8>) -> int
    decreases s.len(),
{
    if s.len() == 0 {
        0
    } else {
        be_int_of(s.drop_last()) * 256 + s.last()
    }
}

/// A big-endian reading of `k` bytes stays below `256^k`.
pub proof fn lemma_be_int_bound(s: Seq<u8>)
    ensures
        0 <= be_int_of(s) < pow256(s.len()),
    decreases s.len(),
{
    if s.len() > 0 {
        lemma_be_int_bound(s.drop_last());
        assert(be_int_of(s.drop_last()) * 256 + s.last() < pow256(s.len())) by (nonlinear_arith)
            requires
                0 <= be_int_of(s.drop_last()) < pow256((s.len() - 1) as nat),
                s.last() < 256,
                pow256(s.len()) == 256 * pow256((s.len() - 1) as nat),
        ;
        assert(be_int_of(s.drop_last()) * 256 >= 0) by (nonlinear_arith)
            requires
                be_int_of(s.drop_last()) >= 0,
        ;
    }
}

/// The value of `256^16`, the bound a sixteen-byte big-endian reading obeys.
pub proof fn lemma_pow256_all()
    ensures
        pow256(16) == 0x1_0000_0000_0000_0000_0000_0000_0000_0000,
{
    reveal_with_fuel(pow256, 17);
}

/// Reads sixteen bytes as a big-endian unsigned 128-bit integer.
pub fn be_u128(bytes: &[u8]) -> (r: u128)
    requires
        bytes@.len() == 16,
    ensures
        r == be_int_of(bytes@),
{
    let mut r: u128 = 0;
    let mut i: usize = 0;
    proof {
        assert(bytes@.take(0) =~= Seq::<u8>::empty());
        lemma_pow256_all();
    }
    while i < 16
        invariant
            bytes@.len() == 16,
            i <= 16,
            r == be_int_of(bytes@.take(i as int)),
            pow256(16) == 0x1_0000_0000_0000_0000_0000_0000_0000_0000,
        decreases 16 - i,
    {
        let b = bytes[i];
        proof {
            lemma_be_int_bound(bytes@.take(i as int));
            lemma_pow256_mono((i + 1) as nat, 16);
            assert(bytes@.take(i + 1).drop_last() =~= bytes@.take(i as int));
            assert(bytes@.take(i + 1).last() == b);
            assert(r * 256 + b < pow256((i + 1) as nat)) by (nonlinear_arith)
                requires
                    0 <= r < pow256(i as nat),
                    b < 256,
                    pow256((i + 1) as nat) == 256 * pow256(i as nat),
            ;
            assert(r * 256 >= 0) by (nonlinear_arith)
                requires
                    r >= 0,
            ;
        }
        r = r * 256 + (b as u128);
        i = i + 1;
    }
    proof {
        assert(bytes@.take(16) =~= bytes@);
    }
    r
}

/// `256^k` is positive.
pub proof fn lemma_pow256_pos(k: nat)
    ensures
        pow256(k) >= 1,
    decreases k,
{
    if k > 0 {
        lemma_pow256_pos((k - 1) as nat);
    }
}

/// `256^k` is monotone in the exponent.
pub proof fn lemma_pow256_mono(a: nat, b: nat)
    requires
        a <= b,
    ensures
        pow256(a) <= pow256(b),
    decreases b - a,
{
    lemma_pow256_pos(a);
    if a < b {
        lemma_pow256_mono(a, (b - 1) as nat);
        assert(pow256(b) == 256 * pow256((b - 1) as nat));
        assert(pow256((b - 1) as nat) <= pow256(b)) by (nonlinear_arith)
            requires
                pow256(b) == 256 * pow256((b - 1) as nat),
                pow256((b - 1) as nat) >= 1,
        ;
    }
}

/// The offline UUID a raw username derives: the first sixteen digest bytes,
/// big-endian. A function of the username bytes alone.
pub open spec fn offline_uuid_of_bytes(name: Seq<u8>) -> int {
    be_int_of(sha256_of(name).take(16))
}

/// The offline UUID a username derives, through its UTF-8 bytes.
pub open spec fn offline_uuid_of(name: Seq<char>) -> int {
    offline_uuid_of_bytes(vstd::utf8::encode_utf8(name))
}

/// Derives the offline UUID for a raw username.
pub fn offline_uuid_bytes(username: &[u8]) -> (r: Uuid)
    ensures
        r.value == offline_uuid_of_bytes(username@),
{
    let digest = sha256(username);
    let mut prefix = digest;
    prefix.truncate(16);
    proof {
        assert(prefix@ =~= sha256_of(username@).take(16));
        lemma_be_int_bound(prefix@);
        lemma_pow256_all();
    }
    let value = be_u128(prefix.as_slice());
    Uuid { value }
}

/// Derives the offline UUID for `username`.
pub fn offline_uuid(username: &str) -> (r: Uuid)
    ensures
        r.value == offline_uuid_of(username@),
{
    offline_uuid_bytes(username.as_bytes())
}

} // verus!
