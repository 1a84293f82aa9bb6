//! The variable-length integer of the wire protocol: seven payload bits per
//! byte, least-significant group first, high bit set on every byte but the
//! last, at most five bytes for a 32-bit value.

use vstd::prelude::*;

verus! {

/// 128 raised to `k`: the weight of the `k`-th encoded byte group.
pub open spec fn pow128(k: nat) -> int
    decreases k,
{
    if k == 0 {
        1
    } else {
        128 * pow128((k - 1) as nat)
    }
}

/// The canonical encoding of `n`: minimal-length, least-significant group
/// first.
pub open spec fn varint_bytes(n: u32) -> Seq<u8>
    decreases n,
{
    if n < 128 {
        seq![n as u8]
    } else {
        seq![(n % 128 + 128) as u8] + varint_bytes(n / 128)
    }
}

/// Outcome of reading one variable-length integer from the front of a buffer.
///
/// `Incomplete` means the buffer ended before the final byte group arrived;
/// more input may still complete the value. `Malformed` is fatal: the
/// encoding runs past five bytes or past `u32::MAX`.
#[derive(Clone, Copy, PartialEq, Eq, Structural, Debug)]
pub enum VarIntRead {
    Incomplete,
    Malformed,
    Value { value: u32, len: usize },
}

/// Reading state after `count` byte groups have contributed `acc`.
pub open spec fn varint_read_rec(s: Seq<u8>, count: nat, acc: int) -> VarIntRead
    decreases 5 - count,
{
    if count >= 5 {
        VarIntRead::Malformed
    } else if s.len() == 0 {
        VarIntRead::Incomplete
    } else {
        let b = s[0];
        let acc2 = acc + (b % 128) * pow128(count);
        if b < 128 {
            if acc2 < 0x1_0000_0000 {
                VarIntRead::Value { value: acc2 as u32, len: (count + 1) as usize }
            } else {
                VarIntRead::Malformed
            }
        } else {
            varint_read_rec(s.skip(1), count + 1, acc2)
        }
    }
}

/// What reading one variable-length integer from the front of `s` yields.
pub open spec fn varint_read(s: Seq<u8>) -> VarIntRead {
    varint_read_rec(s, 0, 0)
}

/// Appends the canonical encoding of `n` to `buf`.
pub fn write_varint(buf: &mut Vec<u8>, n: u32)
    ensures
        final(buf)@ == old(buf)@ + varint_bytes(n),
{
    let mut m = n;
    loop
        invariant
            buf@ + varint_bytes(m) == old(buf)@ + varint_bytes(n),
        decreases m,
    {
        if m < 128 {
            buf.push(m as u8);
            assert(varint_bytes(m) == seq![m as u8]);
            assert(buf@ =~= old(buf)@ + varint_bytes(n));
            return ;
        } else {
            assert(varint_bytes(m) == seq![(m % 128 + 128) as u8] + varint_bytes(m / 128));
            buf.push((m % 128 + 128) as u8);
            proof {
                assert(buf@ + varint_bytes(m / 128) =~= old(buf)@ + varint_bytes(n));
            }
            m = m / 128;
        }
    }
}

/// Reads one variable-length integer from `s` starting at index `from`.
pub fn read_varint(s: &[u8], from: usize) -> (r: VarIntRead)
    requires
        from <= s@.len(),
    ensures
        r == varint_read(s@.skip(from as int)),
        r matches VarIntRead::Value { value, len } ==> 1 <= len <= 5 && from + len <= s@.len(),
{
    let mut count: usize = 0;
    let mut acc: u64 = 0;
    loop
        invariant
            from + count <= s@.len(),
            count <= 5,
            acc < pow128(count as nat),
            varint_read_rec(s@.skip(from as int + count), count as nat, acc as int)
                == varint_read(s@.skip(from as int)),
        decreases 5 - count,
    {
        proof {
            lemma_pow128_bounds(count as nat);
        }
        if count >= 5 {
            return VarIntRead::Malformed;
        }
        if count >= s.len() - from {
            assert(s@.skip(from as int + count).len() == 0);
            return VarIntRead::Incomplete;
        }
        let b = s[from + count];
        proof {
            assert(s@.skip(from as int + count)[0] == b);
        }
        let group: u64 = (b % 128) as u64;
        let weight: u64 = pow128_exec(count);
        assert(group * weight == (b % 128) * pow128(count as nat) && group * weight <= 127
            * 0x1000_0000) by (nonlinear_arith)
            requires
                group == b % 128,
                weight == pow128(count as nat),
                0 <= group < 128,
                1 <= weight <= 0x1000_0000,
        ;
        let next = acc + group * weight;
        let ghost acc2 = acc + (b % 128) * pow128(count as nat);
        assert(next == acc2);
        if b < 128 {
            if next < 0x1_0000_0000u64 {
                return VarIntRead::Value { value: next as u32, len: count + 1 };
            } else {
                return VarIntRead::Malformed;
            }
        }
        proof {
            assert(s@.skip(from as int + count).skip(1) =~= s@.skip(from as int + count + 1));
            assert(acc2 < pow128((count + 1) as nat)) by (nonlinear_arith)
                requires
                    acc2 == acc + (b % 128) * pow128(count as nat),
                    acc < pow128(count as nat),
                    0 <= b % 128 < 128,
                    pow128((count + 1) as nat) == 128 * pow128(count as nat),
                    pow128(count as nat) >= 1,
            ;
        }
        acc = next;
        count = count + 1;
    }
}

/// `pow128` grows by factors of 128 and stays within the bounds the executable
/// reader needs for its five byte groups.
pub proof fn lemma_pow128_bounds(k: nat)
    requires
        k <= 5,
    ensures
        1 <= pow128(k),
        pow128(k) <= 0x8_0000_0000,
        k <= 4 ==> pow128(k) <= 0x1000_0000,
        k <= 3 ==> pow128(k) <= 0x20_0000,
        k <= 2 ==> pow128(k) <= 0x4000,
        k <= 1 ==> pow128(k) <= 128,
    decreases k,
{
    if k > 0 {
        lemma_pow128_bounds((k - 1) as nat);
    }
}

/// Computes `128^k` for the small exponents the reader uses.
fn pow128_exec(k: usize) -> (r: u64)
    requires
        k <= 4,
    ensures
        r == pow128(k as nat),
{
    let mut i: usize = 0;
    let mut r: u64 = 1;
    while i < k
        invariant
            i <= k <= 4,
            r == pow128(i as nat),
        decreases k - i,
    {
        proof {
            lemma_pow128_bounds(i as nat);
            assert(pow128((i + 1) as nat) == 128 * pow128(i as nat));
        }
        r = r * 128;
        i = i + 1;
    }
    r
}

/// The canonical encoding never exceeds five bytes.
pub proof fn lemma_varint_bytes_len(n: u32)
    ensures
        1 <= varint_bytes(n).len() <= 5,
        n < 128 ==> varint_bytes(n).len() == 1,
        n < 0x4000 ==> varint_bytes(n).len() <= 2,
        n < 0x20_0000 ==> varint_bytes(n).len() <= 3,
        n < 0x1000_0000 ==> varint_bytes(n).len() <= 4,
    decreases n,
{
    if n >= 128 {
        lemma_varint_bytes_len(n / 128);
    }
}

proof fn lemma_varint_roundtrip_rec(n: u32, rest: Seq<u8>, count: nat, acc: int)
    requires
        count + varint_bytes(n).len() <= 5,
        0 <= acc,
        acc + n * pow128(count) < 0x1_0000_0000,
    ensures
        varint_read_rec(varint_bytes(n) + rest, count, acc) == (VarIntRead::Value {
            value: (acc + n * pow128(count)) as u32,
            len: (count + varint_bytes(n).len()) as usize,
        }),
    decreases n,
{
    lemma_pow128_bounds(count);
    let s = varint_bytes(n) + rest;
    if n < 128 {
        assert(s[0] == n as u8);
        assert((n as u8) % 128 == n);
        assert(acc + (n as u8 % 128) * pow128(count) == acc + n * pow128(count))
            by (nonlinear_arith)
            requires
                (n as u8 % 128) == n,
        ;
    } else {
        let b = (n % 128 + 128) as u8;
        assert(s[0] == b);
        assert(b >= 128);
        assert(b % 128 == n % 128);
        let acc2 = acc + (b % 128) * pow128(count);
        assert(s.skip(1) =~= varint_bytes(n / 128) + rest);
        assert(acc2 + (n / 128) * pow128(count + 1) == acc + n * pow128(count))
            by (nonlinear_arith)
            requires
                acc2 == acc + (n % 128) * pow128(count),
                pow128(count + 1) == 128 * pow128(count),
        ;
        assert(acc2 >= 0) by (nonlinear_arith)
            requires
                acc2 == acc + (n % 128) * pow128(count),
                acc >= 0,
                pow128(count) >= 1,
        ;
        assert((n / 128) * pow128(count + 1) >= 0) by (nonlinear_arith)
            requires
                pow128(count + 1) >= 1,
        ;
        lemma_varint_roundtrip_rec(n / 128, rest, count + 1, acc2);
    }
}

/// Round trip: the canonical encoding of `n`, in front of anything at all,
/// reads back as `n`, consuming exactly the encoding.
pub proof fn lemma_varint_roundtrip(n: u32, rest: Seq<u8>)
    ensures
        varint_read(varint_bytes(n) + rest) == (VarIntRead::Value {
            value: n,
            len: varint_bytes(n).len() as usize,
        }),
{
    lemma_varint_bytes_len(n);
    lemma_varint_roundtrip_rec(n, rest, 0, 0);
}

proof fn lemma_varint_read_bounds_rec(s: Seq<u8>, count: nat, acc: int)
    ensures
        varint_read_rec(s, count, acc) matches VarIntRead::Value { value, len } ==> count < len <= 5
            && len - count <= s.len(),
    decreases 5 - count,
{
    if count < 5 && s.len() > 0 && s[0] >= 128 {
        lemma_varint_read_bounds_rec(s.skip(1), count + 1, acc + (s[0] % 128) * pow128(count));
    }
}

/// A successful read consumes between one and five bytes, and no more than
/// the buffer holds.
pub proof fn lemma_varint_read_bounds(s: Seq<u8>)
    ensures
        varint_read(s) matches VarIntRead::Value { value, len } ==> 1 <= len <= 5 && len <= s.len(),
{
    lemma_varint_read_bounds_rec(s, 0, 0);
}

proof fn lemma_varint_read_extend_rec(s: Seq<u8>, t: Seq<u8>, count: nat, acc: int)
    requires
        !(varint_read_rec(s, count, acc) matches VarIntRead::Incomplete),
    ensures
        varint_read_rec(s + t, count, acc) == varint_read_rec(s, count, acc),
    decreases 5 - count,
{
    if count >= 5 {
    } else {
        assert(s.len() > 0);
        assert((s + t)[0] == s[0]);
        if s[0] >= 128 {
            assert(s.skip(1) + t =~= (s + t).skip(1));
            lemma_varint_read_extend_rec(
                s.skip(1),
                t,
                count + 1,
                acc + (s[0] % 128) * pow128(count),
            );
        }
    }
}

/// Reading is stable under appended input: once a read yields a value or a
/// malformed verdict on `s`, feeding more bytes after `s` cannot change it.
pub proof fn lemma_varint_read_extend(s: Seq<u8>, t: Seq<u8>)
    requires
        !(varint_read(s) matches VarIntRead::Incomplete),
    ensures
        varint_read(s + t) == varint_read(s),
{
    lemma_varint_read_extend_rec(s, t, 0, 0);
}

} // verus!
