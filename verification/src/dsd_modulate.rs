//! The byte layout of a 1-bit DSD stream.
//!
//! A delta-sigma modulator turns oversampled PCM into one bit per sample; DSD stores
//! those bits eight to a byte, most significant bit first, and a stream whose length is
//! not a multiple of eight ends in `0` bits. The modulator works on floating-point
//! samples and stands outside this library; the packing of its bits into bytes, and the
//! reading of bytes back into bits, stand here.

use vstd::prelude::*;

verus! {

/// Bit `k` of a bit stream; `false` (DSD `0`) past its end.
pub open spec fn bit_at(bits: Seq<bool>, k: int) -> bool {
    0 <= k < bits.len() && bits[k]
}

/// `1` for a set bit, `0` otherwise.
pub open spec fn bit_value(b: bool) -> int {
    if b {
        1
    } else {
        0
    }
}

/// The number formed by the `m` bits from `start`, first bit most significant.
pub open spec fn bits_value(bits: Seq<bool>, start: int, m: nat) -> int
    decreases m,
{
    if m == 0 {
        0
    } else {
        2 * bits_value(bits, start, (m - 1) as nat) + bit_value(bit_at(bits, start + m - 1))
    }
}

/// Byte `i` of a packed stream: bits `8i .. 8i + 8`, most significant first.
pub open spec fn dsd_byte(bits: Seq<bool>, i: int) -> u8 {
    bits_value(bits, 8 * i, 8) as u8
}

/// The bytes of a bit stream: eight bits to a byte, most significant bit first, the
/// last byte padded with `0` bits.
pub open spec fn dsd_bytes_of(bits: Seq<bool>) -> Seq<u8> {
    Seq::new((bits.len() + 7) / 8, |i: int| dsd_byte(bits, i))
}

/// Bit `t` of a byte counted from the most significant (t = 0) to the least (t = 7).
pub open spec fn byte_bit(v: u8, t: int) -> bool {
    ((v >> ((7 - t) as u8)) & 1u8) == 1u8
}

/// The bits of a byte stream, most significant bit of each byte first.
pub open spec fn dsd_bits_of(bytes: Seq<u8>) -> Seq<bool> {
    Seq::new(8 * bytes.len(), |k: int| byte_bit(bytes[k / 8], k % 8))
}

proof fn lemma_bits_value_bound(bits: Seq<bool>, start: int, m: nat)
    requires
        m <= 8,
    ensures
        0 <= bits_value(bits, start, m) <= 255,
        m <= 7 ==> bits_value(bits, start, m) <= 127,
        m <= 6 ==> bits_value(bits, start, m) <= 63,
        m <= 5 ==> bits_value(bits, start, m) <= 31,
        m <= 4 ==> bits_value(bits, start, m) <= 15,
        m <= 3 ==> bits_value(bits, start, m) <= 7,
        m <= 2 ==> bits_value(bits, start, m) <= 3,
        m <= 1 ==> bits_value(bits, start, m) <= 1,
        m == 0 ==> bits_value(bits, start, m) == 0,
    decreases m,
{
    if m > 0 {
        lemma_bits_value_bound(bits, start, (m - 1) as nat);
    }
}

/// A byte as the sum of its eight bits.
proof fn lemma_dsd_byte_sum(bits: Seq<bool>, i: int)
    ensures
        dsd_byte(bits, i) as int == 128 * bit_value(bit_at(bits, 8 * i)) + 64 * bit_value(
            bit_at(bits, 8 * i + 1),
        ) + 32 * bit_value(bit_at(bits, 8 * i + 2)) + 16 * bit_value(bit_at(bits, 8 * i + 3))
            + 8 * bit_value(bit_at(bits, 8 * i + 4)) + 4 * bit_value(bit_at(bits, 8 * i + 5)) + 2
            * bit_value(bit_at(bits, 8 * i + 6)) + bit_value(bit_at(bits, 8 * i + 7)),
{
    reveal_with_fuel(bits_value, 9);
    lemma_bits_value_bound(bits, 8 * i, 8);
}

/// Reading a byte made of eight bits gives those bits back.
proof fn lemma_byte_bits(b0: bool, b1: bool, b2: bool, b3: bool, b4: bool, b5: bool, b6: bool, b7: bool, v: u8)
    requires
        v as int == 128 * bit_value(b0) + 64 * bit_value(b1) + 32 * bit_value(b2) + 16 * bit_value(
            b3,
        ) + 8 * bit_value(b4) + 4 * bit_value(b5) + 2 * bit_value(b6) + bit_value(b7),
    ensures
        byte_bit(v, 0) == b0,
        byte_bit(v, 1) == b1,
        byte_bit(v, 2) == b2,
        byte_bit(v, 3) == b3,
        byte_bit(v, 4) == b4,
        byte_bit(v, 5) == b5,
        byte_bit(v, 6) == b6,
        byte_bit(v, 7) == b7,
{
    let x0: u8 = if b0 { 1 } else { 0 };
    let x1: u8 = if b1 { 1 } else { 0 };
    let x2: u8 = if b2 { 1 } else { 0 };
    let x3: u8 = if b3 { 1 } else { 0 };
    let x4: u8 = if b4 { 1 } else { 0 };
    let x5: u8 = if b5 { 1 } else { 0 };
    let x6: u8 = if b6 { 1 } else { 0 };
    let x7: u8 = if b7 { 1 } else { 0 };
    assert(v == 128 * x0 + 64 * x1 + 32 * x2 + 16 * x3 + 8 * x4 + 4 * x5 + 2 * x6 + x7);
    assert(((v >> 7u8) & 1u8) == x0 && ((v >> 6u8) & 1u8) == x1 && ((v >> 5u8) & 1u8) == x2 && ((v
        >> 4u8) & 1u8) == x3 && ((v >> 3u8) & 1u8) == x4 && ((v >> 2u8) & 1u8) == x5 && ((v >> 1u8)
        & 1u8) == x6 && ((v >> 0u8) & 1u8) == x7) by (bit_vector)
        requires
            x0 <= 1 && x1 <= 1 && x2 <= 1 && x3 <= 1 && x4 <= 1 && x5 <= 1 && x6 <= 1 && x7 <= 1,
            v == 128 * x0 + 64 * x1 + 32 * x2 + 16 * x3 + 8 * x4 + 4 * x5 + 2 * x6 + x7,
    ;
}

/// Packs DSD bits into bytes, eight to a byte, most significant bit first; when the
/// bit count is not a multiple of eight, the last byte is padded with `0` bits.
pub fn pack_dsd_bits(bits: &[bool]) -> (r: Vec<u8>)
    ensures
        r@ == dsd_bytes_of(bits@),
{
    let ghost full = dsd_bytes_of(bits@);
    let mut bytes: Vec<u8> = Vec::new();
    let mut current: u8 = 0;
    let mut count: usize = 0;
    let mut k: usize = 0;
    while k < bits.len()
        invariant
            full == dsd_bytes_of(bits@),
            k <= bits@.len(),
            count < 8,
            k == 8 * bytes@.len() + count,
            current as int == bits_value(bits@, (8 * bytes@.len()) as int, count as nat),
            bytes@ == full.take(bytes@.len() as int),
        decreases bits@.len() - k,
    {
        proof {
            lemma_bits_value_bound(bits@, (8 * bytes@.len()) as int, count as nat);
        }
        let bit = bits[k];
        current = current * 2 + if bit {
            1
        } else {
            0
        };
        count += 1;
        k += 1;
        if count == 8 {
            proof {
                assert(bytes@.len() < full.len());
            }
            bytes.push(current);
            assert(bytes@ =~= full.take(bytes@.len() as int));
            current = 0;
            count = 0;
        }
    }
    if count > 0 {
        let ghost start = (8 * bytes@.len()) as int;
        while count < 8
            invariant
                full == dsd_bytes_of(bits@),
                k == bits@.len(),
                0 < count <= 8,
                start == 8 * bytes@.len(),
                k <= start + count,
                current as int == bits_value(bits@, start, count as nat),
                bytes@ == full.take(bytes@.len() as int),
            decreases 8 - count,
        {
            proof {
                lemma_bits_value_bound(bits@, start, count as nat);
            }
            current = current * 2;
            count += 1;
        }
        assert(bytes@.len() < full.len());
        bytes.push(current);
        assert(bytes@ =~= full.take(bytes@.len() as int));
    }
    assert(bytes@.len() == full.len());
    assert(bytes@ =~= full);
    bytes
}

/// Reads DSD bytes back into bits, most significant bit of each byte first.
pub fn unpack_dsd_bits(bytes: &[u8]) -> (r: Vec<bool>)
    ensures
        r@ == dsd_bits_of(bytes@),
{
    let ghost full = dsd_bits_of(bytes@);
    let mut bits: Vec<bool> = Vec::new();
    let mut i: usize = 0;
    while i < bytes.len()
        invariant
            full == dsd_bits_of(bytes@),
            i <= bytes@.len(),
            bits@ == full.take(8 * i),
        decreases bytes@.len() - i,
    {
        let byte = bytes[i];
        let mut t: u8 = 0;
        while t < 8
            invariant
                full == dsd_bits_of(bytes@),
                i < bytes@.len(),
                byte == bytes@[i as int],
                t <= 8,
                bits@ == full.take(8 * i + t),
            decreases 8 - t,
        {
            bits.push(((byte >> (7 - t)) & 1) == 1);
            proof {
                let k = 8 * i + t;
                assert(k / 8 == i as int);
                assert(k % 8 == t as int);
            }
            t += 1;
            assert(bits@ =~= full.take(8 * i + t));
        }
        i += 1;
    }
    assert(bits@ =~= full);
    bits
}

/// Packing bits and reading them back gives the bits, followed by the `0` bits that pad
/// the last byte.
pub proof fn lemma_dsd_pack_unpack(bits: Seq<bool>)
    ensures
        dsd_bits_of(dsd_bytes_of(bits)) == Seq::new(
            8 * ((bits.len() + 7) / 8),
            |k: int| bit_at(bits, k),
        ),
{
    let bytes = dsd_bytes_of(bits);
    assert forall|k: int| 0 <= k < 8 * bytes.len() implies #[trigger] dsd_bits_of(bytes)[k]
        == bit_at(bits, k) by {
        let i = k / 8;
        let t = k % 8;
        lemma_dsd_byte_sum(bits, i);
        lemma_byte_bits(
            bit_at(bits, 8 * i),
            bit_at(bits, 8 * i + 1),
            bit_at(bits, 8 * i + 2),
            bit_at(bits, 8 * i + 3),
            bit_at(bits, 8 * i + 4),
            bit_at(bits, 8 * i + 5),
            bit_at(bits, 8 * i + 6),
            bit_at(bits, 8 * i + 7),
            bytes[i],
        );
        assert(k == 8 * i + t);
    }
    assert(dsd_bits_of(bytes) =~= Seq::new(8 * ((bits.len() + 7) / 8), |k: int| bit_at(bits, k)));
}

/// Reading bytes into bits and packing them again gives the bytes.
pub proof fn lemma_dsd_unpack_pack(bytes: Seq<u8>)
    ensures
        dsd_bytes_of(dsd_bits_of(bytes)) == bytes,
{
    let bits = dsd_bits_of(bytes);
    assert forall|i: int| 0 <= i < bytes.len() implies #[trigger] dsd_bytes_of(bits)[i]
        == bytes[i] by {
        let v = bytes[i];
        lemma_dsd_byte_sum(bits, i);
        assert forall|t: int| 0 <= t < 8 implies #[trigger] bit_at(bits, 8 * i + t) == byte_bit(v, t) by {
            assert((8 * i + t) / 8 == i);
            assert((8 * i + t) % 8 == t);
        }
        let x0: u8 = if byte_bit(v, 0) { 1 } else { 0 };
        let x1: u8 = if byte_bit(v, 1) { 1 } else { 0 };
        let x2: u8 = if byte_bit(v, 2) { 1 } else { 0 };
        let x3: u8 = if byte_bit(v, 3) { 1 } else { 0 };
        let x4: u8 = if byte_bit(v, 4) { 1 } else { 0 };
        let x5: u8 = if byte_bit(v, 5) { 1 } else { 0 };
        let x6: u8 = if byte_bit(v, 6) { 1 } else { 0 };
        let x7: u8 = if byte_bit(v, 7) { 1 } else { 0 };
        assert(((v >> 7u8) & 1u8) <= 1 && ((v >> 6u8) & 1u8) <= 1 && ((v >> 5u8) & 1u8) <= 1 && ((v
            >> 4u8) & 1u8) <= 1 && ((v >> 3u8) & 1u8) <= 1 && ((v >> 2u8) & 1u8) <= 1 && ((v >> 1u8)
            & 1u8) <= 1 && ((v >> 0u8) & 1u8) <= 1) by (bit_vector);
        assert((7 - 0int) as u8 == 7u8 && (7 - 1int) as u8 == 6u8 && (7 - 2int) as u8 == 5u8 && (7
            - 3int) as u8 == 4u8 && (7 - 4int) as u8 == 3u8 && (7 - 5int) as u8 == 2u8 && (7 - 6int)
            as u8 == 1u8 && (7 - 7int) as u8 == 0u8);
        assert(x0 == ((v >> 7u8) & 1u8));
        assert(x1 == ((v >> 6u8) & 1u8));
        assert(x2 == ((v >> 5u8) & 1u8));
        assert(x3 == ((v >> 4u8) & 1u8));
        assert(x4 == ((v >> 3u8) & 1u8));
        assert(x5 == ((v >> 2u8) & 1u8));
        assert(x6 == ((v >> 1u8) & 1u8));
        assert(x7 == ((v >> 0u8) & 1u8));
        assert(v as int == 128 * x0 + 64 * x1 + 32 * x2 + 16 * x3 + 8 * x4 + 4 * x5 + 2 * x6 + x7)
            by (bit_vector)
            requires
                x0 == ((v >> 7u8) & 1u8),
                x1 == ((v >> 6u8) & 1u8),
                x2 == ((v >> 5u8) & 1u8),
                x3 == ((v >> 4u8) & 1u8),
                x4 == ((v >> 3u8) & 1u8),
                x5 == ((v >> 2u8) & 1u8),
                x6 == ((v >> 1u8) & 1u8),
                x7 == ((v >> 0u8) & 1u8),
        ;
    }
    assert(dsd_bytes_of(bits) =~= bytes);
}

} // verus!
