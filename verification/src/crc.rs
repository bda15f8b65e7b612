//! CRC-16/EN-13757, the checksum behind every block on the air: polynomial
//! `x^16 + x^13 + x^12 + x^11 + x^10 + x^8 + x^6 + x^5 + x^2 + 1`, the register cleared at
//! the start, bits taken most significant first, the register inverted at the end.

use vstd::prelude::*;

verus! {

/// The generator polynomial without its leading term.
pub const POLYNOMIAL: u16 = 0x3d65;

/// The register shifted by one bit.
pub open spec fn shifted(register: u16) -> u16 {
    if register & 0x8000 != 0 {
        (register << 1) ^ POLYNOMIAL
    } else {
        register << 1
    }
}

/// The register once `byte` has been shifted through it.
pub open spec fn stepped(register: u16, byte: u8) -> u16 {
    shifted(
        shifted(
            shifted(
                shifted(
                    shifted(shifted(shifted(shifted(register ^ ((byte as u16) << 8))))),
                ),
            ),
        ),
    )
}

/// The register once all of `data` has been shifted through it.
pub open spec fn register_after(data: Seq<u8>) -> u16
    decreases data.len(),
{
    if data.len() == 0 {
        0
    } else {
        stepped(register_after(data.drop_last()), data.last())
    }
}

/// The checksum of `data`.
pub open spec fn crc16(data: Seq<u8>) -> u16 {
    register_after(data) ^ 0xffff
}

fn shift(register: u16) -> (out: u16)
    ensures
        out == shifted(register),
{
    if register & 0x8000 != 0 {
        (register << 1) ^ POLYNOMIAL
    } else {
        register << 1
    }
}

/// The CRC-16/EN-13757 of `data`.
pub fn checksum(data: &[u8]) -> (sum: u16)
    ensures
        sum == crc16(data@),
{
    let mut register: u16 = 0;
    let mut i: usize = 0;
    while i < data.len()
        invariant
            i <= data@.len(),
            register == register_after(data@.take(i as int)),
        decreases data@.len() - i,
    {
        assert(data@.take(i + 1).drop_last() =~= data@.take(i as int));
        let byte: u16 = data[i] as u16;
        let mixed: u16 = register ^ (byte << 8);
        register = shift(shift(shift(shift(shift(shift(shift(shift(mixed))))))));
        i = i + 1;
    }
    assert(data@.take(i as int) =~= data@);
    register ^ 0xffff
}

/// Two registers that differ still differ once the same byte has been shifted in.
proof fn lemma_stepped_keeps_registers_apart(a: u16, b: u16, byte: u8)
    requires
        a != b,
    ensures
        stepped(a, byte) != stepped(b, byte),
{
    assert(stepped(a, byte) != stepped(b, byte)) by (bit_vector)
        requires
            a != b,
    ;
}

/// Two bytes that differ leave one register in different states.
proof fn lemma_stepped_tells_bytes_apart(register: u16, x: u8, y: u8)
    requires
        x != y,
    ensures
        stepped(register, x) != stepped(register, y),
{
    assert(stepped(register, x) != stepped(register, y)) by (bit_vector)
        requires
            x != y,
    ;
}

proof fn lemma_register_tells_one_byte(data: Seq<u8>, i: int, byte: u8)
    requires
        0 <= i < data.len(),
        byte != data[i],
    ensures
        register_after(data.update(i, byte)) != register_after(data),
    decreases data.len(),
{
    let changed = data.update(i, byte);
    if i == data.len() - 1 {
        assert(changed.drop_last() =~= data.drop_last());
        lemma_stepped_tells_bytes_apart(register_after(data.drop_last()), data[i], byte);
    } else {
        assert(changed.drop_last() =~= data.drop_last().update(i, byte));
        lemma_register_tells_one_byte(data.drop_last(), i, byte);
        lemma_stepped_keeps_registers_apart(
            register_after(data.drop_last()),
            register_after(changed.drop_last()),
            data.last(),
        );
    }
}

/// A change to one byte, whatever the byte becomes, changes the checksum.
pub proof fn law_one_changed_byte_changes_the_checksum(data: Seq<u8>, i: int, byte: u8)
    requires
        0 <= i < data.len(),
        byte != data[i],
    ensures
        crc16(data.update(i, byte)) != crc16(data),
{
    lemma_register_tells_one_byte(data, i, byte);
    let a = register_after(data);
    let b = register_after(data.update(i, byte));
    assert(a ^ 0xffff != b ^ 0xffff) by (bit_vector)
        requires
            a != b,
    ;
}

/// Bit `p` of `data`, the most significant bit of each byte first.
pub open spec fn bit_of(data: Seq<u8>, p: int) -> bool {
    (data[p / 8] >> ((7 - p % 8) as u8)) & 1 == 1
}

/// Bit `t` of `word`, the most significant first.
pub open spec fn word_bit(word: u16, t: int) -> bool {
    (word >> ((15 - t) as u16)) & 1 == 1
}

/// The coefficient at `i` of a polynomial over GF(2), the highest power first.
pub open spec fn coefficient(polynomial: Seq<bool>, i: int) -> bool {
    0 <= i < polynomial.len() && polynomial[i]
}

/// The coefficient at `p`, the highest power first, of `quotient` times
/// `x^16 + x^13 + x^12 + x^11 + x^10 + x^8 + x^6 + x^5 + x^2 + 1` over GF(2): the sum of as
/// many copies of `quotient` as there are terms, each as many places down as its term is
/// below `x^16`.
pub open spec fn multiple(quotient: Seq<bool>, p: int) -> bool {
    coefficient(quotient, p) ^ coefficient(quotient, p - 3) ^ coefficient(quotient, p - 4)
        ^ coefficient(quotient, p - 5) ^ coefficient(quotient, p - 6) ^ coefficient(
        quotient,
        p - 8,
    ) ^ coefficient(quotient, p - 10) ^ coefficient(quotient, p - 11) ^ coefficient(
        quotient,
        p - 14,
    ) ^ coefficient(quotient, p - 16)
}

/// Whether `remainder` is what division by the generator leaves of `data` with sixteen zero
/// bits behind it: `data` with `remainder` behind it is `quotient` times the generator.
pub open spec fn divides(data: Seq<u8>, quotient: Seq<bool>, remainder: u16) -> bool {
    &&& quotient.len() == 8 * data.len()
    &&& forall|p: int|
        0 <= p < 8 * data.len() ==> #[trigger] multiple(quotient, p) == bit_of(data, p)
    &&& forall|t: int|
        0 <= t < 16 ==> #[trigger] word_bit(remainder, t) == multiple(
            quotient,
            8 * data.len() + t,
        )
}

proof fn lemma_shifted_bit(register: u16, t: int)
    requires
        0 <= t < 16,
    ensures
        word_bit(shifted(register), t) == ((t < 15 && word_bit(register, t + 1)) ^ (word_bit(
            register,
            0,
        ) && (t == 2 || t == 3 || t == 4 || t == 5 || t == 7 || t == 9 || t == 10 || t == 13 || t
            == 15))),
{
    let d: u16 = (15 - t) as u16;
    let out = shifted(register);
    assert(((out >> d) & 1 == 1) == ((d > 0 && (register >> ((d - 1) as u16)) & 1 == 1) ^ ((register
        >> 15) & 1 == 1 && (d == 13 || d == 12 || d == 11 || d == 10 || d == 8 || d == 6 || d == 5
        || d == 2 || d == 0)))) by (bit_vector)
        requires
            d < 16,
            out == shifted(register),
    ;
    if t < 15 {
        assert((d - 1) as u16 == (15 - (t + 1)) as u16);
    }
}

/// Whether the division has come as far as `quotient` is long: its multiple has the bits of
/// `data` on top, and `register` holds what comes next, `left` bits of `data` among it.
#[verifier::opaque]
spec fn divided_so_far(data: Seq<u8>, quotient: Seq<bool>, register: u16, left: int) -> bool {
    &&& forall|p: int|
        0 <= p < quotient.len() ==> #[trigger] multiple(quotient, p) == bit_of(data, p)
    &&& forall|t: int|
        0 <= t < 16 ==> #[trigger] word_bit(register, t) == (multiple(
            quotient,
            quotient.len() + t,
        ) ^ (t < left && bit_of(data, quotient.len() + t)))
}

/// One bit more: the bit on top of the register says whether the generator is taken away here.
proof fn lemma_one_bit_more(data: Seq<u8>, quotient: Seq<bool>, register: u16, left: int)
    requires
        1 <= left <= 8,
        divided_so_far(data, quotient, register, left),
    ensures
        divided_so_far(
            data,
            quotient.push(word_bit(register, 0)),
            shifted(register),
            left - 1,
        ),
{
    reveal(divided_so_far);
    let k = quotient.len() as int;
    let longer = quotient.push(word_bit(register, 0));
    assert forall|i: int| i != k implies #[trigger] coefficient(longer, i) == coefficient(
        quotient,
        i,
    ) by {}
    assert(word_bit(register, 0) == (multiple(quotient, k + 0) ^ bit_of(data, k + 0)));
    assert forall|p: int| 0 <= p < longer.len() implies #[trigger] multiple(longer, p) == bit_of(
        data,
        p,
    ) by {
        if p < k {
            assert(multiple(quotient, p) == bit_of(data, p));
        }
    }
    assert forall|t: int| 0 <= t < 16 implies #[trigger] word_bit(shifted(register), t) == (
    multiple(longer, longer.len() + t) ^ (t < left - 1 && bit_of(data, longer.len() + t))) by {
        lemma_shifted_bit(register, t);
        if t < 15 {
            assert(word_bit(register, t + 1) == (multiple(quotient, k + (t + 1)) ^ (t + 1 < left
                && bit_of(data, k + (t + 1)))));
        }
    }
}

proof fn lemma_mixed_bit(register: u16, byte: u8, t: int)
    requires
        0 <= t < 16,
    ensures
        word_bit(register ^ ((byte as u16) << 8), t) == (word_bit(register, t) ^ (t < 8 && (byte
            >> ((7 - t) as u8)) & 1 == 1)),
{
    let d: u16 = (15 - t) as u16;
    assert((((register ^ ((byte as u16) << 8)) >> d) & 1 == 1) == (((register >> d) & 1 == 1) ^ (d
        >= 8 && (byte >> ((d - 8) as u8)) & 1 == 1))) by (bit_vector)
        requires
            d < 16,
    ;
    if t < 8 {
        assert((d - 8) as u8 == (7 - t) as u8);
    }
}

/// A byte mixed into the register is eight bits of `data` to come.
proof fn lemma_one_byte_more(data: Seq<u8>, quotient: Seq<bool>)
    requires
        data.len() > 0,
        divides(data.drop_last(), quotient, register_after(data.drop_last())),
    ensures
        divided_so_far(
            data,
            quotient,
            register_after(data.drop_last()) ^ ((data.last() as u16) << 8),
            8,
        ),
{
    reveal(divided_so_far);
    let shorter = data.drop_last();
    let k = quotient.len() as int;
    let register = register_after(shorter);
    let mixed = register ^ ((data.last() as u16) << 8);
    assert forall|p: int| 0 <= p < k implies #[trigger] multiple(quotient, p) == bit_of(data, p) by {
        assert(multiple(quotient, p) == bit_of(shorter, p));
    }
    assert forall|t: int| 0 <= t < 16 implies #[trigger] word_bit(mixed, t) == (multiple(
        quotient,
        quotient.len() + t,
    ) ^ (t < 8 && bit_of(data, quotient.len() + t))) by {
        lemma_mixed_bit(register, data.last(), t);
        assert(word_bit(register, t) == multiple(quotient, 8 * shorter.len() + t));
        if t < 8 {
            assert((k + t) / 8 == shorter.len() && (k + t) % 8 == t);
        }
    }
}

proof fn lemma_register_is_the_remainder(data: Seq<u8>) -> (quotient: Seq<bool>)
    ensures
        divides(data, quotient, register_after(data)),
    decreases data.len(),
{
    if data.len() == 0 {
        let none: Seq<bool> = seq![];
        assert forall|t: int| 0 <= t < 16 implies #[trigger] word_bit(0, t) == multiple(
            none,
            8 * data.len() + t,
        ) by {
            let d: u16 = (15 - t) as u16;
            assert((0u16 >> d) & 1 == 0) by (bit_vector)
                requires
                    d < 16,
            ;
        }
        none
    } else {
        let q0 = lemma_register_is_the_remainder(data.drop_last());
        let r0 = register_after(data.drop_last()) ^ ((data.last() as u16) << 8);
        lemma_one_byte_more(data, q0);
        lemma_one_bit_more(data, q0, r0, 8);
        let (q1, r1) = (q0.push(word_bit(r0, 0)), shifted(r0));
        lemma_one_bit_more(data, q1, r1, 7);
        let (q2, r2) = (q1.push(word_bit(r1, 0)), shifted(r1));
        lemma_one_bit_more(data, q2, r2, 6);
        let (q3, r3) = (q2.push(word_bit(r2, 0)), shifted(r2));
        lemma_one_bit_more(data, q3, r3, 5);
        let (q4, r4) = (q3.push(word_bit(r3, 0)), shifted(r3));
        lemma_one_bit_more(data, q4, r4, 4);
        let (q5, r5) = (q4.push(word_bit(r4, 0)), shifted(r4));
        lemma_one_bit_more(data, q5, r5, 3);
        let (q6, r6) = (q5.push(word_bit(r5, 0)), shifted(r5));
        lemma_one_bit_more(data, q6, r6, 2);
        let (q7, r7) = (q6.push(word_bit(r6, 0)), shifted(r6));
        lemma_one_bit_more(data, q7, r7, 1);
        let (q8, r8) = (q7.push(word_bit(r7, 0)), shifted(r7));
        assert(r8 == register_after(data));
        assert(q8.len() == 8 * data.len());
        assert(divides(data, q8, r8)) by {
            reveal(divided_so_far);
            assert forall|t: int| 0 <= t < 16 implies #[trigger] word_bit(r8, t) == multiple(
                q8,
                8 * data.len() + t,
            ) by {
                assert(word_bit(r8, t) == multiple(q8, q8.len() + t));
            }
        }
        q8
    }
}

/// The checksum, inverted, is the remainder of `data` times `x^16` divided by
/// `x^16 + x^13 + x^12 + x^11 + x^10 + x^8 + x^6 + x^5 + x^2 + 1` over GF(2): some multiple of
/// the generator has the bits of `data` at its top and the inverted checksum behind them.
pub proof fn law_the_checksum_is_the_inverted_remainder(data: Seq<u8>)
    ensures
        exists|quotient: Seq<bool>|
            {
                &&& #[trigger] quotient.len() == 8 * data.len()
                &&& forall|p: int|
                    0 <= p < 8 * data.len() ==> #[trigger] multiple(quotient, p) == bit_of(data, p)
                &&& forall|t: int|
                    0 <= t < 16 ==> #[trigger] word_bit(crc16(data), t) == !multiple(
                        quotient,
                        8 * data.len() + t,
                    )
            },
{
    let quotient = lemma_register_is_the_remainder(data);
    let register = register_after(data);
    assert forall|t: int| 0 <= t < 16 implies #[trigger] word_bit(crc16(data), t) == !multiple(
        quotient,
        8 * data.len() + t,
    ) by {
        let d: u16 = (15 - t) as u16;
        assert((((register ^ 0xffff) >> d) & 1 == 1) == !((register >> d) & 1 == 1)) by (bit_vector)
            requires
                d < 16,
        ;
        assert(word_bit(register, t) == multiple(quotient, 8 * data.len() + t));
    }
    assert(quotient.len() == 8 * data.len());
}

proof fn lemma_shifted_sums(a: u16, b: u16)
    ensures
        shifted(a ^ b) == shifted(a) ^ shifted(b),
{
    assert(shifted(a ^ b) == shifted(a) ^ shifted(b)) by (bit_vector);
}

proof fn lemma_stepped_sums(a: u16, b: u16, x: u8, y: u8)
    ensures
        stepped(a ^ b, x ^ y) == stepped(a, x) ^ stepped(b, y),
{
    let (a0, b0) = (a ^ ((x as u16) << 8), b ^ ((y as u16) << 8));
    assert((a ^ b) ^ (((x ^ y) as u16) << 8) == a0 ^ b0) by (bit_vector)
        requires
            a0 == a ^ ((x as u16) << 8),
            b0 == b ^ ((y as u16) << 8),
    ;
    lemma_shifted_sums(a0, b0);
    let (a1, b1) = (shifted(a0), shifted(b0));
    lemma_shifted_sums(a1, b1);
    let (a2, b2) = (shifted(a1), shifted(b1));
    lemma_shifted_sums(a2, b2);
    let (a3, b3) = (shifted(a2), shifted(b2));
    lemma_shifted_sums(a3, b3);
    let (a4, b4) = (shifted(a3), shifted(b3));
    lemma_shifted_sums(a4, b4);
    let (a5, b5) = (shifted(a4), shifted(b4));
    lemma_shifted_sums(a5, b5);
    let (a6, b6) = (shifted(a5), shifted(b5));
    lemma_shifted_sums(a6, b6);
    let (a7, b7) = (shifted(a6), shifted(b6));
    lemma_shifted_sums(a7, b7);
}

proof fn lemma_register_sums(a: Seq<u8>, b: Seq<u8>, sum: Seq<u8>)
    requires
        a.len() == b.len() == sum.len(),
        forall|i: int| 0 <= i < a.len() ==> #[trigger] sum[i] == a[i] ^ b[i],
    ensures
        register_after(sum) == register_after(a) ^ register_after(b),
    decreases a.len(),
{
    if a.len() == 0 {
        assert(0u16 == 0u16 ^ 0u16) by (bit_vector);
    } else {
        lemma_register_sums(a.drop_last(), b.drop_last(), sum.drop_last());
        lemma_stepped_sums(
            register_after(a.drop_last()),
            register_after(b.drop_last()),
            a.last(),
            b.last(),
        );
    }
}

/// The checksum of the sum over GF(2) of `a` and `b`, of one length, is the sum of theirs,
/// inverted.
pub proof fn law_checksums_add_up(a: Seq<u8>, b: Seq<u8>, sum: Seq<u8>)
    requires
        a.len() == b.len() == sum.len(),
        forall|i: int| 0 <= i < a.len() ==> #[trigger] sum[i] == a[i] ^ b[i],
    ensures
        crc16(sum) == crc16(a) ^ crc16(b) ^ 0xffff,
{
    lemma_register_sums(a, b, sum);
    let x = register_after(a);
    let y = register_after(b);
    assert((x ^ y) ^ 0xffff == (x ^ 0xffff) ^ (y ^ 0xffff) ^ 0xffff) by (bit_vector);
}

proof fn lemma_leading_zeros_leave_the_register(data: Seq<u8>, zeros: Seq<u8>)
    requires
        forall|i: int| 0 <= i < zeros.len() ==> #[trigger] zeros[i] == 0,
    ensures
        register_after(zeros + data) == register_after(data),
    decreases zeros.len() + data.len(),
{
    let all = zeros + data;
    if data.len() > 0 {
        assert(all.drop_last() =~= zeros + data.drop_last());
        lemma_leading_zeros_leave_the_register(data.drop_last(), zeros);
    } else if zeros.len() > 0 {
        assert(all.drop_last() =~= zeros.drop_last() + data);
        lemma_leading_zeros_leave_the_register(data, zeros.drop_last());
        assert(stepped(0, 0) == 0) by (bit_vector);
    }
}

/// Zero bytes ahead of `data`, as many as there are, leave its checksum as it is.
pub proof fn law_leading_zeros_leave_the_checksum(data: Seq<u8>, zeros: Seq<u8>)
    requires
        forall|i: int| 0 <= i < zeros.len() ==> #[trigger] zeros[i] == 0,
    ensures
        crc16(zeros + data) == crc16(data),
{
    lemma_leading_zeros_leave_the_register(data, zeros);
}

/// The checksum of zero bytes is `0xffff`, however many they are.
pub proof fn law_the_checksum_of_zeros(zeros: Seq<u8>)
    requires
        forall|i: int| 0 <= i < zeros.len() ==> #[trigger] zeros[i] == 0,
    ensures
        crc16(zeros) == 0xffff,
{
    lemma_leading_zeros_leave_the_register(seq![], zeros);
    assert(zeros + seq![] =~= zeros);
    assert(0u16 ^ 0xffff == 0xffff) by (bit_vector);
}

} // verus!
