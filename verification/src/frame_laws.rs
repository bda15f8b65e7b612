//! What a checksum and a frame are, said of the calls that make and read them: what
//! goes in and what comes out, place by place.

use crate::crc::{bit_of, checksum, crc16, multiple, word_bit};
use crate::error::TransportError;
use crate::frame::{block_len, decoded, opened, opened_blocks, sealed, sealed_blocks};
use crate::frame::{Frame, FrameView};
use vstd::prelude::*;

verus! {

/// A checksum is that of the EN 13757 generator for data of every length: a multiple of
/// `x^16 + x^13 + x^12 + x^11 + x^10 + x^8 + x^6 + x^5 + x^2 + 1` over GF(2) has the bits of
/// the data at its top and the sixteen bits of the inverted checksum behind them.
pub proof fn law_a_checksum_is_the_inverted_remainder(data: &[u8], sum: u16)
    requires
        call_ensures(checksum, (data,), sum),
    ensures
        exists|quotient: Seq<bool>|
            {
                &&& #[trigger] quotient.len() == 8 * data@.len()
                &&& forall|p: int|
                    0 <= p < 8 * data@.len() ==> #[trigger] multiple(quotient, p) == bit_of(
                        data@,
                        p,
                    )
                &&& forall|t: int|
                    0 <= t < 16 ==> #[trigger] word_bit(sum, t) == !multiple(
                        quotient,
                        8 * data@.len() + t,
                    )
            },
{
    crate::crc::law_the_checksum_is_the_inverted_remainder(data@);
}

/// The checksum of the sum over GF(2) of two pieces of data of one length is the sum of their
/// checksums, inverted.
pub proof fn law_the_checksum_of_a_sum(
    a: &[u8],
    b: &[u8],
    both: &[u8],
    of_a: u16,
    of_b: u16,
    of_both: u16,
)
    requires
        a@.len() == b@.len() == both@.len(),
        forall|i: int| 0 <= i < a@.len() ==> #[trigger] both@[i] == a@[i] ^ b@[i],
        call_ensures(checksum, (a,), of_a),
        call_ensures(checksum, (b,), of_b),
        call_ensures(checksum, (both,), of_both),
    ensures
        of_both == of_a ^ of_b ^ 0xffff,
{
    crate::crc::law_checksums_add_up(a@, b@, both@);
}

/// A frame is encoded exactly when its user data is at most 245 bytes, and refused for its
/// length otherwise.
pub proof fn law_a_frame_of_245_bytes_is_the_longest(
    frame: Frame,
    encoded: Result<Vec<u8>, TransportError>,
)
    requires
        call_ensures(Frame::encode, (&frame,), encoded),
    ensures
        encoded is Ok <==> frame.data@.len() <= 245,
        encoded matches Err(error) ==> (error matches TransportError::DataTooLong { len } && len
            == frame.data@.len()),
{
}

/// A frame starts with a length that counts all that follows it but the CRCs, the control
/// field and the address, then the CRC of these ten bytes, the high byte first; in all it is
/// as long as what it carries, with two bytes of CRC for the first block and two for every
/// sixteen bytes begun after it.
pub proof fn law_a_frame_starts_with_its_length_and_address(frame: Frame, bytes: Vec<u8>)
    requires
        call_ensures(Frame::encode, (&frame,), Ok::<Vec<u8>, TransportError>(bytes)),
    ensures
        bytes@.len() == 13 + frame.data@.len() + 2 * ((frame.data@.len() + 16) / 16),
        bytes@[0] == 10 + frame.data@.len(),
        bytes@[1] == frame.control,
        forall|i: int| 0 <= i < 8 ==> #[trigger] bytes@[2 + i] == frame.address@[i],
        256 * bytes@[10] + bytes@[11] == crc16(bytes@.subrange(0, 10)),
{
    crate::frame::law_length_counts_no_crc(frame@);
    lemma_first_block(frame@);
}

/// Behind the first block, every block but the last holds sixteen bytes: block `k` is the
/// bytes from `16 * k` on of the control information and the user data, sixteen or as many as
/// are left, then the CRC of exactly these bytes, the high byte first.
pub proof fn law_every_block_but_the_last_holds_sixteen_bytes(frame: Frame, bytes: Vec<u8>, k: int)
    requires
        call_ensures(Frame::encode, (&frame,), Ok::<Vec<u8>, TransportError>(bytes)),
        0 <= k,
        16 * k < 1 + frame.data@.len(),
    ensures
        ({
            let body = seq![frame.ci] + frame.data@;
            let n = if body.len() - 16 * k < 16 {
                body.len() - 16 * k
            } else {
                16
            };
            let held = body.subrange(16 * k, 16 * k + n);
            let start = 12 + 18 * k;
            &&& start + n + 2 <= bytes@.len()
            &&& bytes@.subrange(start, start + n) == held
            &&& 256 * bytes@[start + n] + bytes@[start + n + 1] == crc16(held)
        }),
{
    lemma_first_block(frame@);
    let body = frame@.body();
    lemma_block_at(body, k);
    let blocks = sealed_blocks(body);
    let n = if body.len() - 16 * k < 16 {
        body.len() - 16 * k
    } else {
        16
    };
    let start = 12 + 18 * k;
    assert(bytes@.skip(12) =~= blocks);
    assert(bytes@.subrange(start, start + n) =~= blocks.subrange(18 * k, 18 * k + n));
    assert(bytes@[start + n] == blocks[18 * k + n]);
    assert(bytes@[start + n + 1] == blocks[18 * k + n + 1]);
}

/// What was encoded decodes, and to the frame that was encoded, field for field.
pub proof fn law_a_frame_decodes_to_what_was_encoded(
    frame: Frame,
    bytes: &[u8],
    encoded: Vec<u8>,
    result: Result<Frame, TransportError>,
)
    requires
        call_ensures(Frame::encode, (&frame,), Ok::<Vec<u8>, TransportError>(encoded)),
        bytes@ == encoded@,
        call_ensures(Frame::decode, (bytes,), result),
    ensures
        result is Ok,
        result->Ok_0.control == frame.control,
        result->Ok_0.address@ == frame.address@,
        result->Ok_0.ci == frame.ci,
        result->Ok_0.data@ == frame.data@,
{
    assert(result matches Ok(found) && found@ == frame@);
}

/// What decodes is what encoding makes of it: a frame that was decoded encodes to the very
/// bytes it came from.
pub proof fn law_a_decoded_frame_encodes_to_its_bytes(
    bytes: &[u8],
    frame: Frame,
    encoded: Result<Vec<u8>, TransportError>,
)
    requires
        call_ensures(Frame::decode, (bytes,), Ok::<Frame, TransportError>(frame)),
        call_ensures(Frame::encode, (&frame,), encoded),
    ensures
        encoded is Ok,
        encoded->Ok_0@ == bytes@,
{
}

/// Whether block `k` behind the first block of a frame that carries `want` bytes there is
/// whole in `bytes` and its CRC checks.
pub open spec fn block_checks(bytes: Seq<u8>, want: int, k: int) -> bool {
    let start = 12 + 18 * k;
    let end = if want - 16 * k < 16 {
        start + (want - 16 * k)
    } else {
        start + 16
    };
    end + 2 <= bytes.len() && 256 * bytes[end] + bytes[end + 1] == crc16(bytes.subrange(start, end))
}

/// What is wrong with the first block is what is wrong with the frame: fewer bytes than it and
/// its CRC take, a CRC that does not check, or a length under ten.
pub proof fn law_the_first_block_is_looked_at_first(
    bytes: &[u8],
    result: Result<Frame, TransportError>,
)
    requires
        call_ensures(Frame::decode, (bytes,), result),
    ensures
        result == Err::<Frame, TransportError>(TransportError::FrameTooShort) <==> bytes@.len()
            < 12,
        bytes@.len() >= 12 && 256 * bytes@[10] + bytes@[11] != crc16(bytes@.subrange(0, 10))
            ==> result == Err::<Frame, TransportError>(TransportError::ChecksumMismatch),
        result == Err::<Frame, TransportError>(TransportError::LengthTooShort) <==> bytes@.len()
            >= 12 && 256 * bytes@[10] + bytes@[11] == crc16(bytes@.subrange(0, 10)) && bytes@[0]
            < 10,
{
    lemma_head(bytes@);
    lemma_blocks_faults(bytes@.skip(12), (bytes@[0] - 9) as nat);
}

/// Behind a first block that checks, the first block that fails says what is wrong: the bytes
/// end inside it, or its CRC does not check.
pub proof fn law_the_first_failing_block_is_named(
    bytes: &[u8],
    result: Result<Frame, TransportError>,
    k: int,
)
    requires
        call_ensures(Frame::decode, (bytes,), result),
        bytes@.len() >= 12,
        256 * bytes@[10] + bytes@[11] == crc16(bytes@.subrange(0, 10)),
        0 <= k,
        16 * k < bytes@[0] - 9,
        forall|j: int| 0 <= j < k ==> #[trigger] block_checks(bytes@, bytes@[0] - 9, j),
        !block_checks(bytes@, bytes@[0] - 9, k),
    ensures
        ({
            let n = if bytes@[0] - 9 - 16 * k < 16 {
                bytes@[0] - 9 - 16 * k
            } else {
                16
            };
            result == Err::<Frame, TransportError>(
                if bytes@.len() < 12 + 18 * k + n + 2 {
                    TransportError::FrameCutShort
                } else {
                    TransportError::ChecksumMismatch
                },
            )
        }),
{
    lemma_head(bytes@);
    lemma_failing_block(bytes@, bytes@[0] - 9, 0, k);
}

/// A frame whose every block checks decodes exactly when nothing follows the last: to the
/// control field and the address of its first block, and to what the blocks behind it hold,
/// the control information ahead of the user data.
pub proof fn law_a_frame_that_checks_decodes(bytes: &[u8], result: Result<Frame, TransportError>)
    requires
        call_ensures(Frame::decode, (bytes,), result),
        bytes@.len() >= 12,
        256 * bytes@[10] + bytes@[11] == crc16(bytes@.subrange(0, 10)),
        bytes@[0] >= 10,
        forall|j: int|
            0 <= j && 16 * j < bytes@[0] - 9 ==> #[trigger] block_checks(bytes@, bytes@[0] - 9, j),
    ensures
        ({
            let want = bytes@[0] - 9;
            if bytes@.len() != 12 + want + 2 * ((want + 15) / 16) {
                result == Err::<Frame, TransportError>(TransportError::TrailingBytes)
            } else {
                &&& result is Ok
                &&& result->Ok_0.control == bytes@[1]
                &&& forall|i: int|
                    0 <= i < 8 ==> #[trigger] result->Ok_0.address@[i] == bytes@[2 + i]
                &&& result->Ok_0.ci == bytes@[12]
                &&& result->Ok_0.data@.len() == want - 1
                &&& forall|i: int|
                    0 <= i < want - 1 ==> #[trigger] result->Ok_0.data@[i] == bytes@[12 + (i + 1)
                        + 2 * ((i + 1) / 16)]
            }
        }),
{
    lemma_frame_that_checks(bytes@);
    if let Ok(frame) = result {
        assert forall|i: int| 0 <= i < 8 implies #[trigger] frame.address@[i] == bytes@[2 + i] by {
            assert(frame@.address[i] == bytes@[2 + i]);
        }
        assert forall|i: int| 0 <= i < bytes@[0] - 10 implies #[trigger] frame.data@[i] == bytes@[12
            + (i + 1) + 2 * ((i + 1) / 16)] by {
            assert(frame@.data[i] == bytes@[12 + (i + 1) + 2 * ((i + 1) / 16)]);
        }
    }
}

proof fn lemma_frame_that_checks(bytes: Seq<u8>)
    requires
        bytes.len() >= 12,
        256 * bytes[10] + bytes[11] == crc16(bytes.subrange(0, 10)),
        bytes[0] >= 10,
        forall|j: int|
            0 <= j && 16 * j < bytes[0] - 9 ==> #[trigger] block_checks(bytes, bytes[0] - 9, j),
    ensures
        ({
            let want = bytes[0] - 9;
            let result = decoded(bytes);
            if bytes.len() != 12 + want + 2 * ((want + 15) / 16) {
                result == Err::<FrameView, TransportError>(TransportError::TrailingBytes)
            } else {
                &&& result is Ok
                &&& result->Ok_0.control == bytes[1]
                &&& result->Ok_0.address.len() == 8
                &&& forall|i: int| 0 <= i < 8 ==> #[trigger] result->Ok_0.address[i] == bytes[2 + i]
                &&& result->Ok_0.ci == bytes[12]
                &&& result->Ok_0.data.len() == want - 1
                &&& forall|i: int|
                    0 <= i < want - 1 ==> #[trigger] result->Ok_0.data[i] == bytes[12 + (i + 1) + 2
                        * ((i + 1) / 16)]
            }
        }),
{
    let want = bytes[0] - 9;
    lemma_head(bytes);
    lemma_checking_blocks(bytes, want, 0);
    let found = opened_blocks(bytes.skip(12), want as nat);
    assert(bytes.skip(12 + 18 * 0int) == bytes.skip(12));
    if bytes.len() == 12 + want + 2 * ((want + 15) / 16) {
        let body = found->Ok_0;
        let frame = decoded(bytes)->Ok_0;
        assert forall|i: int| 0 <= i < want - 1 implies #[trigger] frame.data[i] == bytes[12 + (i
            + 1) + 2 * ((i + 1) / 16)] by {
            assert(frame.data[i] == body[(i + 1) - 16 * 0]);
        }
        assert(body[0 - 16 * 0] == bytes[12int + 0 + 2 * (0int / 16)]);
    }
}

proof fn lemma_seal(block: Seq<u8>)
    ensures
        sealed(block).len() == block.len() + 2,
        sealed(block).take(block.len() as int) == block,
        256 * sealed(block)[block.len() as int] + sealed(block)[block.len() as int + 1] == crc16(block),
{
    assert(sealed(block).take(block.len() as int) =~= block);
}

proof fn lemma_first_block(frame: FrameView)
    requires
        frame.fits(),
    ensures
        frame.encoding().len() >= 12,
        frame.encoding().subrange(0, 10) == frame.first_block(),
        256 * frame.encoding()[10] + frame.encoding()[11] == crc16(frame.first_block()),
        frame.encoding().skip(12) == sealed_blocks(frame.body()),
{
    lemma_seal(frame.first_block());
    assert(frame.encoding().subrange(0, 10) =~= frame.first_block());
    assert(frame.encoding().skip(12) =~= sealed_blocks(frame.body()));
}

proof fn lemma_block_at(body: Seq<u8>, k: int)
    requires
        0 <= k,
        16 * k < body.len(),
    ensures
        ({
            let n = if body.len() - 16 * k < 16 {
                body.len() - 16 * k
            } else {
                16
            };
            let held = body.subrange(16 * k, 16 * k + n);
            let blocks = sealed_blocks(body);
            &&& 18 * k + n + 2 <= blocks.len()
            &&& blocks.subrange(18 * k, 18 * k + n) == held
            &&& 256 * blocks[18 * k + n] + blocks[18 * k + n + 1] == crc16(held)
        }),
    decreases k,
{
    let n = if body.len() - 16 * k < 16 {
        body.len() - 16 * k
    } else {
        16
    };
    let held = body.subrange(16 * k, 16 * k + n);
    let blocks = sealed_blocks(body);
    let m = block_len(body.len() as int);
    lemma_seal(body.take(m));
    if k == 0 {
        assert(held =~= body.take(m));
        assert(blocks.subrange(18 * k, 18 * k + n) =~= held);
    } else {
        let rest = body.skip(16);
        let behind = sealed_blocks(rest);
        lemma_block_at(rest, k - 1);
        assert(rest.subrange(16 * (k - 1), 16 * (k - 1) + n) =~= held);
        assert(blocks.skip(18) =~= behind);
        assert(blocks.subrange(18 * k, 18 * k + n) =~= behind.subrange(
            18 * (k - 1),
            18 * (k - 1) + n,
        ));
        assert(blocks[18 * k + n] == behind[18 * (k - 1) + n]);
        assert(blocks[18 * k + n + 1] == behind[18 * (k - 1) + n + 1]);
    }
}

proof fn lemma_opened(block: Seq<u8>)
    requires
        block.len() >= 2,
    ensures
        ({
            let n = block.len() - 2;
            opened(block) == if 256 * block[n] + block[n + 1] == crc16(block.take(n)) {
                Ok::<Seq<u8>, TransportError>(block.take(n))
            } else {
                Err::<Seq<u8>, TransportError>(TransportError::ChecksumMismatch)
            }
        }),
{
    let n = block.len() - 2;
    let held = block.take(n);
    lemma_seal(held);
    if 256 * block[n] + block[n + 1] == crc16(held) {
        assert(block =~= sealed(held));
    }
}

proof fn lemma_head(bytes: Seq<u8>)
    ensures
        bytes.len() >= 12 ==> opened(bytes.take(12)) == if 256 * bytes[10] + bytes[11] == crc16(
            bytes.subrange(0, 10),
        ) {
            Ok::<Seq<u8>, TransportError>(bytes.take(10))
        } else {
            Err::<Seq<u8>, TransportError>(TransportError::ChecksumMismatch)
        },
{
    if bytes.len() >= 12 {
        lemma_opened(bytes.take(12));
        assert(bytes.take(12).take(10) =~= bytes.take(10));
        assert(bytes.subrange(0, 10) =~= bytes.take(10));
    }
}

proof fn lemma_blocks_faults(bytes: Seq<u8>, left: nat)
    ensures
        opened_blocks(bytes, left) matches Err(error) ==> error
            != TransportError::FrameTooShort && error != TransportError::LengthTooShort,
    decreases left,
{
    if left > 0 {
        let n = block_len(left as int);
        if bytes.len() >= n + 2 {
            lemma_opened(bytes.take(n + 2));
            lemma_blocks_faults(bytes.skip(n + 2), (left - n) as nat);
        }
    }
}

proof fn lemma_block(bytes: Seq<u8>, want: int, k: int)
    requires
        bytes.len() >= 12 + 18 * k,
        0 <= k,
        16 * k < want,
    ensures
        ({
            let n = block_len(want - 16 * k);
            let rest = bytes.skip(12 + 18 * k);
            &&& n == if want - 16 * k < 16 {
                want - 16 * k
            } else {
                16
            }
            &&& rest.len() >= n + 2 ==> opened(rest.take(n + 2)) == if block_checks(
                bytes,
                want,
                k,
            ) {
                Ok::<Seq<u8>, TransportError>(bytes.subrange(12 + 18 * k, 12 + 18 * k + n))
            } else {
                Err::<Seq<u8>, TransportError>(TransportError::ChecksumMismatch)
            }
        }),
{
    let n = block_len(want - 16 * k);
    let rest = bytes.skip(12 + 18 * k);
    if rest.len() >= n + 2 {
        lemma_opened(rest.take(n + 2));
        assert(rest.take(n + 2).take(n) =~= bytes.subrange(12 + 18 * k, 12 + 18 * k + n));
    }
}

/// From block `i` on, the blocks ahead of `k` check and block `k` does not.
proof fn lemma_failing_block(bytes: Seq<u8>, want: int, i: int, k: int)
    requires
        0 <= i <= k,
        16 * k < want,
        bytes.len() >= 12 + 18 * i,
        forall|j: int| 0 <= j < k ==> #[trigger] block_checks(bytes, want, j),
        !block_checks(bytes, want, k),
    ensures
        opened_blocks(bytes.skip(12 + 18 * i), (want - 16 * i) as nat) == Err::<
            Seq<u8>,
            TransportError,
        >(
            if bytes.len() < 12 + 18 * k + (if want - 16 * k < 16 {
                want - 16 * k
            } else {
                16
            }) + 2 {
                TransportError::FrameCutShort
            } else {
                TransportError::ChecksumMismatch
            },
        ),
    decreases k - i,
{
    lemma_block(bytes, want, i);
    let rest = bytes.skip(12 + 18 * i);
    if i < k {
        assert(block_checks(bytes, want, i));
        lemma_failing_block(bytes, want, i + 1, k);
        assert(rest.skip(18) =~= bytes.skip(12 + 18 * (i + 1)));
    }
}

/// From block `i` on, every block checks.
proof fn lemma_checking_blocks(bytes: Seq<u8>, want: int, i: int)
    requires
        0 <= i,
        16 * i < want,
        bytes.len() >= 12 + 18 * i,
        forall|j: int| 0 <= j && 16 * j < want ==> #[trigger] block_checks(bytes, want, j),
    ensures
        ({
            let found = opened_blocks(bytes.skip(12 + 18 * i), (want - 16 * i) as nat);
            if bytes.len() != 12 + want + 2 * ((want + 15) / 16) {
                found == Err::<Seq<u8>, TransportError>(TransportError::TrailingBytes)
            } else {
                &&& found is Ok
                &&& found->Ok_0.len() == want - 16 * i
                &&& forall|p: int|
                    16 * i <= p < want ==> #[trigger] found->Ok_0[p - 16 * i] == bytes[12 + p + 2
                        * (p / 16)]
            }
        }),
    decreases want - 16 * i,
{
    lemma_block(bytes, want, i);
    assert(block_checks(bytes, want, i));
    let rest = bytes.skip(12 + 18 * i);
    let left = want - 16 * i;
    let n = block_len(left);
    let found = opened_blocks(rest, left as nat);
    let held = bytes.subrange(12 + 18 * i, 12 + 18 * i + n);
    if left > 16 {
        lemma_checking_blocks(bytes, want, i + 1);
        assert(rest.skip(18) =~= bytes.skip(12 + 18 * (i + 1)));
        let behind = opened_blocks(rest.skip(18), (left - 16) as nat);
        if behind is Ok {
            assert forall|p: int| 16 * i <= p < want implies #[trigger] found->Ok_0[p - 16 * i]
                == bytes[12 + p + 2 * (p / 16)] by {
                if p < 16 * i + 16 {
                    assert(p / 16 == i);
                    assert(found->Ok_0[p - 16 * i] == held[p - 16 * i]);
                } else {
                    assert(found->Ok_0[p - 16 * i] == behind->Ok_0[p - 16 * (i + 1)]);
                }
            }
        }
    } else {
        assert((want + 15) / 16 == i + 1);
        let behind = rest.skip(n + 2);
        assert(opened_blocks(behind, 0) == if behind.len() == 0 {
            Ok::<Seq<u8>, TransportError>(seq![])
        } else {
            Err::<Seq<u8>, TransportError>(TransportError::TrailingBytes)
        });
        if behind.len() == 0 {
            assert forall|p: int| 16 * i <= p < want implies #[trigger] found->Ok_0[p - 16 * i]
                == bytes[12 + p + 2 * (p / 16)] by {
                assert(p / 16 == i);
                assert(found->Ok_0[p - 16 * i] == held[p - 16 * i]);
            }
        }
    }
}

} // verus!
