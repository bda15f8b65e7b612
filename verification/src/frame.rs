//! The link layer of wireless M-Bus, EN 13757-4 frame format A: a length,
//! a control field, the meter's manufacturer and address, the control
//! information, and a CRC over every block.
//!
//! The first block is ten bytes, the length, the control field, two
//! bytes of manufacturer and six of address, and its CRC; every block
//! after is sixteen bytes and its CRC, the last as long as what is left.
//! The length counts everything from the control field to the end of the
//! user data and none of the CRCs, so a frame carries at most 245 bytes
//! past its control information.

use crate::crc::checksum;
use crate::error::TransportError;
use crate::text::{encode_hex, push_letter};
use vstd::prelude::*;
use vstd::slice::slice_subrange;
use vstd::string::*;

verus! {

/// The meter sends, expecting no reply.
pub const SND_NR: u8 = 0x44;

/// The meter acknowledges.
pub const ACK: u8 = 0x00;

/// The other device initialises the meter.
pub const SND_NKE: u8 = 0x40;

/// The other device sends user data to the meter.
pub const SND_UD: u8 = 0x53;

/// The other device asks for class 2 data.
pub const REQ_UD2: u8 = 0x5b;

/// The meter answers with its data.
pub const RSP_UD: u8 = 0x08;

/// The most user data a frame carries past its control information: the
/// length byte less control, manufacturer, address and control information.
pub const MAX_DATA: usize = 245;

/// The address every meter listens at.
pub const BROADCAST: [u8; 8] = [0xff, 0xff, 0xff, 0xff, 0xff, 0xff, 0xff, 0xff];

/// A block past the first.
pub const BLOCK: usize = 16;

/// One frame on the air.
#[derive(Clone, Debug, PartialEq, Eq)]
pub struct Frame {
    pub control: u8,
    /// Manufacturer and address: two bytes of manufacturer, four of
    /// identification number, the version and the medium.
    pub address: [u8; 8],
    /// The control information: what the user data is.
    pub ci: u8,
    pub data: Vec<u8>,
}

/// A frame as the values it carries.
#[verifier::ext_equal]
pub struct FrameView {
    pub control: u8,
    pub address: Seq<u8>,
    pub ci: u8,
    pub data: Seq<u8>,
}

impl View for Frame {
    type V = FrameView;

    open spec fn view(&self) -> FrameView {
        FrameView {
            control: self.control,
            address: self.address@,
            ci: self.ci,
            data: self.data@,
        }
    }
}

/// The CRC of `data` as it goes on the air, the high byte first.
pub open spec fn crc_bytes(data: Seq<u8>) -> Seq<u8> {
    let sum = crate::crc::crc16(data);
    seq![(sum / 256) as u8, (sum % 256) as u8]
}

/// A block on the air: its bytes, then their CRC.
pub open spec fn sealed(block: Seq<u8>) -> Seq<u8> {
    block + crc_bytes(block)
}

/// How many bytes the next block holds when `left` remain.
pub open spec fn block_len(left: int) -> int {
    if left < BLOCK {
        left
    } else {
        BLOCK as int
    }
}

/// The blocks that carry `body`, each sealed.
pub open spec fn sealed_blocks(body: Seq<u8>) -> Seq<u8>
    decreases body.len(),
{
    if body.len() == 0 {
        seq![]
    } else {
        let n = block_len(body.len() as int);
        sealed(body.take(n)) + sealed_blocks(body.skip(n))
    }
}

impl FrameView {
    /// Whether a frame can carry these values at all.
    pub open spec fn fits(self) -> bool {
        &&& self.address.len() == 8
        &&& self.data.len() <= MAX_DATA
    }

    /// The length, the control field, the manufacturer and the address.
    pub open spec fn first_block(self) -> Seq<u8> {
        seq![(10 + self.data.len()) as u8, self.control] + self.address
    }

    /// The control information and the user data.
    pub open spec fn body(self) -> Seq<u8> {
        seq![self.ci] + self.data
    }

    /// The bytes on the air.
    pub open spec fn encoding(self) -> Seq<u8> {
        sealed(self.first_block()) + sealed_blocks(self.body())
    }
}

/// What a sealed block carries, once its CRC checks.
pub open spec fn opened(block: Seq<u8>) -> Result<Seq<u8>, TransportError> {
    let data = block.take(block.len() - 2);
    if block.len() >= 2 && block == sealed(data) {
        Ok(data)
    } else {
        Err(TransportError::ChecksumMismatch)
    }
}

/// The `left` bytes that the blocks in `bytes` carry, with nothing after the last.
pub open spec fn opened_blocks(bytes: Seq<u8>, left: nat) -> Result<Seq<u8>, TransportError>
    decreases left,
{
    if left == 0 {
        if bytes.len() == 0 {
            Ok(seq![])
        } else {
            Err(TransportError::TrailingBytes)
        }
    } else {
        let n = block_len(left as int);
        if bytes.len() < n + 2 {
            Err(TransportError::FrameCutShort)
        } else {
            match opened(bytes.take(n + 2)) {
                Err(error) => Err(error),
                Ok(block) => match opened_blocks(bytes.skip(n + 2), (left - n) as nat) {
                    Err(error) => Err(error),
                    Ok(rest) => Ok(block + rest),
                },
            }
        }
    }
}

/// The frame that `bytes` carry, or what is the matter with them: the first block is looked
/// at before the rest, and each block before the next.
pub open spec fn decoded(bytes: Seq<u8>) -> Result<FrameView, TransportError> {
    if bytes.len() < 12 {
        Err(TransportError::FrameTooShort)
    } else {
        match opened(bytes.take(12)) {
            Err(error) => Err(error),
            Ok(first) => if first[0] < 10 {
                Err(TransportError::LengthTooShort)
            } else {
                match opened_blocks(bytes.skip(12), (first[0] - 9) as nat) {
                    Err(error) => Err(error),
                    Ok(body) => Ok(
                        FrameView {
                            control: first[1],
                            address: first.subrange(2, 10),
                            ci: body[0],
                            data: body.skip(1),
                        },
                    ),
                }
            },
        }
    }
}

/// Append `more` to `out`.
pub(crate) fn extend(out: &mut Vec<u8>, more: &[u8])
    ensures
        final(out)@ == old(out)@ + more@,
{
    out.extend_from_slice(more);
    assert(out@ =~= old(out)@ + more@);
}

/// Append `block` and its CRC to `out`.
fn seal(out: &mut Vec<u8>, block: &[u8])
    ensures
        final(out)@ == old(out)@ + sealed(block@),
{
    extend(out, block);
    let sum: u16 = checksum(block);
    out.push((sum / 256) as u8);
    out.push((sum % 256) as u8);
    assert(out@ =~= old(out)@ + sealed(block@));
}

/// `block` without its two CRC bytes, once they check.
fn checked(block: &[u8]) -> (data: Result<&[u8], TransportError>)
    ensures
        match data {
            Ok(data) => opened(block@) == Ok::<Seq<u8>, TransportError>(data@),
            Err(error) => opened(block@) == Err::<Seq<u8>, TransportError>(error),
        },
{
    if block.len() < 2 {
        return Err(TransportError::ChecksumMismatch);
    }
    let n: usize = block.len() - 2;
    let data = slice_subrange(block, 0, n);
    assert(data@ =~= block@.take(n as int));
    let sum: u16 = checksum(data);
    if block[n] != (sum / 256) as u8 || block[n + 1] != (sum % 256) as u8 {
        assert(sealed(data@)[n as int] == (sum / 256) as u8);
        assert(sealed(data@)[n + 1] == (sum % 256) as u8);
        return Err(TransportError::ChecksumMismatch);
    }
    assert(block@ =~= sealed(data@));
    Ok(data)
}

/// The `want` bytes that the blocks in `bytes` carry, every CRC checked.
fn open_blocks(bytes: &[u8], want: usize) -> (body: Result<Vec<u8>, TransportError>)
    ensures
        match body {
            Ok(body) => body@.len() == want && opened_blocks(bytes@, want as nat) == Ok::<
                Seq<u8>,
                TransportError,
            >(body@),
            Err(error) => opened_blocks(bytes@, want as nat) == Err::<Seq<u8>, TransportError>(
                error,
            ),
        },
{
    let mut body: Vec<u8> = Vec::new();
    let mut rest = bytes;
    assert(match opened_blocks(bytes@, want as nat) {
        Ok(blocks) => body@ + blocks =~= blocks,
        Err(_) => true,
    });
    while body.len() < want
        invariant
            body@.len() <= want,
            match opened_blocks(rest@, (want - body@.len()) as nat) {
                Ok(blocks) => opened_blocks(bytes@, want as nat) == Ok::<Seq<u8>, TransportError>(
                    body@ + blocks,
                ),
                Err(error) => opened_blocks(bytes@, want as nat) == Err::<Seq<u8>, TransportError>(
                    error,
                ),
            },
        decreases want - body@.len(),
    {
        let left: usize = want - body.len();
        let n: usize = if left < BLOCK {
            left
        } else {
            BLOCK
        };
        if rest.len() < n + 2 {
            return Err(TransportError::FrameCutShort);
        }
        let (block, after) = rest.split_at(n + 2);
        assert(block@ =~= rest@.take(n + 2));
        assert(after@ =~= rest@.skip(n + 2));
        let ghost before = body@;
        match checked(block) {
            Ok(data) => {
                extend(&mut body, data);
                assert(body@.len() == before.len() + n);
                assert(match opened_blocks(after@, (left - n) as nat) {
                    Ok(blocks) => body@ + blocks =~= before + (data@ + blocks),
                    Err(_) => true,
                });
            },
            Err(error) => return Err(error),
        }
        rest = after;
    }
    if !rest.is_empty() {
        return Err(TransportError::TrailingBytes);
    }
    assert(body@ + Seq::<u8>::empty() =~= body@);
    Ok(body)
}

/// The frame in `bytes`, block after block.
fn open_frame(bytes: &[u8]) -> (frame: Result<Frame, TransportError>)
    ensures
        match frame {
            Ok(frame) => decoded(bytes@) == Ok::<FrameView, TransportError>(frame@),
            Err(error) => decoded(bytes@) == Err::<FrameView, TransportError>(error),
        },
{
    if bytes.len() < 12 {
        return Err(TransportError::FrameTooShort);
    }
    let (head, tail) = bytes.split_at(12);
    assert(head@ =~= bytes@.take(12));
    assert(tail@ =~= bytes@.skip(12));
    let first = match checked(head) {
        Ok(first) => first,
        Err(error) => return Err(error),
    };
    let length: usize = first[0] as usize;
    if length < 10 {
        return Err(TransportError::LengthTooShort);
    }
    let body = match open_blocks(tail, length - 9) {
        Ok(body) => body,
        Err(error) => return Err(error),
    };
    let address: [u8; 8] = [
        first[2],
        first[3],
        first[4],
        first[5],
        first[6],
        first[7],
        first[8],
        first[9],
    ];
    assert(address@ =~= first@.subrange(2, 10));
    let mut data: Vec<u8> = Vec::new();
    extend(&mut data, slice_subrange(body.as_slice(), 1, body.len()));
    assert(data@ =~= body@.skip(1));
    Ok(Frame { control: first[1], address, ci: body[0], data })
}

impl Frame {
    /// The bytes on the air, a CRC after every block.
    pub fn encode(&self) -> (bytes: Result<Vec<u8>, TransportError>)
        ensures
            match bytes {
                Ok(bytes) => self@.fits() && bytes@ == self@.encoding(),
                Err(error) => self.data@.len() > MAX_DATA && error == (
                TransportError::DataTooLong { len: self.data.len() }),
            },
    {
        if self.data.len() > MAX_DATA {
            return Err(TransportError::DataTooLong { len: self.data.len() });
        }
        let mut first: Vec<u8> = Vec::new();
        first.push((10 + self.data.len()) as u8);
        first.push(self.control);
        extend(&mut first, self.address.as_slice());
        assert(first@ =~= self@.first_block());
        let mut out: Vec<u8> = Vec::new();
        seal(&mut out, first.as_slice());
        let mut rest: Vec<u8> = Vec::new();
        rest.push(self.ci);
        extend(&mut rest, self.data.as_slice());
        assert(rest@ =~= self@.body());
        let mut i: usize = 0;
        assert(rest@.skip(0) =~= rest@);
        assert(out@ + sealed_blocks(rest@.skip(0)) =~= self@.encoding());
        while i < rest.len()
            invariant
                i <= rest@.len(),
                out@ + sealed_blocks(rest@.skip(i as int)) == self@.encoding(),
            decreases rest@.len() - i,
        {
            let left: usize = rest.len() - i;
            let n: usize = if left < BLOCK {
                left
            } else {
                BLOCK
            };
            let block = slice_subrange(rest.as_slice(), i, i + n);
            let ghost before = out@;
            let ghost tail = rest@.skip(i as int);
            assert(block@ =~= tail.take(n as int));
            assert(tail.skip(n as int) =~= rest@.skip(i + n));
            seal(&mut out, block);
            assert(out@ + sealed_blocks(rest@.skip(i + n)) =~= before + sealed_blocks(tail));
            i = i + n;
        }
        assert(out@ =~= self@.encoding());
        Ok(out)
    }

    /// The frame `bytes` carry, every CRC checked.
    pub fn decode(bytes: &[u8]) -> (frame: Result<Frame, TransportError>)
        ensures
            match frame {
                Ok(frame) => decoded(bytes@) == Ok::<FrameView, TransportError>(frame@),
                Err(error) => decoded(bytes@) == Err::<FrameView, TransportError>(error),
            },
            frame matches Ok(frame) ==> frame@.fits() && bytes@ == frame@.encoding(),
            forall|sent: FrameView|
                sent.fits() && bytes@ == #[trigger] sent.encoding() ==> (frame matches Ok(frame)
                    && frame@ == sent),
    {
        let frame = open_frame(bytes);
        proof {
            lemma_decoded_exactly_when_encoded(bytes@);
        }
        frame
    }
}

/// `<manufacturer>-<ident>` for a link address.
pub open spec fn label_text(address: Seq<u8>) -> Seq<char> {
    let code = address[0] + 256 * address[1];
    seq![
        crate::text::letter(code / 1024 % 32),
        crate::text::letter(code / 32 % 32),
        crate::text::letter(code % 32),
        '-',
    ] + crate::text::hex(seq![address[5], address[4], address[3], address[2]])
}

/// `<manufacturer>-<ident>` for a link address, as a Location names the
/// meter: the three letters unpacked from five bits each, the eight
/// digits unpacked from BCD.
pub fn label(address: &[u8; 8]) -> (label: String)
    ensures
        label@ == label_text(address@),
{
    let code: u16 = address[0] as u16 + 256 * (address[1] as u16);
    let mut out = String::new();
    push_letter(&mut out, (code / 1024 % 32) as u8);
    push_letter(&mut out, (code / 32 % 32) as u8);
    push_letter(&mut out, (code % 32) as u8);
    out.append("-");
    proof {
        reveal_strlit("-");
    }
    let bcd: [u8; 4] = [address[5], address[4], address[3], address[2]];
    assert(bcd@ =~= seq![address@[5], address@[4], address@[3], address@[2]]);
    let ident = encode_hex(bcd.as_slice());
    out.append(ident.as_str());
    assert(out@ =~= label_text(address@));
    out
}

proof fn lemma_opened_undoes_sealed(data: Seq<u8>)
    ensures
        opened(sealed(data)) == Ok::<Seq<u8>, TransportError>(data),
{
    assert(sealed(data).take(sealed(data).len() - 2) =~= data);
}

proof fn lemma_opened_blocks_undo_sealed_blocks(body: Seq<u8>)
    ensures
        opened_blocks(sealed_blocks(body), body.len()) == Ok::<Seq<u8>, TransportError>(body),
    decreases body.len(),
{
    if body.len() > 0 {
        let n = block_len(body.len() as int);
        let bytes = sealed_blocks(body);
        assert(bytes.take(n + 2) =~= sealed(body.take(n)));
        assert(bytes.skip(n + 2) =~= sealed_blocks(body.skip(n)));
        lemma_opened_undoes_sealed(body.take(n));
        lemma_opened_blocks_undo_sealed_blocks(body.skip(n));
        assert(body.take(n) + body.skip(n) =~= body);
    } else {
        assert(body =~= seq![]);
    }
}

proof fn lemma_sealed_blocks_undo_opened_blocks(bytes: Seq<u8>, left: nat)
    ensures
        opened_blocks(bytes, left) matches Ok(body) ==> body.len() == left && sealed_blocks(body)
            == bytes,
    decreases left,
{
    if left > 0 {
        let n = block_len(left as int);
        if bytes.len() >= n + 2 {
            if let Ok(block) = opened(bytes.take(n + 2)) {
                lemma_sealed_blocks_undo_opened_blocks(bytes.skip(n + 2), (left - n) as nat);
                if let Ok(rest) = opened_blocks(bytes.skip(n + 2), (left - n) as nat) {
                    let body = block + rest;
                    assert(body.take(n) =~= block);
                    assert(body.skip(n) =~= rest);
                    assert(bytes.take(n + 2) + bytes.skip(n + 2) =~= bytes);
                }
            }
        }
    } else {
        assert(bytes.len() == 0 ==> bytes =~= seq![]);
    }
}

/// What one end encodes the other end decodes, field for field.
pub proof fn law_decoding_undoes_encoding(frame: FrameView)
    requires
        frame.fits(),
    ensures
        decoded(frame.encoding()) == Ok::<FrameView, TransportError>(frame),
{
    let bytes = frame.encoding();
    let first = frame.first_block();
    let body = frame.body();
    assert(bytes.take(12) =~= sealed(first));
    assert(bytes.skip(12) =~= sealed_blocks(body));
    lemma_opened_undoes_sealed(first);
    lemma_opened_blocks_undo_sealed_blocks(body);
    assert(first.subrange(2, 10) =~= frame.address);
    assert(body.skip(1) =~= frame.data);
}

/// A frame has one encoding: bytes that decode are the encoding of what they decode to.
pub proof fn law_encoding_undoes_decoding(bytes: Seq<u8>)
    ensures
        decoded(bytes) matches Ok(frame) ==> frame.fits() && frame.encoding() == bytes,
{
    if let Ok(frame) = decoded(bytes) {
        let first = opened(bytes.take(12))->Ok_0;
        let left = (first[0] - 9) as nat;
        let body = opened_blocks(bytes.skip(12), left)->Ok_0;
        lemma_sealed_blocks_undo_opened_blocks(bytes.skip(12), left);
        assert(frame.first_block() =~= first);
        assert(frame.body() =~= body);
        assert(bytes.take(12) + bytes.skip(12) =~= bytes);
    }
}

proof fn lemma_decoded_exactly_when_encoded(bytes: Seq<u8>)
    ensures
        decoded(bytes) matches Ok(frame) ==> frame.fits() && bytes == frame.encoding(),
        forall|sent: FrameView|
            sent.fits() && bytes == #[trigger] sent.encoding() ==> decoded(bytes) == Ok::<
                FrameView,
                TransportError,
            >(sent),
{
    law_encoding_undoes_decoding(bytes);
    assert forall|sent: FrameView|
        sent.fits() && bytes == #[trigger] sent.encoding() implies decoded(bytes) == Ok::<
        FrameView,
        TransportError,
    >(sent) by {
        law_decoding_undoes_encoding(sent);
    }
}

proof fn lemma_sealed_blocks_len(body: Seq<u8>)
    ensures
        sealed_blocks(body).len() == body.len() + 2 * ((body.len() + 15) / 16),
    decreases body.len(),
{
    if body.len() > 0 {
        lemma_sealed_blocks_len(body.skip(block_len(body.len() as int)));
    }
}

/// The length byte counts no CRC: it is ten more than the user data, while the frame on the
/// air has two bytes more for the first block and for every sixteen bytes begun after it.
pub proof fn law_length_counts_no_crc(frame: FrameView)
    requires
        frame.fits(),
    ensures
        frame.encoding()[0] == 10 + frame.data.len(),
        frame.encoding().len() == 12 + (1 + frame.data.len()) + 2 * ((1 + frame.data.len() + 15)
            / 16),
{
    lemma_sealed_blocks_len(frame.body());
}

proof fn lemma_opened_refuses_one_changed_byte(data: Seq<u8>, i: int, byte: u8)
    requires
        0 <= i < data.len() + 2,
        byte != sealed(data)[i],
    ensures
        opened(sealed(data).update(i, byte)) == Err::<Seq<u8>, TransportError>(
            TransportError::ChecksumMismatch,
        ),
{
    let changed = sealed(data).update(i, byte);
    let kept = changed.take(changed.len() - 2);
    let n = data.len() as int;
    if i < n {
        assert(kept =~= data.update(i, byte));
        crate::crc::law_one_changed_byte_changes_the_checksum(data, i, byte);
        let a = crate::crc::crc16(data);
        let b = crate::crc::crc16(kept);
        assert(changed[n] == (a / 256) as u8 && changed[n + 1] == (a % 256) as u8);
        assert(sealed(kept)[n] == (b / 256) as u8 && sealed(kept)[n + 1] == (b % 256) as u8);
    } else {
        assert(kept =~= data);
        assert(changed[i] == byte);
    }
}

proof fn lemma_opened_blocks_refuse_one_changed_byte(body: Seq<u8>, i: int, byte: u8)
    requires
        0 <= i < sealed_blocks(body).len(),
        byte != sealed_blocks(body)[i],
    ensures
        opened_blocks(sealed_blocks(body).update(i, byte), body.len()) == Err::<
            Seq<u8>,
            TransportError,
        >(TransportError::ChecksumMismatch),
    decreases body.len(),
{
    let n = block_len(body.len() as int);
    let bytes = sealed_blocks(body);
    let changed = bytes.update(i, byte);
    let head = sealed(body.take(n));
    let tail = sealed_blocks(body.skip(n));
    if i < n + 2 {
        assert(changed.take(n + 2) =~= head.update(i, byte));
        lemma_opened_refuses_one_changed_byte(body.take(n), i, byte);
    } else {
        assert(changed.take(n + 2) =~= head);
        assert(changed.skip(n + 2) =~= tail.update(i - n - 2, byte));
        lemma_opened_undoes_sealed(body.take(n));
        lemma_opened_blocks_refuse_one_changed_byte(body.skip(n), i - n - 2, byte);
    }
}

/// A frame in which one byte has changed is refused, wherever the byte stands (in the length,
/// in the data or in a CRC) and whatever it has become.
pub proof fn law_one_changed_byte_is_refused(frame: FrameView, i: int, byte: u8)
    requires
        frame.fits(),
        0 <= i < frame.encoding().len(),
        byte != frame.encoding()[i],
    ensures
        decoded(frame.encoding().update(i, byte)) == Err::<FrameView, TransportError>(
            TransportError::ChecksumMismatch,
        ),
{
    let bytes = frame.encoding();
    let changed = bytes.update(i, byte);
    let head = sealed(frame.first_block());
    let tail = sealed_blocks(frame.body());
    if i < 12 {
        assert(changed.take(12) =~= head.update(i, byte));
        lemma_opened_refuses_one_changed_byte(frame.first_block(), i, byte);
    } else {
        assert(changed.take(12) =~= head);
        assert(changed.skip(12) =~= tail.update(i - 12, byte));
        lemma_opened_undoes_sealed(frame.first_block());
        lemma_opened_blocks_refuse_one_changed_byte(frame.body(), i - 12, byte);
    }
}

proof fn lemma_opened_blocks_refuse_a_prefix(body: Seq<u8>, k: int)
    requires
        0 <= k < sealed_blocks(body).len(),
    ensures
        opened_blocks(sealed_blocks(body).take(k), body.len()) == Err::<Seq<u8>, TransportError>(
            TransportError::FrameCutShort,
        ),
    decreases body.len(),
{
    let n = block_len(body.len() as int);
    let cut = sealed_blocks(body).take(k);
    if k >= n + 2 {
        assert(cut.take(n + 2) =~= sealed(body.take(n)));
        assert(cut.skip(n + 2) =~= sealed_blocks(body.skip(n)).take(k - n - 2));
        lemma_opened_undoes_sealed(body.take(n));
        lemma_opened_blocks_refuse_a_prefix(body.skip(n), k - n - 2);
    }
}

/// A frame cut short is refused, wherever it is cut.
pub proof fn law_cut_short_is_refused(frame: FrameView, k: int)
    requires
        frame.fits(),
        0 <= k < frame.encoding().len(),
    ensures
        decoded(frame.encoding().take(k)) == Err::<FrameView, TransportError>(
            if k < 12 {
                TransportError::FrameTooShort
            } else {
                TransportError::FrameCutShort
            },
        ),
{
    let cut = frame.encoding().take(k);
    if k >= 12 {
        assert(cut.take(12) =~= sealed(frame.first_block()));
        assert(cut.skip(12) =~= sealed_blocks(frame.body()).take(k - 12));
        lemma_opened_undoes_sealed(frame.first_block());
        lemma_opened_blocks_refuse_a_prefix(frame.body(), k - 12);
    }
}

proof fn lemma_opened_blocks_refuse_more(body: Seq<u8>, more: Seq<u8>)
    requires
        more.len() > 0,
    ensures
        opened_blocks(sealed_blocks(body) + more, body.len()) == Err::<Seq<u8>, TransportError>(
            TransportError::TrailingBytes,
        ),
    decreases body.len(),
{
    if body.len() > 0 {
        let n = block_len(body.len() as int);
        let bytes = sealed_blocks(body) + more;
        assert(bytes.take(n + 2) =~= sealed(body.take(n)));
        assert(bytes.skip(n + 2) =~= sealed_blocks(body.skip(n)) + more);
        lemma_opened_undoes_sealed(body.take(n));
        lemma_opened_blocks_refuse_more(body.skip(n), more);
    }
}

/// A frame with anything after its last block is refused.
pub proof fn law_trailing_bytes_are_refused(frame: FrameView, more: Seq<u8>)
    requires
        frame.fits(),
        more.len() > 0,
    ensures
        decoded(frame.encoding() + more) == Err::<FrameView, TransportError>(
            TransportError::TrailingBytes,
        ),
{
    let bytes = frame.encoding() + more;
    assert(bytes.take(12) =~= sealed(frame.first_block()));
    assert(bytes.skip(12) =~= sealed_blocks(frame.body()) + more);
    lemma_opened_undoes_sealed(frame.first_block());
    lemma_opened_blocks_refuse_more(frame.body(), more);
}

/// The first six bytes of the link address of the meter with the manufacturer letters
/// numbered `letters` (five bits each) and the identification number `digits`: the letters
/// packed into two bytes, the low byte first, then the digits in BCD, the last pair first.
pub open spec fn packed_meter(letters: Seq<int>, digits: Seq<int>) -> Seq<u8> {
    let code = 1024 * letters[0] + 32 * letters[1] + letters[2];
    seq![
        (code % 256) as u8,
        (code / 256) as u8,
        (16 * digits[6] + digits[7]) as u8,
        (16 * digits[4] + digits[5]) as u8,
        (16 * digits[2] + digits[3]) as u8,
        (16 * digits[0] + digits[1]) as u8,
    ]
}

proof fn lemma_packed_letters(x: int, y: int, z: int)
    requires
        0 <= x < 32,
        0 <= y < 32,
        0 <= z < 32,
    ensures
        ({
            let code = 1024 * x + 32 * y + z;
            let low = (code % 256) as u8;
            let high = (code / 256) as u8;
            &&& low + 256 * high == code
            &&& code / 1024 % 32 == x
            &&& code / 32 % 32 == y
            &&& code % 32 == z
        }),
{
}

proof fn lemma_packed_digits(x: int, y: int)
    requires
        0 <= x < 10,
        0 <= y < 10,
    ensures
        crate::text::hex_byte((16 * x + y) as u8) == seq![
            crate::text::hex_digit(x),
            crate::text::hex_digit(y),
        ],
{
}

/// A link address reads back as the meter's label: its three letters and its eight digits.
pub proof fn law_a_link_address_reads_back_as_the_label(
    letters: Seq<int>,
    digits: Seq<int>,
    address: Seq<u8>,
)
    requires
        letters.len() == 3,
        forall|i: int| 0 <= i < 3 ==> 0 <= #[trigger] letters[i] < 32,
        digits.len() == 8,
        forall|i: int| 0 <= i < 8 ==> 0 <= #[trigger] digits[i] < 10,
        address.len() == 8,
        address.take(6) == packed_meter(letters, digits),
    ensures
        label_text(address) == Seq::new(3, |i: int| crate::text::letter(letters[i])) + seq!['-']
            + Seq::new(8, |i: int| crate::text::hex_digit(digits[i])),
{
    let packed = packed_meter(letters, digits);
    assert(forall|i: int| 0 <= i < 6 ==> address.take(6)[i] == #[trigger] address[i]);
    let code = 1024 * letters[0] + 32 * letters[1] + letters[2];
    assert(address[0] == (code % 256) as u8 && address[1] == (code / 256) as u8);
    lemma_packed_letters(letters[0], letters[1], letters[2]);
    assert(address[5] == (16 * digits[0] + digits[1]) as u8);
    assert(address[4] == (16 * digits[2] + digits[3]) as u8);
    assert(address[3] == (16 * digits[4] + digits[5]) as u8);
    assert(address[2] == (16 * digits[6] + digits[7]) as u8);
    lemma_packed_digits(digits[0], digits[1]);
    lemma_packed_digits(digits[2], digits[3]);
    lemma_packed_digits(digits[4], digits[5]);
    lemma_packed_digits(digits[6], digits[7]);
    let pairs = seq![address[5], address[4], address[3], address[2]];
    lemma_hex_of_four(pairs);
    assert(label_text(address) =~= Seq::new(3, |i: int| crate::text::letter(letters[i]))
        + seq!['-'] + Seq::new(8, |i: int| crate::text::hex_digit(digits[i])));
}

/// The link address of the meter of `manufacturer`, three capital letters, with the
/// identification number `ident` reads back as `<manufacturer>-<ident>`, the number padded to
/// eight digits.
pub proof fn law_a_label_shows_manufacturer_and_ident(
    manufacturer: Seq<char>,
    ident: nat,
    address: Seq<u8>,
)
    requires
        manufacturer.len() == 3,
        forall|i: int| 0 <= i < 3 ==> 'A' <= #[trigger] manufacturer[i] <= 'Z',
        ident <= 99_999_999,
        address.len() == 8,
        address.take(6) == packed_meter(
            Seq::new(3, |i: int| manufacturer[i] as int - 64),
            crate::text::last_digits(ident, 8),
        ),
    ensures
        label_text(address) == manufacturer + seq!['-'] + crate::text::zero_padded(ident, 8),
{
    let letters = Seq::new(3, |i: int| manufacturer[i] as int - 64);
    let digits = crate::text::last_digits(ident, 8);
    assert(crate::text::power_of_ten(8) == 100_000_000) by {
        reveal_with_fuel(crate::text::power_of_ten, 9);
    }
    crate::text::lemma_zero_padded(ident, 8);
    assert forall|i: int| 0 <= i < 3 implies 0 <= #[trigger] letters[i] < 32 by {
        assert('A' <= manufacturer[i] <= 'Z');
    }
    law_a_link_address_reads_back_as_the_label(letters, digits, address);
    assert(Seq::new(3, |i: int| crate::text::letter(letters[i])) =~= manufacturer);
    assert(Seq::new(8, |i: int| crate::text::hex_digit(digits[i])) =~= crate::text::zero_padded(
        ident,
        8,
    ));
}

proof fn lemma_hex_of_four(bytes: Seq<u8>)
    requires
        bytes.len() == 4,
    ensures
        crate::text::hex(bytes) == crate::text::hex_byte(bytes[0]) + crate::text::hex_byte(bytes[1])
            + crate::text::hex_byte(bytes[2]) + crate::text::hex_byte(bytes[3]),
{
    reveal_with_fuel(crate::text::hex, 5);
    assert(crate::text::hex(bytes) =~= crate::text::hex_byte(bytes[0]) + crate::text::hex_byte(
        bytes[1],
    ) + crate::text::hex_byte(bytes[2]) + crate::text::hex_byte(bytes[3]));
}

proof fn lemma_hex_digits_tell_bytes_apart(x: u8, y: u8)
    requires
        crate::text::hex_digit(x as int / 16) == crate::text::hex_digit(y as int / 16),
        crate::text::hex_digit(x as int % 16) == crate::text::hex_digit(y as int % 16),
    ensures
        x == y,
{
}

pub(crate) proof fn lemma_code_of_letters(x: int)
    requires
        0 <= x < 0x10000,
    ensures
        x % 0x8000 == 1024 * (x / 1024 % 32) + 32 * (x / 32 % 32) + x % 32,
{
    let high = x / 1024;
    let middle = x / 32;
    assert(middle / 32 == high);
    assert(middle == 32 * high + middle % 32);
    assert(x == 32 * middle + x % 32);
    assert(high == 32 * (high / 32) + high % 32);
}

/// A label names one meter: link addresses with one label hold the same fifteen bits of
/// manufacturer and the same identification number.
pub proof fn law_a_label_names_one_meter(a: Seq<u8>, b: Seq<u8>)
    requires
        a.len() == 8,
        b.len() == 8,
        label_text(a) == label_text(b),
    ensures
        (a[0] + 256 * a[1]) % 0x8000 == (b[0] + 256 * b[1]) % 0x8000,
        a.subrange(2, 6) == b.subrange(2, 6),
{
    lemma_hex_of_four(seq![a[5], a[4], a[3], a[2]]);
    lemma_hex_of_four(seq![b[5], b[4], b[3], b[2]]);
    let x = label_text(a);
    let y = label_text(b);
    assert(x[0] == y[0] && x[1] == y[1] && x[2] == y[2]);
    lemma_code_of_letters(a[0] + 256 * a[1]);
    lemma_code_of_letters(b[0] + 256 * b[1]);
    assert(x[4] == y[4] && x[5] == y[5]);
    lemma_hex_digits_tell_bytes_apart(a[5], b[5]);
    assert(x[6] == y[6] && x[7] == y[7]);
    lemma_hex_digits_tell_bytes_apart(a[4], b[4]);
    assert(x[8] == y[8] && x[9] == y[9]);
    lemma_hex_digits_tell_bytes_apart(a[3], b[3]);
    assert(x[10] == y[10] && x[11] == y[11]);
    lemma_hex_digits_tell_bytes_apart(a[2], b[2]);
    assert(a.subrange(2, 6) =~= b.subrange(2, 6));
}

} // verus!
