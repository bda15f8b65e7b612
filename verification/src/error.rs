//! What goes wrong on the air.

use crate::text::{push_decimal, push_hex_byte};
use vstd::prelude::*;
use vstd::string::*;

verus! {

/// Why a frame, an exchange or a Stream failed.
#[derive(Clone, Copy, Debug, PartialEq, Eq, Structural)]
pub enum TransportError {
    /// More user data than a frame carries.
    DataTooLong { len: usize },
    /// Fewer bytes than a frame's first block and its CRC.
    FrameTooShort,
    /// A length that does not cover the first block and the control information.
    LengthTooShort,
    /// The bytes end inside a block.
    FrameCutShort,
    /// A block whose CRC does not check.
    ChecksumMismatch,
    /// Bytes after the last block.
    TrailingBytes,
    /// A frame where the meter's data was due.
    NotMeterData { control: u8, ci: u8 },
    /// A frame where an acknowledgement was due.
    NotAcknowledged { control: u8 },
    /// The meter did not answer in time.
    NoAnswer,
}

impl TransportError {
    /// What the error says.
    pub open spec fn text(self) -> Seq<char> {
        match self {
            TransportError::DataTooLong { len } => crate::text::decimal(len as nat)
                + " bytes of user data is over a wireless frame's 245"@,
            TransportError::FrameTooShort => "a frame shorter than its first block"@,
            TransportError::LengthTooShort => "a length shorter than the first block"@,
            TransportError::FrameCutShort => "a frame cut short inside a block"@,
            TransportError::ChecksumMismatch => "a block whose CRC does not check"@,
            TransportError::TrailingBytes => "bytes after the last block"@,
            TransportError::NotMeterData { control, ci } => "control 0x"@ + crate::text::hex_byte(
                control,
            ) + " with information 0x"@ + crate::text::hex_byte(ci)
                + " is not the meter's data"@,
            TransportError::NotAcknowledged { control } => "control 0x"@ + crate::text::hex_byte(
                control,
            ) + " where an acknowledgement was due"@,
            TransportError::NoAnswer => "the meter did not answer"@,
        }
    }

    /// What the error says, for a reader.
    pub fn message(&self) -> (message: String)
        ensures
            message@ == self.text(),
    {
        let mut out = String::new();
        match self {
            TransportError::DataTooLong { len } => {
                push_decimal(&mut out, *len);
                out.append(" bytes of user data is over a wireless frame's 245");
            },
            TransportError::FrameTooShort => out.append("a frame shorter than its first block"),
            TransportError::LengthTooShort => out.append("a length shorter than the first block"),
            TransportError::FrameCutShort => out.append("a frame cut short inside a block"),
            TransportError::ChecksumMismatch => out.append("a block whose CRC does not check"),
            TransportError::TrailingBytes => out.append("bytes after the last block"),
            TransportError::NotMeterData { control, ci } => {
                out.append("control 0x");
                push_hex_byte(&mut out, *control);
                out.append(" with information 0x");
                push_hex_byte(&mut out, *ci);
                out.append(" is not the meter's data");
            },
            TransportError::NotAcknowledged { control } => {
                out.append("control 0x");
                push_hex_byte(&mut out, *control);
                out.append(" where an acknowledgement was due");
            },
            TransportError::NoAnswer => out.append("the meter did not answer"),
        }
        assert(out@ =~= self.text());
        out
    }

    /// Whether the same request may succeed later: a meter may be out of range for a while,
    /// what it did send does not change.
    pub fn retryable(&self) -> (retryable: bool)
        ensures
            retryable == (*self is NoAnswer),
    {
        matches!(self, TransportError::NoAnswer)
    }
}

} // verus!
