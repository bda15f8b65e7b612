//! What the text that the library writes says, by reading it back: digits as the numbers they
//! stand for, letters by their place in the alphabet.

use crate::error::TransportError;
use crate::frame::{label, lemma_code_of_letters};
use crate::text::{encode_hex, push_decimal, push_hex_byte, push_letter};
use vstd::prelude::*;

verus! {

/// The number that a digit stands for: `0` to `9`, then `a` to `f`; none otherwise.
pub open spec fn digit_read(digit: char) -> Option<int> {
    if '0' <= digit <= '9' {
        Some(digit as int - 48)
    } else if 'a' <= digit <= 'f' {
        Some(digit as int - 87)
    } else {
        None
    }
}

/// Whether two hexadecimal digits read as `byte`, the high one first.
pub open spec fn reads_as_byte(high: char, low: char, byte: u8) -> bool {
    &&& digit_read(high) is Some
    &&& digit_read(low) is Some
    &&& 16 * digit_read(high)->Some_0 + digit_read(low)->Some_0 == byte
}

/// The number that decimal digits read as, the highest first; none where one of them is no
/// decimal digit.
pub open spec fn number_read(digits: Seq<char>) -> Option<int>
    decreases digits.len(),
{
    if digits.len() == 0 {
        Some(0)
    } else {
        match number_read(digits.drop_last()) {
            Some(n) => if '0' <= digits.last() <= '9' {
                Some(10 * n + (digits.last() as int - 48))
            } else {
                None
            },
            None => None,
        }
    }
}

/// Whether `digits` is how a number is written in decimal: it reads as `n`, and starts with a
/// zero only where it is one digit.
pub open spec fn reads_as_number(digits: Seq<char>, n: int) -> bool {
    &&& digits.len() > 0
    &&& number_read(digits) == Some(n)
    &&& digits[0] == '0' ==> digits.len() == 1
}

proof fn lemma_hex_byte(byte: u8)
    ensures
        crate::text::hex_byte(byte).len() == 2,
        reads_as_byte(crate::text::hex_byte(byte)[0], crate::text::hex_byte(byte)[1], byte),
{
}

proof fn lemma_hex(bytes: Seq<u8>)
    ensures
        crate::text::hex(bytes).len() == 2 * bytes.len(),
        forall|i: int|
            0 <= i < bytes.len() ==> reads_as_byte(
                crate::text::hex(bytes)[2 * i],
                crate::text::hex(bytes)[2 * i + 1],
                #[trigger] bytes[i],
            ),
    decreases bytes.len(),
{
    if bytes.len() > 0 {
        lemma_hex(bytes.drop_last());
        lemma_hex_byte(bytes.last());
        assert forall|i: int| 0 <= i < bytes.len() implies reads_as_byte(
            crate::text::hex(bytes)[2 * i],
            crate::text::hex(bytes)[2 * i + 1],
            #[trigger] bytes[i],
        ) by {
            if i < bytes.len() - 1 {
                assert(bytes.drop_last()[i] == bytes[i]);
            }
        }
    }
}

proof fn lemma_decimal(n: nat)
    ensures
        reads_as_number(crate::text::decimal(n), n as int),
        n > 0 ==> crate::text::decimal(n)[0] != '0',
    decreases n,
{
    let digits = crate::text::decimal(n);
    if n < 10 {
        assert(digits.drop_last() =~= seq![]);
        assert(number_read(digits.drop_last()) == Some(0int));
    } else {
        lemma_decimal(n / 10);
        assert(digits.drop_last() =~= crate::text::decimal(n / 10));
        assert(n == 10 * (n / 10) + n % 10);
    }
}

/// Bytes are written as two hexadecimal digits each, which read back as the byte, in order.
pub proof fn law_hexadecimal_reads_back(bytes: &[u8], out: String)
    requires
        call_ensures(encode_hex, (bytes,), out),
    ensures
        out@.len() == 2 * bytes@.len(),
        forall|i: int|
            0 <= i < bytes@.len() ==> reads_as_byte(
                out@[2 * i],
                out@[2 * i + 1],
                #[trigger] bytes@[i],
            ),
{
    lemma_hex(bytes@);
}

/// A byte is appended as two hexadecimal digits that read back as it, and what was there
/// stays.
pub proof fn law_an_appended_byte_reads_back(out: &mut String, byte: u8)
    requires
        call_ensures(push_hex_byte, (out, byte), ()),
    ensures
        final(out)@.len() == old(out)@.len() + 2,
        final(out)@.take(old(out)@.len() as int) == old(out)@,
        reads_as_byte(
            final(out)@[old(out)@.len() as int],
            final(out)@[old(out)@.len() as int + 1],
            byte,
        ),
{
    lemma_hex_byte(byte);
    assert((old(out)@ + crate::text::hex_byte(byte)).take(old(out)@.len() as int) =~= old(out)@);
}

/// A number is appended as decimal digits that read back as it, without leading zeros, and
/// what was there stays.
pub proof fn law_an_appended_number_reads_back(out: &mut String, n: usize)
    requires
        call_ensures(push_decimal, (out, n), ()),
    ensures
        final(out)@.len() > old(out)@.len(),
        final(out)@.take(old(out)@.len() as int) == old(out)@,
        reads_as_number(final(out)@.skip(old(out)@.len() as int), n as int),
{
    lemma_decimal(n as nat);
    let digits = crate::text::decimal(n as nat);
    assert((old(out)@ + digits).take(old(out)@.len() as int) =~= old(out)@);
    assert((old(out)@ + digits).skip(old(out)@.len() as int) =~= digits);
}

/// A letter is appended by its place in the alphabet, `A` the first, and what was there stays.
pub proof fn law_an_appended_letter_is_at_its_place(out: &mut String, n: u8)
    requires
        n < 32,
        call_ensures(push_letter, (out, n), ()),
    ensures
        final(out)@.len() == old(out)@.len() + 1,
        final(out)@.take(old(out)@.len() as int) == old(out)@,
        final(out)@[old(out)@.len() as int] as int - 64 == n,
{
    let letter = crate::text::letter(n as int);
    assert(old(out)@.push(letter).take(old(out)@.len() as int) =~= old(out)@);
}

/// A label is three letters, a dash and eight digits: the letters, by their place in the
/// alphabet, are the fifteen low bits of the manufacturer, five each, and the digits read back
/// as the four bytes of the identification number, the last byte first.
pub proof fn law_a_label_reads_back_as_the_address(address: &[u8; 8], text: String)
    requires
        call_ensures(label, (address,), text),
    ensures
        text@.len() == 12,
        forall|i: int| 0 <= i < 3 ==> 64 <= #[trigger] text@[i] as int && (text@[i] as int) < 96,
        (address@[0] + 256 * address@[1]) % 32768 == 1024 * (text@[0] as int - 64) + 32 * (
        text@[1] as int - 64) + (text@[2] as int - 64),
        text@[3] == '-',
        reads_as_byte(text@[4], text@[5], address@[5]),
        reads_as_byte(text@[6], text@[7], address@[4]),
        reads_as_byte(text@[8], text@[9], address@[3]),
        reads_as_byte(text@[10], text@[11], address@[2]),
{
    let pairs = seq![address@[5], address@[4], address@[3], address@[2]];
    lemma_hex(pairs);
    let digits = crate::text::hex(pairs);
    assert(text@.skip(4) =~= digits);
    assert(reads_as_byte(digits[0], digits[1], pairs[0]));
    assert(reads_as_byte(digits[2], digits[3], pairs[1]));
    assert(reads_as_byte(digits[4], digits[5], pairs[2]));
    assert(reads_as_byte(digits[6], digits[7], pairs[3]));
    lemma_code_of_letters(address@[0] + 256 * address@[1]);
}

/// Only a meter that did not answer may answer later.
pub proof fn law_only_a_missing_answer_is_worth_another_try(error: TransportError, retry: bool)
    requires
        call_ensures(TransportError::retryable, (&error,), retry),
    ensures
        retry <==> error == TransportError::NoAnswer,
{
}

/// Data that is too long is reported with its length in decimal, ahead of what it exceeds.
pub proof fn law_a_message_gives_the_length(len: usize, message: String)
    requires
        call_ensures(
            TransportError::message,
            (&TransportError::DataTooLong { len },),
            message,
        ),
    ensures
        exists|digits: Seq<char>|
            #[trigger] reads_as_number(digits, len as int) && message@ == digits
                + " bytes of user data is over a wireless frame's 245"@,
{
    lemma_decimal(len as nat);
    assert(reads_as_number(crate::text::decimal(len as nat), len as int));
}

/// A frame that is not the meter's data is reported with its control field and its control
/// information in hexadecimal.
pub proof fn law_a_message_gives_control_and_information(control: u8, ci: u8, message: String)
    requires
        call_ensures(
            TransportError::message,
            (&TransportError::NotMeterData { control, ci },),
            message,
        ),
    ensures
        exists|high: char, low: char, up: char, down: char|
            #[trigger] reads_as_byte(high, low, control) && #[trigger] reads_as_byte(up, down, ci)
                && message@ == "control 0x"@ + seq![high, low] + " with information 0x"@ + seq![
                up,
                down,
            ] + " is not the meter's data"@,
{
    lemma_hex_byte(control);
    lemma_hex_byte(ci);
    let a = crate::text::hex_byte(control);
    let b = crate::text::hex_byte(ci);
    assert(reads_as_byte(a[0], a[1], control) && reads_as_byte(b[0], b[1], ci));
    assert(a =~= seq![a[0], a[1]]);
    assert(b =~= seq![b[0], b[1]]);
}

/// A frame where an acknowledgement was due is reported with its control field in
/// hexadecimal.
pub proof fn law_a_message_gives_the_control_field(control: u8, message: String)
    requires
        call_ensures(
            TransportError::message,
            (&TransportError::NotAcknowledged { control },),
            message,
        ),
    ensures
        exists|high: char, low: char|
            #[trigger] reads_as_byte(high, low, control) && message@ == "control 0x"@ + seq![
                high,
                low,
            ] + " where an acknowledgement was due"@,
{
    lemma_hex_byte(control);
    let a = crate::text::hex_byte(control);
    assert(reads_as_byte(a[0], a[1], control));
    assert(a =~= seq![a[0], a[1]]);
}

/// What else goes wrong is told in fixed words.
pub proof fn law_a_message_names_the_fault(error: TransportError, message: String)
    requires
        call_ensures(TransportError::message, (&error,), message),
    ensures
        error is FrameTooShort ==> message@ == "a frame shorter than its first block"@,
        error is LengthTooShort ==> message@ == "a length shorter than the first block"@,
        error is FrameCutShort ==> message@ == "a frame cut short inside a block"@,
        error is ChecksumMismatch ==> message@ == "a block whose CRC does not check"@,
        error is TrailingBytes ==> message@ == "bytes after the last block"@,
        error is NoAnswer ==> message@ == "the meter did not answer"@,
{
}

} // verus!
