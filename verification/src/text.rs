//! Numbers and letters written out as text.

use vstd::prelude::*;
use vstd::string::*;

verus! {

/// The digit `n` below sixteen, in lower case.
pub open spec fn hex_digit(n: int) -> char {
    if n < 10 {
        ('0' as int + n) as char
    } else {
        ('a' as int + n - 10) as char
    }
}

/// The two hexadecimal digits of `byte`.
pub open spec fn hex_byte(byte: u8) -> Seq<char> {
    seq![hex_digit(byte as int / 16), hex_digit(byte as int % 16)]
}

/// The hexadecimal digits of `bytes`, two a byte.
pub open spec fn hex(bytes: Seq<u8>) -> Seq<char>
    decreases bytes.len(),
{
    if bytes.len() == 0 {
        seq![]
    } else {
        hex(bytes.drop_last()) + hex_byte(bytes.last())
    }
}

/// The decimal digits of `n`, without leading zeros.
pub open spec fn decimal(n: nat) -> Seq<char>
    decreases n,
{
    if n < 10 {
        seq![hex_digit(n as int)]
    } else {
        decimal(n / 10).push(hex_digit((n % 10) as int))
    }
}

/// The decimal digits of `n`, with zeros ahead of them up to `width` digits.
pub open spec fn zero_padded(n: nat, width: nat) -> Seq<char> {
    Seq::new((width - decimal(n).len()) as nat, |i: int| '0') + decimal(n)
}

/// The last `width` decimal digits of `n`.
pub open spec fn last_digits(n: nat, width: nat) -> Seq<int>
    decreases width,
{
    if width == 0 {
        seq![]
    } else {
        last_digits(n / 10, (width - 1) as nat).push((n % 10) as int)
    }
}

/// How many numbers `width` decimal digits tell apart.
pub open spec fn power_of_ten(width: nat) -> nat
    decreases width,
{
    if width == 0 {
        1
    } else {
        10 * power_of_ten((width - 1) as nat)
    }
}

/// The letter that five bits stand for: `A` is one.
pub open spec fn letter(n: int) -> char {
    (64 + n) as char
}

/// A number of at most `width` digits, padded, is its last `width` digits.
pub proof fn lemma_zero_padded(n: nat, width: nat)
    requires
        width > 0,
        n < power_of_ten(width),
    ensures
        decimal(n).len() <= width,
        last_digits(n, width).len() == width,
        forall|i: int| 0 <= i < width ==> 0 <= #[trigger] last_digits(n, width)[i] < 10,
        zero_padded(n, width) == Seq::new(width, |i: int| hex_digit(last_digits(n, width)[i])),
    decreases width,
{
    let digits = last_digits(n, width);
    let fewer = last_digits(n / 10, (width - 1) as nat);
    if width == 1 {
        assert(power_of_ten(0) == 1);
        assert(fewer =~= seq![]);
        assert(zero_padded(n, width) =~= Seq::new(width, |i: int| hex_digit(digits[i])));
    } else {
        let less = (width - 1) as nat;
        lemma_zero_padded(n / 10, less);
        let short = zero_padded(n / 10, less);
        assert(zero_padded(n, width) =~= short.push(hex_digit((n % 10) as int)));
        assert(Seq::new(width, |i: int| hex_digit(digits[i])) =~= Seq::new(
            less,
            |i: int| hex_digit(fewer[i]),
        ).push(hex_digit((n % 10) as int)));
    }
}

fn push_digit(out: &mut String, n: u8)
    requires
        n < 16,
    ensures
        final(out)@ == old(out)@.push(hex_digit(n as int)),
{
    let digits = "0123456789abcdef";
    proof {
        reveal_strlit("0123456789abcdef");
    }
    assert(digits@[n as int] == hex_digit(n as int));
    out.append(digits.substring_ascii(n as usize, n as usize + 1));
    assert(out@ =~= old(out)@.push(hex_digit(n as int)));
}

/// Append the letter that `n` stands for.
pub fn push_letter(out: &mut String, n: u8)
    requires
        n < 32,
    ensures
        final(out)@ == old(out)@.push(letter(n as int)),
{
    let letters = "@ABCDEFGHIJKLMNOPQRSTUVWXYZ[\\]^_";
    proof {
        reveal_strlit("@ABCDEFGHIJKLMNOPQRSTUVWXYZ[\\]^_");
    }
    assert(letters@[n as int] == letter(n as int));
    out.append(letters.substring_ascii(n as usize, n as usize + 1));
    assert(out@ =~= old(out)@.push(letter(n as int)));
}

/// Append the two hexadecimal digits of `byte`.
pub fn push_hex_byte(out: &mut String, byte: u8)
    ensures
        final(out)@ == old(out)@ + hex_byte(byte),
{
    push_digit(out, byte / 16);
    push_digit(out, byte % 16);
    assert(out@ =~= old(out)@ + hex_byte(byte));
}

/// The hexadecimal digits of `bytes`, two a byte, in lower case.
pub fn encode_hex(bytes: &[u8]) -> (out: String)
    ensures
        out@ == hex(bytes@),
{
    let mut out = String::new();
    let mut i: usize = 0;
    while i < bytes.len()
        invariant
            i <= bytes@.len(),
            out@ == hex(bytes@.take(i as int)),
        decreases bytes@.len() - i,
    {
        push_hex_byte(&mut out, bytes[i]);
        i = i + 1;
        assert(bytes@.take(i as int).drop_last() =~= bytes@.take(i - 1));
    }
    assert(bytes@.take(i as int) =~= bytes@);
    out
}

/// Append the decimal digits of `n`.
pub fn push_decimal(out: &mut String, n: usize)
    ensures
        final(out)@ == old(out)@ + decimal(n as nat),
    decreases n,
{
    if n >= 10 {
        push_decimal(out, n / 10);
    }
    push_digit(out, (n % 10) as u8);
    assert(out@ =~= old(out)@ + decimal(n as nat));
}

} // verus!
