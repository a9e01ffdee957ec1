//! Decimal text of a number, written into a caller's buffer.
use vstd::arithmetic::power::{lemma_pow_adds, lemma_pow_positive, pow};
use vstd::prelude::*;
use vstd::string::*;
use vstd::utf8::*;

verus! {

/// The ASCII digits of `n` in base ten, most significant first, without
/// leading zeros (zero itself is the one digit `0`).
pub open spec fn decimal(n: nat) -> Seq<u8>
    decreases n,
{
    if n < 10 {
        seq![(48 + n) as u8]
    } else {
        decimal(n / 10).push((48 + n % 10) as u8)
    }
}

/// The number that a run of ASCII digits stands for.
pub open spec fn decimal_value(digits: Seq<u8>) -> nat
    decreases digits.len(),
{
    if digits.len() == 0 {
        0
    } else {
        decimal_value(digits.drop_last()) * 10 + (digits.last() - 48) as nat
    }
}

/// `core::str::from_utf8`: succeeds exactly on well-formed UTF-8, and then gives
/// the text that the bytes encode.
#[verifier::external_body]
fn str_from_utf8(bytes: &[u8]) -> (text: Option<&str>)
    ensures
        text is Some <==> valid_utf8(bytes@),
        text matches Some(s) ==> s.spec_bytes() == bytes@ && s@ == decode_utf8(bytes@),
{
    core::str::from_utf8(bytes).ok()
}

pub open spec fn ascii_chars(bytes: Seq<u8>) -> Seq<char> {
    Seq::new(bytes.len(), |i: int| bytes[i] as char)
}

proof fn lemma_ascii_is_utf8(bytes: Seq<u8>)
    requires
        forall|i: int| 0 <= i < bytes.len() ==> bytes[i] < 0x80,
    ensures
        valid_utf8(bytes),
        decode_utf8(bytes) == ascii_chars(bytes),
{
    let chars = ascii_chars(bytes);
    assert forall|i: int| 0 <= i < chars.len() implies chars[i] as nat == bytes[i] as nat by {
    }
    assert(is_ascii_chars(chars));
    is_ascii_chars_encode_utf8(chars);
    assert(encode_utf8(chars) =~= bytes);
    encode_utf8_valid_utf8(chars);
    encode_utf8_decode_utf8(chars);
}

/// Every character of a number's text is a digit, and the text is never empty.
pub proof fn decimal_is_digits(n: nat)
    ensures
        decimal(n).len() >= 1,
        forall|i: int| 0 <= i < decimal(n).len() ==> 48 <= #[trigger] decimal(n)[i] <= 57,
    decreases n,
{
    if n >= 10 {
        decimal_is_digits(n / 10);
    }
}

/// The last digit of a number's text is the number's remainder by ten, and what stands
/// before it is the text of the number's tenth.
pub proof fn decimal_ends_with_remainder(n: nat)
    ensures
        decimal(n).last() == 48 + n % 10,
        n < 10 ==> decimal(n).len() == 1,
        n >= 10 ==> decimal(n).drop_last() == decimal(n / 10),
{
    if n >= 10 {
        assert(decimal(n).drop_last() =~= decimal(n / 10));
    }
}

/// Reading a number's text back gives the number.
pub proof fn decimal_round_trip(n: nat)
    ensures
        decimal_value(decimal(n)) == n,
    decreases n,
{
    reveal_with_fuel(decimal_value, 2);
    if n >= 10 {
        decimal_round_trip(n / 10);
        assert(decimal(n).drop_last() =~= decimal(n / 10));
    } else {
        assert(decimal(n).drop_last() =~= Seq::<u8>::empty());
    }
}

/// The text of a number other than zero does not start with the digit `0`.
pub proof fn decimal_has_no_leading_zero(n: nat)
    requires
        n > 0,
    ensures
        decimal(n)[0] != 48,
    decreases n,
{
    if n >= 10 {
        decimal_has_no_leading_zero(n / 10);
        decimal_is_digits(n / 10);
    }
}

/// A number takes no more than `k` digits exactly if it is below ten to the `k`.
pub proof fn decimal_length(n: nat, k: nat)
    requires
        k >= 1,
    ensures
        decimal(n).len() <= k <==> n < pow(10, k),
    decreases n,
{
    reveal_with_fuel(pow, 2);
    if k == 1 {
        if n >= 10 {
            decimal_is_digits(n / 10);
        }
    } else {
        lemma_pow_positive(10, (k - 1) as nat);
        if n >= 10 {
            decimal_length(n / 10, (k - 1) as nat);
        }
    }
}

/// A 32-bit number takes at most ten digits, a 64-bit number at most twenty.
pub proof fn decimal_length_of_words(n: nat)
    ensures
        n <= u32::MAX ==> decimal(n).len() <= 10,
        n <= u64::MAX ==> decimal(n).len() <= 20,
{
    reveal_with_fuel(pow, 11);
    let tenth = pow(10, 10);
    assert(tenth == 10_000_000_000);
    lemma_pow_adds(10, 10, 10);
    decimal_length(n, 10);
    decimal_length(n, 20);
}

/// Whether the text of a number fits into `len` bytes. Ten bytes do for every 32-bit
/// number, and twenty for every 64-bit one.
pub open spec fn fits(num: u64, len: nat) -> bool {
    ||| decimal(num as nat).len() <= len
    ||| num <= u32::MAX && 10 <= len
    ||| 20 <= len
}

/// Writes the decimal text of `num` at the start of `buffer` and returns it.
/// The rest of the buffer keeps its bytes.
pub fn format_number(mut num: u64, buffer: &mut [u8]) -> (text: &str)
    requires
        fits(num, old(buffer)@.len()),
    ensures
        text.spec_bytes() == decimal(num as nat),
        text@ == ascii_chars(decimal(num as nat)),
        final(buffer)@ == decimal(num as nat) + old(buffer)@.skip(
            decimal(num as nat).len() as int,
        ),
{
    let ghost whole = decimal(num as nat);
    proof {
        decimal_length_of_words(num as nat);
        decimal_is_digits(num as nat);
        lemma_ascii_is_utf8(whole);
        assert(buffer@.len() == buffer.len());
    }
    if num == 0 {
        buffer[0] = 48;
        assert(buffer@.subrange(0, 1) =~= whole);
        return str_from_utf8(&buffer[0..1]).unwrap();
    }
    let mut pos: usize = 0;
    let mut temp: u64 = num;
    while temp > 0
        invariant
            temp > 0 ==> pos + decimal(temp as nat).len() == whole.len(),
            temp == 0 ==> pos == whole.len(),
            whole.len() <= usize::MAX,
        decreases temp,
    {
        proof {
            decimal_is_digits(temp as nat);
        }
        temp = temp / 10;
        pos = pos + 1;
    }
    let end_pos: usize = pos;
    let ghost before = buffer@;
    while num > 0
        invariant
            pos <= end_pos,
            end_pos == whole.len(),
            buffer@.len() == before.len(),
            end_pos <= before.len(),
            num > 0 ==> pos > 0 && decimal(num as nat) == whole.take(pos as int),
            num == 0 ==> pos == 0,
            forall|i: int| pos <= i < end_pos ==> buffer@[i] == whole[i],
            forall|i: int| end_pos <= i < before.len() ==> buffer@[i] == before[i],
        decreases num,
    {
        pos = pos - 1;
        let ghost digits = decimal(num as nat);
        assert(digits.last() == whole[pos as int]);
        buffer[pos] = 48 + (num % 10) as u8;
        proof {
            if num >= 10 {
                assert(digits.drop_last() =~= decimal((num / 10) as nat));
                assert(digits.drop_last() =~= whole.take(pos as int));
                decimal_is_digits((num / 10) as nat);
            }
        }
        num = num / 10;
    }
    assert(buffer@.subrange(0, end_pos as int) =~= whole);
    assert(buffer@ =~= whole + before.skip(whole.len() as int));
    str_from_utf8(&buffer[0..end_pos]).unwrap()
}

}
