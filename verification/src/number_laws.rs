//! What holds of numbers as text, digit by digit.

use crate::digest::{etag_of, md5_of};
use crate::numbers::{
    all_digits, decimal, digits_value, hex, is_digit, lemma_decimal_digits, parsed, signed_decimal,
    unsigned_part,
};
use vstd::prelude::*;
use vstd::string::*;

verus! {

/// A number below ten is one digit, and each digit more goes to the end.
pub proof fn decimal_grows_by_a_digit(n: nat, d: nat)
    requires
        d < 10,
    ensures
        decimal(d).len() == 1,
        decimal(d)[0] as int == '0' as int + d,
        n > 0 ==> decimal(10 * n + d).drop_last() == decimal(n),
        n > 0 ==> decimal(10 * n + d).last() as int == '0' as int + d,
{
    if n > 0 {
        assert((10 * n + d) / 10 == n);
        assert((10 * n + d) % 10 == d);
        assert(decimal(10 * n + d).drop_last() =~= decimal(n));
    }
}

/// A negative number has a minus sign in front of its digits.
pub proof fn minus_sign_comes_first(n: nat)
    ensures
        signed_decimal(n as int) == decimal(n),
        n > 0 ==> signed_decimal(-(n as int)) == seq!['-'] + decimal(n),
{
}

/// A number text is read where it is a number up to the limit in decimal digits, with a plus
/// sign in front or without, and zeros in front or without.
pub proof fn number_is_read_with_zeros_and_plus(n: nat, zeros: nat, max: nat)
    ensures
        ({
            let text = Seq::new(zeros, |i: int| '0') + decimal(n);
            let expected = if n <= max {
                Some(n)
            } else {
                None
            };
            parsed(text, max) == expected && parsed(seq!['+'] + text, max) == expected
        }),
{
    let text = Seq::new(zeros, |i: int| '0') + decimal(n);
    lemma_zeros(n, zeros);
    assert(is_digit(text[0]));
    assert((seq!['+'] + text).skip(1) =~= text);
}

/// Zeros in front of a number do not count.
proof fn lemma_zeros(n: nat, zeros: nat)
    ensures
        ({
            let text = Seq::new(zeros, |i: int| '0') + decimal(n);
            all_digits(text) && digits_value(text) == n
        }),
    decreases zeros,
{
    let text = Seq::new(zeros, |i: int| '0') + decimal(n);
    lemma_decimal_digits(n);
    if zeros == 0 {
        assert(text =~= decimal(n));
    } else {
        let less = Seq::new((zeros - 1) as nat, |i: int| '0') + decimal(n);
        lemma_zeros(n, (zeros - 1) as nat);
        assert(text =~= seq!['0'] + less);
        lemma_leading_zero(less);
        assert forall|i: int| 0 <= i < text.len() implies is_digit(#[trigger] text[i]) by {
            if i > 0 {
                assert(is_digit(less[i - 1]));
            }
        }
    }
}

/// A zero in front of digits does not count.
proof fn lemma_leading_zero(s: Seq<char>)
    ensures
        digits_value(seq!['0'] + s) == digits_value(s),
    decreases s.len(),
{
    reveal_with_fuel(digits_value, 2);
    let t = seq!['0'] + s;
    if s.len() == 0 {
        assert(t.drop_last() =~= Seq::<char>::empty());
        assert(t.last() == '0');
    } else {
        lemma_leading_zero(s.drop_last());
        assert(t.drop_last() =~= seq!['0'] + s.drop_last());
        assert(t.last() == s.last());
    }
}

/// A text with another character than a digit in it is no number; a plus sign is one only in
/// front. No text is no number.
pub proof fn other_text_is_no_number(s: Seq<char>, i: int, max: nat)
    requires
        0 <= i < s.len(),
        !('0' <= s[i] <= '9'),
        i == 0 ==> s[0] != '+' || s.len() == 1,
    ensures
        parsed(s, max) is None,
        parsed(Seq::empty(), max) is None,
{
    let digits = unsigned_part(s);
    if s[0] == '+' {
        if i > 0 {
            assert(digits[i - 1] == s[i]);
        }
    } else {
        assert(digits[i] == s[i]);
    }
}

/// Two digits stand for each byte, the upper half first.
pub proof fn byte_is_two_hex_digits(bytes: Seq<u8>)
    ensures
        hex(bytes).len() == 2 * bytes.len(),
        forall|i: int|
            0 <= i < bytes.len() ==> {
                let b = #[trigger] bytes[i] as int;
                &&& hex(bytes)[2 * i] == "0123456789abcdef"@[b / 16]
                &&& hex(bytes)[2 * i + 1] == "0123456789abcdef"@[b % 16]
            },
    decreases bytes.len(),
{
    reveal_strlit("0123456789abcdef");
    if bytes.len() > 0 {
        let init = bytes.drop_last();
        byte_is_two_hex_digits(init);
        let n = init.len() as int;
        let b = bytes.last() as int;
        assert(hex(bytes)[2 * n] == "0123456789abcdef"@[b / 16]);
        assert(hex(bytes)[2 * n + 1] == "0123456789abcdef"@[b % 16]);
        assert forall|i: int| 0 <= i < bytes.len() implies {
            let b = #[trigger] bytes[i] as int;
            &&& hex(bytes)[2 * i] == "0123456789abcdef"@[b / 16]
            &&& hex(bytes)[2 * i + 1] == "0123456789abcdef"@[b % 16]
        } by {
            if i < n {
                assert(init[i] == bytes[i]);
                assert(hex(bytes)[2 * i] == hex(init)[2 * i]);
                assert(hex(bytes)[2 * i + 1] == hex(init)[2 * i + 1]);
            }
        }
    }
}

/// An entity tag is the checksum of the data in hexadecimal digits, between quotes.
pub proof fn entity_tag_is_quoted_checksum(data: Seq<u8>)
    ensures
        ({
            let tag = etag_of(data);
            let sum = md5_of(data);
            &&& tag.len() == 2 * sum.len() + 2
            &&& tag[0] == '"'
            &&& tag.last() == '"'
            &&& forall|i: int|
                0 <= i < sum.len() ==> {
                    let b = #[trigger] sum[i] as int;
                    &&& tag[1 + 2 * i] == "0123456789abcdef"@[b / 16]
                    &&& tag[2 + 2 * i] == "0123456789abcdef"@[b % 16]
                }
        }),
{
    byte_is_two_hex_digits(md5_of(data));
    let sum = md5_of(data);
    let tag = etag_of(data);
    assert forall|i: int| 0 <= i < sum.len() implies {
        let b = #[trigger] sum[i] as int;
        &&& tag[1 + 2 * i] == "0123456789abcdef"@[b / 16]
        &&& tag[2 + 2 * i] == "0123456789abcdef"@[b % 16]
    } by {
        assert(tag[1 + 2 * i] == hex(sum)[2 * i]);
        assert(tag[2 + 2 * i] == hex(sum)[2 * i + 1]);
    }
}

} // verus!
