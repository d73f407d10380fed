//! Text building: decimal numbers, zero padding, and fixed-capacity texts
//! that refuse what does not fit.

use vstd::prelude::*;
use vstd::string::StringExecFns;
use vstd::utf8::*;

use crate::helpers::utf8_len;

verus! {

broadcast use vstd::utf8::group_utf8_lib;

/// Appends one character. Calls `String::push`, which appends the character
/// at the end and changes nothing else.
#[verifier::external_body]
pub(crate) fn push_char(text: &mut String, c: char)
    ensures
        final(text)@ == old(text)@.push(c),
{
    text.push(c);
}

/// The character of a decimal digit.
pub open spec fn digit_char(digit: nat) -> char {
    (48 + digit) as char
}

/// The decimal digits of `n`, without leading zeros (`"0"` for zero).
pub open spec fn decimal_chars(n: nat) -> Seq<char>
    decreases n,
{
    if n < 10 {
        seq![digit_char(n)]
    } else {
        decimal_chars(n / 10).push(digit_char(n % 10))
    }
}

/// `n` in decimal, preceded by zeros up to `width` characters.
pub open spec fn zero_padded(n: nat, width: nat) -> Seq<char> {
    let digits = decimal_chars(n);
    if digits.len() < width {
        Seq::new((width - digits.len()) as nat, |i: int| '0') + digits
    } else {
        digits
    }
}

/// `n` formatted with `width` characters at least, zero padded after the
/// sign, the way `{:0width$}` formats a signed integer.
pub open spec fn signed_zero_padded(n: int, width: nat) -> Seq<char> {
    if n < 0 {
        seq!['-'] + zero_padded((-n) as nat, (width - 1) as nat)
    } else {
        zero_padded(n as nat, width)
    }
}

/// Every character is ASCII.
pub open spec fn ascii_only(chars: Seq<char>) -> bool {
    is_ascii_chars(chars)
}

/// `text` appended to `current` when the result fits in `capacity` bytes,
/// otherwise `current` unchanged (a fixed-capacity string refuses a text
/// that would overflow it).
pub open spec fn pushed_within(current: Seq<char>, text: Seq<char>, capacity: nat) -> Seq<char> {
    if utf8_len(current) + utf8_len(text) <= capacity {
        current + text
    } else {
        current
    }
}

pub proof fn lemma_decimal_chars(n: nat)
    ensures
        ascii_only(decimal_chars(n)),
        n >= 10 ==> decimal_chars(n).len() >= 2,
        n < 100000 ==> decimal_chars(n).len() <= 5,
        n < 1000000 ==> decimal_chars(n).len() <= 6,
        n < 10000000 ==> decimal_chars(n).len() <= 7,
        n < 100000000 ==> decimal_chars(n).len() <= 8,
        n < 1000000000 ==> decimal_chars(n).len() <= 9,
        n < 10000000000 ==> decimal_chars(n).len() <= 10,
        n < 10 ==> decimal_chars(n).len() == 1,
        n < 100 ==> decimal_chars(n).len() <= 2,
        n < 1000 ==> decimal_chars(n).len() <= 3,
        n < 10000 ==> decimal_chars(n).len() <= 4,
        decimal_chars(n).len() >= 1,
    decreases n,
{
    if n >= 10 {
        lemma_decimal_chars(n / 10);
        let prefix = decimal_chars(n / 10);
        assert(decimal_chars(n) == prefix.push(digit_char(n % 10)));
        assert forall|i: int| 0 <= i < decimal_chars(n).len() implies '\0' <= #[trigger] decimal_chars(
            n,
        )[i] <= '\u{7f}' by {
            if i < prefix.len() {
                assert(decimal_chars(n)[i] == prefix[i]);
            }
        }
    }
}

/// The UTF-8 length of ASCII text is its number of characters.
pub proof fn lemma_ascii_utf8_len(chars: Seq<char>)
    requires
        ascii_only(chars),
    ensures
        utf8_len(chars) == chars.len(),
{
    is_ascii_chars_encode_utf8(chars);
}

/// Appends the decimal digits of `n`.
pub fn push_decimal(text: &mut String, n: u32)
    ensures
        final(text)@ == old(text)@ + decimal_chars(n as nat),
    decreases n,
{
    if n >= 10 {
        push_decimal(text, n / 10);
    }
    let digit: u8 = (n % 10) as u8;
    push_char(text, (48u8 + digit) as char);
    assert(final(text)@ =~= old(text)@ + decimal_chars(n as nat));
}

/// The UTF-8 byte length of a text.
pub fn byte_len(text: &str) -> (length: usize)
    ensures
        length == utf8_len(text@),
{
    text.as_bytes().len()
}

/// The text a fixed-capacity string holds after it was cleared and `text`
/// was pushed into it: `text` itself when it fits in `capacity` bytes,
/// otherwise nothing.
pub fn bounded_text(text: &str, capacity: usize) -> (value: String)
    ensures
        value@ == pushed_within(Seq::empty(), text@, capacity as nat),
        utf8_len(value@) <= capacity,
{
    proof {
        assert(encode_utf8(Seq::<char>::empty()) =~= Seq::<u8>::empty()) by {
            reveal_with_fuel(encode_utf8, 1);
        }
        assert(Seq::<char>::empty() + text@ =~= text@);
    }
    if byte_len(text) <= capacity {
        text.to_owned()
    } else {
        String::new()
    }
}

/// Length and alphabet of a zero padded number.
pub proof fn lemma_zero_padded(n: nat, width: nat)
    ensures
        ascii_only(zero_padded(n, width)),
        zero_padded(n, width).len() == if decimal_chars(n).len() < width {
            width
        } else {
            decimal_chars(n).len()
        },
{
    lemma_decimal_chars(n);
    let digits = decimal_chars(n);
    if digits.len() < width {
        let zeros = Seq::new((width - digits.len()) as nat, |i: int| '0');
        assert forall|i: int| 0 <= i < zero_padded(n, width).len() implies '\0'
            <= #[trigger] zero_padded(n, width)[i] <= '\u{7f}' by {
            if i >= zeros.len() {
                assert(zero_padded(n, width)[i] == digits[i - zeros.len()]);
            }
        }
    }
}

/// ASCII text stays ASCII when joined.
pub proof fn lemma_ascii_concat(a: Seq<char>, b: Seq<char>)
    requires
        ascii_only(a),
        ascii_only(b),
    ensures
        ascii_only(a + b),
{
    assert forall|i: int| 0 <= i < (a + b).len() implies '\0' <= #[trigger] (a + b)[i] <= '\u{7f}' by {
        if i >= a.len() {
            assert((a + b)[i] == b[i - a.len()]);
        }
    }
}

} // verus!
