//! Small text helpers: characters in and out of strings, lossy decoding, and
//! decimal numbers.

use vstd::prelude::*;
use vstd::utf8::*;

verus! {

/// `String::push`: the character goes to the end of the string.
pub assume_specification[ String::push ](s: &mut String, c: char)
    ensures
        final(s)@ == old(s)@.push(c),
;

/// What lossy decoding makes of bytes that are not valid UTF-8.
pub uninterp spec fn invalid_utf8_lossy(bytes: Seq<u8>) -> Seq<char>;

/// The text that a byte string stands for: its decoding where it is valid
/// UTF-8, otherwise the decoding with replacement characters.
pub open spec fn utf8_lossy(bytes: Seq<u8>) -> Seq<char> {
    if valid_utf8(bytes) {
        decode_utf8(bytes)
    } else {
        invalid_utf8_lossy(bytes)
    }
}

/// `String::from_utf8_lossy`: valid UTF-8 is taken as it stands; any other
/// input decodes to a text that depends on the bytes alone, with U+FFFD in
/// place of what is malformed. How many replacement characters stand for a
/// malformed stretch, and that the rest is kept, is not stated.
#[verifier::external_body]
pub(crate) fn decode_lossy(bytes: &[u8]) -> (text: String)
    ensures
        valid_utf8(bytes@) ==> text@ == decode_utf8(bytes@),
        !valid_utf8(bytes@) ==> text@ == invalid_utf8_lossy(bytes@) && text@.contains('\u{fffd}'),
{
    String::from_utf8_lossy(bytes).into_owned()
}

/// The characters of a string, in order.
pub fn to_chars(s: &str) -> (chars: Vec<char>)
    ensures
        chars@ == s@,
{
    let mut chars: Vec<char> = Vec::new();
    for c in it: s.chars()
        invariant
            it.seq() == s@,
            chars@ == s@.take(it.index() as int),
    {
        chars.push(c);
    }
    chars
}

/// The string made of the given characters.
pub fn from_chars(chars: &Vec<char>) -> (s: String)
    ensures
        s@ == chars@,
{
    let mut s = String::new();
    let mut i: usize = 0;
    while i < chars.len()
        invariant
            i <= chars.len(),
            s@ == chars@.take(i as int),
        decreases chars.len() - i,
    {
        s.push(chars[i]);
        i += 1;
    }
    s
}

/// The character of a decimal digit.
pub open spec fn digit_char(d: nat) -> char {
    (48 + d) as char
}

/// The decimal digits of `n`, most significant first.
pub open spec fn digits(n: nat) -> Seq<char>
    decreases n,
{
    if n < 10 {
        seq![digit_char(n)]
    } else {
        digits(n / 10).push(digit_char(n % 10))
    }
}

/// `n` in decimal.
pub fn decimal(n: u64) -> (s: String)
    ensures
        s@ == digits(n as nat),
    decreases n,
{
    if n < 10 {
        let mut s = String::new();
        s.push((48 + n as u8) as char);
        s
    } else {
        let mut s = decimal(n / 10);
        s.push((48 + (n % 10) as u8) as char);
        s
    }
}

/// The number that decimal digits stand for.
pub open spec fn value_of(number: Seq<char>) -> int
    decreases number.len(),
{
    if number.len() == 0 {
        0
    } else {
        10 * value_of(number.drop_last()) + (number.last() as int - 48)
    }
}

/// Decimal digits read back as the number they were made from, and there is no
/// other character among them.
pub proof fn law_digits_read_back(n: nat)
    ensures
        value_of(digits(n)) == n,
        digits(n).len() > 0,
        forall|i: int| 0 <= i < digits(n).len() ==> '0' <= #[trigger] digits(n)[i] <= '9',
    decreases n,
{
    reveal_with_fuel(value_of, 2);
    if n < 10 {
        assert(digits(n).drop_last() =~= Seq::empty());
    } else {
        law_digits_read_back(n / 10);
        assert(digits(n).drop_last() =~= digits(n / 10));
        assert(digits(n).last() == digit_char(n % 10));
    }
}

/// Decimal digits have no leading zero, and zero is a single one.
pub proof fn law_digits_have_no_leading_zero(n: nat)
    ensures
        n > 0 ==> digits(n)[0] != '0',
        n == 0 ==> digits(n) == seq!['0'],
    decreases n,
{
    if n >= 10 {
        law_digits_have_no_leading_zero(n / 10);
        law_digits_read_back(n / 10);
        assert(digits(n)[0] == digits(n / 10)[0]);
    }
}

/// Lossy decoding gives back every text from its encoding.
pub proof fn law_decoding_undoes_encoding(text: Seq<char>)
    ensures
        utf8_lossy(encode_utf8(text)) == text,
{
    encode_utf8_valid_utf8(text);
    encode_utf8_decode_utf8(text);
}

} // verus!
