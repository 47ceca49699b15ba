//! Small verified operations on strings that the rest of the crate builds on.

use vstd::prelude::*;
use vstd::string::StringExecFns;
use vstd::utf8::{decode_utf8, decode_utf8_encode_utf8, encode_utf8, valid_utf8};

verus! {

/// Whether two string slices hold the same characters.
pub fn str_equals(a: &str, b: &str) -> (same: bool)
    ensures
        same == (a@ == b@),
{
    let left = a.to_owned();
    let right = b.to_owned();
    left == right
}

/// The character that writes the digit `d` in base ten.
pub open spec fn digit_char(d: nat) -> char
    recommends
        d < 10,
{
    if d == 0 {
        '0'
    } else if d == 1 {
        '1'
    } else if d == 2 {
        '2'
    } else if d == 3 {
        '3'
    } else if d == 4 {
        '4'
    } else if d == 5 {
        '5'
    } else if d == 6 {
        '6'
    } else if d == 7 {
        '7'
    } else if d == 8 {
        '8'
    } else {
        '9'
    }
}

/// The decimal numeral of `n`: no sign, no leading zero, `"0"` for zero.
pub open spec fn decimal_digits(n: nat) -> Seq<char>
    decreases n,
{
    if n < 10 {
        seq![digit_char(n)]
    } else {
        decimal_digits(n / 10).push(digit_char(n % 10))
    }
}

/// Different digits are written with different characters.
proof fn lemma_digit_char_injective(a: nat, b: nat)
    requires
        a < 10,
        b < 10,
        digit_char(a) == digit_char(b),
    ensures
        a == b,
{
}

/// Different numbers have different numerals.
pub proof fn lemma_decimal_digits_injective(a: nat, b: nat)
    ensures
        decimal_digits(a) == decimal_digits(b) ==> a == b,
    decreases a,
{
    if decimal_digits(a) == decimal_digits(b) {
        if a < 10 && b < 10 {
            assert(decimal_digits(a)[0] == decimal_digits(b)[0]);
            lemma_digit_char_injective(a, b);
        } else if a >= 10 && b >= 10 {
            let x = decimal_digits(a / 10);
            let y = decimal_digits(b / 10);
            assert(x.push(digit_char(a % 10)).drop_last() =~= x);
            assert(y.push(digit_char(b % 10)).drop_last() =~= y);
            assert(x.push(digit_char(a % 10)).last() == digit_char(a % 10));
            assert(y.push(digit_char(b % 10)).last() == digit_char(b % 10));
            lemma_decimal_digits_injective(a / 10, b / 10);
            lemma_digit_char_injective(a % 10, b % 10);
        } else {
            lemma_decimal_digits_len(a);
            lemma_decimal_digits_len(b);
        }
    }
}

/// A numeral has one character below ten and more than one from ten on.
proof fn lemma_decimal_digits_len(n: nat)
    ensures
        n < 10 ==> decimal_digits(n).len() == 1,
        n >= 10 ==> decimal_digits(n).len() >= 2,
    decreases n,
{
    if n >= 10 {
        lemma_decimal_digits_len(n / 10);
    }
}

fn digit_str(d: u64) -> (s: &'static str)
    requires
        d < 10,
    ensures
        s@ == seq![digit_char(d as nat)],
{
    proof {
        reveal_strlit("0");
        reveal_strlit("1");
        reveal_strlit("2");
        reveal_strlit("3");
        reveal_strlit("4");
        reveal_strlit("5");
        reveal_strlit("6");
        reveal_strlit("7");
        reveal_strlit("8");
        reveal_strlit("9");
    }
    let s = if d == 0 {
        "0"
    } else if d == 1 {
        "1"
    } else if d == 2 {
        "2"
    } else if d == 3 {
        "3"
    } else if d == 4 {
        "4"
    } else if d == 5 {
        "5"
    } else if d == 6 {
        "6"
    } else if d == 7 {
        "7"
    } else if d == 8 {
        "8"
    } else {
        "9"
    };
    assert(s@ =~= seq![digit_char(d as nat)]);
    s
}

/// Writes `n` in base ten.
pub fn decimal_string(n: u64) -> (s: String)
    ensures
        s@ == decimal_digits(n as nat),
    decreases n,
{
    if n < 10 {
        digit_str(n).to_owned()
    } else {
        let mut s = decimal_string(n / 10);
        s.append(digit_str(n % 10));
        assert(s@ =~= decimal_digits(n as nat));
        s
    }
}

/// The text that `String::from_utf8_lossy` makes of bytes that are not
/// valid UTF-8.
pub uninterp spec fn lossy_text(bytes: Seq<u8>) -> Seq<char>;

/// The text of a file's bytes: the text they encode where they are valid
/// UTF-8, and otherwise that text with each invalid stretch replaced.
pub open spec fn text_of_bytes(bytes: Seq<u8>) -> Seq<char> {
    if valid_utf8(bytes) {
        decode_utf8(bytes)
    } else {
        lossy_text(bytes)
    }
}

/// `String::from_utf8_lossy`, with the result owned.
///
/// Believed of it: the text depends on the bytes alone, and bytes that are
/// valid UTF-8 come back as the text they encode. How other bytes are
/// replaced is not stated here; that text has a name.
#[verifier::external_body]
pub(crate) fn lossy_string(bytes: &[u8]) -> (s: String)
    ensures
        valid_utf8(bytes@) ==> s@ == decode_utf8(bytes@),
        !valid_utf8(bytes@) ==> s@ == lossy_text(bytes@),
{
    String::from_utf8_lossy(bytes).into_owned()
}

/// Text that is valid UTF-8 is kept whole: its encoding is the bytes again.
pub proof fn lemma_valid_text_is_kept(bytes: Seq<u8>)
    requires
        valid_utf8(bytes),
    ensures
        text_of_bytes(bytes) == decode_utf8(bytes),
        encode_utf8(text_of_bytes(bytes)) == bytes,
{
    decode_utf8_encode_utf8(bytes);
}

} // verus!
