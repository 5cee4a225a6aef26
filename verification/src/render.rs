//! Rendering integers and byte strings as the protocol's hex text:
//! `0x`-prefixed, lowercase, minimal for quantities (no leading zeros)
//! and two digits per byte for fixed-width words and raw byte strings.

use vstd::prelude::*;
use crate::scalar::{
    all_hex_digits, dec_digit_value, dec_value, hex_digit_value, hex_value, is_dec_digit,
    is_hex_digit, valid_dec_text, valid_hex_text,
};

verus! {

/// The lowercase hex character of one digit value below 16.
pub open spec fn hex_char_of_nibble(d: nat) -> char {
    if d == 0 {
        '0'
    } else if d == 1 {
        '1'
    } else if d == 2 {
        '2'
    } else if d == 3 {
        '3'
    } else if d == 4 {
        '4'
    } else if d == 5 {
        '5'
    } else if d == 6 {
        '6'
    } else if d == 7 {
        '7'
    } else if d == 8 {
        '8'
    } else if d == 9 {
        '9'
    } else if d == 10 {
        'a'
    } else if d == 11 {
        'b'
    } else if d == 12 {
        'c'
    } else if d == 13 {
        'd'
    } else if d == 14 {
        'e'
    } else {
        'f'
    }
}

pub broadcast proof fn lemma_hex_char_of_nibble(d: nat)
    requires
        d < 16,
    ensures
        is_hex_digit(#[trigger] hex_char_of_nibble(d)),
        hex_digit_value(hex_char_of_nibble(d)) == d,
{
}

/// The minimal hex digit string of a number: no leading zeros, and `0`
/// itself for zero.
pub open spec fn min_hex_digits(n: nat) -> Seq<char>
    decreases n,
{
    if n < 16 {
        seq![hex_char_of_nibble(n)]
    } else {
        min_hex_digits(n / 16).push(hex_char_of_nibble(n % 16))
    }
}

/// The minimal decimal digit string of a number.
pub open spec fn min_dec_digits(n: nat) -> Seq<char>
    decreases n,
{
    if n < 10 {
        seq![dec_char_of_digit(n)]
    } else {
        min_dec_digits(n / 10).push(dec_char_of_digit(n % 10))
    }
}

/// The decimal character of one digit value below 10.
pub open spec fn dec_char_of_digit(d: nat) -> char {
    hex_char_of_nibble(if d < 10 {
        d
    } else {
        0
    })
}

pub broadcast proof fn lemma_dec_char_of_digit(d: nat)
    requires
        d < 10,
    ensures
        is_dec_digit(#[trigger] dec_char_of_digit(d)),
        dec_digit_value(dec_char_of_digit(d)) == d,
{
}

/// The full hex text of a quantity: `0x` then its minimal digits.
pub open spec fn hex_text_of(n: nat) -> Seq<char> {
    seq!['0', 'x'] + min_hex_digits(n)
}

/// Minimal hex digits are valid hex text and read back as the number
/// they were made from.
pub broadcast proof fn lemma_min_hex_digits_value(n: nat)
    ensures
        valid_hex_text(#[trigger] min_hex_digits(n)),
        hex_value(min_hex_digits(n)) == n,
    decreases n,
{
    broadcast use lemma_hex_char_of_nibble;

    if n < 16 {
        let s = min_hex_digits(n);
        assert(s.drop_last() =~= Seq::empty());
        assert(hex_value(Seq::<char>::empty()) == 0);
        assert(hex_value(s) == hex_digit_value(hex_char_of_nibble(n)));
    } else {
        lemma_min_hex_digits_value(n / 16);
        let s = min_hex_digits(n);
        let p = min_hex_digits(n / 16);
        assert(s.drop_last() =~= p);
        assert(s.last() == hex_char_of_nibble(n % 16));
        assert(hex_value(s) == (n / 16) * 16 + n % 16);
        assert((n / 16) * 16 + n % 16 == n) by (nonlinear_arith);
        assert forall|i: int| 0 <= i < s.len() implies is_hex_digit(#[trigger] s[i]) by {
            if i < p.len() {
                assert(s[i] == p[i]);
            }
        }
    }
}

/// Minimal decimal digits are valid decimal text and read back as the
/// number they were made from.
pub broadcast proof fn lemma_min_dec_digits_value(n: nat)
    ensures
        valid_dec_text(#[trigger] min_dec_digits(n)),
        dec_value(min_dec_digits(n)) == n,
    decreases n,
{
    broadcast use lemma_dec_char_of_digit;

    if n < 10 {
        let s = min_dec_digits(n);
        assert(s.drop_last() =~= Seq::empty());
        assert(dec_value(Seq::<char>::empty()) == 0);
        assert(dec_value(s) == dec_digit_value(dec_char_of_digit(n)));
    } else {
        lemma_min_dec_digits_value(n / 10);
        let s = min_dec_digits(n);
        let p = min_dec_digits(n / 10);
        assert(s.drop_last() =~= p);
        assert(s.last() == dec_char_of_digit(n % 10));
        assert(dec_value(s) == (n / 10) * 10 + n % 10);
        assert((n / 10) * 10 + n % 10 == n) by (nonlinear_arith);
        assert forall|i: int| 0 <= i < s.len() implies is_dec_digit(#[trigger] s[i]) by {
            if i < p.len() {
                assert(s[i] == p[i]);
            }
        }
    }
}

/// Both textual forms of a number decode back to it: the decimal text of
/// any 64-bit number, and its `0x`-prefixed hex text, both parse to the
/// number they were rendered from.
pub proof fn lemma_scalar_text_round_trip(n: u64)
    ensures
        crate::scalar::scalar_u64_result(min_dec_digits(n as nat)) == Ok::<
            u64,
            crate::scalar::ScalarErrorKind,
        >(n),
        crate::scalar::scalar_u64_result(hex_text_of(n as nat)) == Ok::<
            u64,
            crate::scalar::ScalarErrorKind,
        >(n),
{
    broadcast use lemma_min_dec_digits_value, lemma_min_hex_digits_value;

    let d = min_dec_digits(n as nat);
    assert(!crate::scalar::hex_prefixed(d)) by {
        if d.len() >= 2 {
            assert(is_dec_digit(d[1]));
            assert(d[1] != 'x');
        }
    }
    let h = hex_text_of(n as nat);
    assert(crate::scalar::hex_prefixed(h)) by {
        assert(h[0] == '0');
        assert(h[1] == 'x');
    }
    assert(h.skip(2) =~= min_hex_digits(n as nat));
}

/// The same, for machine-word indexes.
pub proof fn lemma_index_text_round_trip(n: usize)
    ensures
        crate::scalar::scalar_usize_result(min_dec_digits(n as nat)) == Ok::<
            usize,
            crate::scalar::ScalarErrorKind,
        >(n),
        crate::scalar::scalar_usize_result(hex_text_of(n as nat)) == Ok::<
            usize,
            crate::scalar::ScalarErrorKind,
        >(n),
{
    broadcast use lemma_min_dec_digits_value, lemma_min_hex_digits_value;

    let d = min_dec_digits(n as nat);
    assert(!crate::scalar::hex_prefixed(d)) by {
        if d.len() >= 2 {
            assert(is_dec_digit(d[1]));
            assert(d[1] != 'x');
        }
    }
    let h = hex_text_of(n as nat);
    assert(crate::scalar::hex_prefixed(h)) by {
        assert(h[0] == '0');
        assert(h[1] == 'x');
    }
    assert(h.skip(2) =~= min_hex_digits(n as nat));
}

/// The one-character string of one hex digit value.
pub(crate) fn nibble_str(d: u8) -> (r: &'static str)
    requires
        d < 16,
    ensures
        r@ =~= seq![hex_char_of_nibble(d as nat)],
{
    proof {
        reveal_strlit("0");
        reveal_strlit("1");
        reveal_strlit("2");
        reveal_strlit("3");
        reveal_strlit("4");
        reveal_strlit("5");
        reveal_strlit("6");
        reveal_strlit("7");
        reveal_strlit("8");
        reveal_strlit("9");
        reveal_strlit("a");
        reveal_strlit("b");
        reveal_strlit("c");
        reveal_strlit("d");
        reveal_strlit("e");
        reveal_strlit("f");
    }
    if d == 0 {
        "0"
    } else if d == 1 {
        "1"
    } else if d == 2 {
        "2"
    } else if d == 3 {
        "3"
    } else if d == 4 {
        "4"
    } else if d == 5 {
        "5"
    } else if d == 6 {
        "6"
    } else if d == 7 {
        "7"
    } else if d == 8 {
        "8"
    } else if d == 9 {
        "9"
    } else if d == 10 {
        "a"
    } else if d == 11 {
        "b"
    } else if d == 12 {
        "c"
    } else if d == 13 {
        "d"
    } else if d == 14 {
        "e"
    } else {
        "f"
    }
}

/// The digit characters of a nibble list read backwards, most significant
/// digit first.
pub open spec fn rev_nibble_chars(d: Seq<u8>) -> Seq<char> {
    Seq::new(d.len(), |i: int| hex_char_of_nibble(d[d.len() - 1 - i] as nat))
}

/// Renders a quantity as its `0x`-prefixed minimal hex text — the form
/// every emitted integer takes on the wire.
pub fn u64_to_hex(n: u64) -> (r: String)
    ensures
        r@ == hex_text_of(n as nat),
{
    proof {
        reveal_strlit("0x");
        reveal_strlit("0x0");
    }
    if n == 0 {
        return String::from_str("0x0");
    }
    let mut digits: Vec<u8> = Vec::new();
    let mut m = n;
    while m > 0
        invariant
            forall|i: int| 0 <= i < digits@.len() ==> digits@[i] < 16,
            m > 0 ==> min_hex_digits(n as nat) =~= min_hex_digits(m as nat) + rev_nibble_chars(
                digits@,
            ),
            m == 0 ==> digits@.len() > 0 && min_hex_digits(n as nat) =~= rev_nibble_chars(digits@),
        decreases m,
    {
        let d = (m % 16) as u8;
        let ghost old_digits = digits@;
        let ghost old_m = m as nat;
        digits.push(d);
        m = m / 16;
        proof {
            assert(rev_nibble_chars(digits@) =~= seq![hex_char_of_nibble(d as nat)]
                + rev_nibble_chars(old_digits));
            if old_m >= 16 {
                assert(min_hex_digits(old_m) == min_hex_digits(old_m / 16).push(
                    hex_char_of_nibble(old_m % 16),
                ));
                assert(min_hex_digits(old_m) =~= min_hex_digits(old_m / 16) + seq![
                    hex_char_of_nibble(old_m % 16),
                ]);
                assert(min_hex_digits(n as nat) =~= min_hex_digits(m as nat) + rev_nibble_chars(
                    digits@,
                ));
            } else {
                assert(min_hex_digits(old_m) =~= seq![hex_char_of_nibble(old_m)]);
                assert(m == 0);
                assert(min_hex_digits(n as nat) =~= rev_nibble_chars(digits@));
            }
        }
    }
    let mut s = String::from_str("0x");
    let len = digits.len();
    let mut k: usize = 0;
    while k < len
        invariant
            0 <= k <= len == digits@.len(),
            forall|i: int| 0 <= i < len ==> digits@[i] < 16,
            min_hex_digits(n as nat) =~= rev_nibble_chars(digits@),
            s@ =~= seq!['0', 'x'] + rev_nibble_chars(digits@).take(k as int),
        decreases len - k,
    {
        let d = digits[len - 1 - k];
        s.append(nibble_str(d));
        proof {
            assert(rev_nibble_chars(digits@).take(k + 1) =~= rev_nibble_chars(digits@).take(
                k as int,
            ).push(hex_char_of_nibble(digits@[len - 1 - k] as nat)));
            assert(s@ =~= seq!['0', 'x'] + rev_nibble_chars(digits@).take(k + 1));
        }
        k = k + 1;
    }
    proof {
        assert(rev_nibble_chars(digits@).take(len as int) =~= rev_nibble_chars(digits@));
    }
    s
}

/// The two hex digit characters of one byte.
pub open spec fn byte_hex_chars(b: u8) -> Seq<char> {
    seq![hex_char_of_nibble((b / 16) as nat), hex_char_of_nibble((b % 16) as nat)]
}

/// The hex digit characters of a byte string, two per byte, in order.
pub open spec fn bytes_hex_digits(s: Seq<u8>) -> Seq<char>
    decreases s.len(),
{
    if s.len() == 0 {
        Seq::empty()
    } else {
        bytes_hex_digits(s.drop_last()) + byte_hex_chars(s.last())
    }
}

/// The full hex text of a byte string: `0x` then two digits per byte.
pub open spec fn bytes_hex_text(s: Seq<u8>) -> Seq<char> {
    seq!['0', 'x'] + bytes_hex_digits(s)
}

/// Renders a byte string as `0x`-prefixed hex, two digits per byte — the
/// wire form of hashes, addresses and raw transaction bytes.
pub fn bytes_to_hex(v: &Vec<u8>) -> (r: String)
    ensures
        r@ == bytes_hex_text(v@),
{
    proof {
        reveal_strlit("0x");
    }
    let mut s = String::from_str("0x");
    let len = v.len();
    let mut k: usize = 0;
    while k < len
        invariant
            0 <= k <= len == v@.len(),
            s@ =~= seq!['0', 'x'] + bytes_hex_digits(v@.take(k as int)),
        decreases len - k,
    {
        let b = v[k];
        s.append(nibble_str(b / 16));
        s.append(nibble_str(b % 16));
        proof {
            assert(v@.take(k + 1).drop_last() =~= v@.take(k as int));
            assert(v@.take(k + 1).last() == v@[k as int]);
            assert(s@ =~= seq!['0', 'x'] + bytes_hex_digits(v@.take(k + 1)));
        }
        k = k + 1;
    }
    proof {
        assert(v@.take(len as int) =~= v@);
    }
    s
}

/// The bytes that a string of hex digits spells, two digits per byte.
pub open spec fn hex_digits_to_bytes(s: Seq<char>) -> Seq<u8> {
    Seq::new(
        s.len() / 2,
        |i: int| (hex_digit_value(s[2 * i]) * 16 + hex_digit_value(s[2 * i + 1])) as u8,
    )
}

/// Reading back the hex digits of a byte string gives the bytes again.
pub broadcast proof fn lemma_bytes_hex_round_trip(b: Seq<u8>)
    ensures
        (#[trigger] bytes_hex_digits(b)).len() == 2 * b.len(),
        all_hex_digits(bytes_hex_digits(b)),
        hex_digits_to_bytes(bytes_hex_digits(b)) =~= b,
    decreases b.len(),
{
    broadcast use lemma_hex_char_of_nibble;

    if b.len() > 0 {
        lemma_bytes_hex_round_trip(b.drop_last());
        let s = bytes_hex_digits(b);
        let p = bytes_hex_digits(b.drop_last());
        let last = b.last();
        assert forall|i: int| 0 <= i < s.len() implies is_hex_digit(#[trigger] s[i]) by {
            if i < p.len() {
                assert(s[i] == p[i]);
            } else {
                assert(s[i] == byte_hex_chars(last)[i - p.len()]);
            }
        }
        assert forall|i: int| 0 <= i < b.len() implies hex_digits_to_bytes(s)[i] == b[i] by {
            if i < b.len() - 1 {
                assert(s[2 * i] == p[2 * i]);
                assert(s[2 * i + 1] == p[2 * i + 1]);
                assert(hex_digits_to_bytes(p)[i] == b.drop_last()[i]);
            } else {
                assert(s[2 * i] == byte_hex_chars(last)[0]);
                assert(s[2 * i + 1] == byte_hex_chars(last)[1]);
                assert(hex_digit_value(s[2 * i]) == last / 16);
                assert(hex_digit_value(s[2 * i + 1]) == last % 16);
                assert((last / 16) * 16 + last % 16 == last) by (nonlinear_arith);
            }
        }
    }
}

/// Parses a string of hex digits (without the `0x` prefix) into bytes;
/// fails on odd length or any non-digit character.
pub fn parse_hex_bytes(s: &str) -> (r: Option<Vec<u8>>)
    ensures
        match r {
            Some(v) => s@.len() % 2 == 0 && all_hex_digits(s@) && v@ == hex_digits_to_bytes(s@),
            None => !(s@.len() % 2 == 0 && all_hex_digits(s@)),
        },
{
    let len = s.unicode_len();
    if len % 2 != 0 {
        return None;
    }
    let mut out: Vec<u8> = Vec::new();
    let mut i: usize = 0;
    while i < len
        invariant
            0 <= i <= len == s@.len(),
            i % 2 == 0,
            len % 2 == 0,
            out@.len() == i / 2,
            forall|k: int| 0 <= k < i ==> is_hex_digit(#[trigger] s@[k]),
            forall|k: int|
                0 <= k < i / 2 ==> out@[k] == (hex_digit_value(s@[2 * k]) * 16 + hex_digit_value(
                    s@[2 * k + 1],
                )) as u8,
        decreases len - i,
    {
        let hi = match crate::scalar::hex_digit_of(s.get_char(i)) {
            Some(d) => d,
            None => {
                return None;
            },
        };
        let lo = match crate::scalar::hex_digit_of(s.get_char(i + 1)) {
            Some(d) => d,
            None => {
                return None;
            },
        };
        out.push(hi * 16 + lo);
        i = i + 2;
    }
    proof {
        assert(out@ =~= hex_digits_to_bytes(s@));
    }
    Some(out)
}

} // verus!
