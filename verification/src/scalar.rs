//! The scalar decoder: turns the text of a stringified integer — either
//! `0x`-prefixed hexadecimal or plain decimal — into an unsigned integer,
//! and renders integers back as minimal hex or decimal digit strings.

use vstd::prelude::*;

verus! {

/// Which textual form of a stringified integer failed to parse.
#[derive(Clone, Copy, Debug, PartialEq, Eq, Structural)]
pub enum ScalarErrorKind {
    /// the text after a `0x` prefix is not valid hex, or the value does
    /// not fit the target width
    Hex,
    /// the text is not valid decimal, or the value does not fit the
    /// target width
    Dec,
}

/// The numeric value of one hex digit character; 16 stands for
/// "not a hex digit".
pub open spec fn hex_digit_value(c: char) -> nat {
    let u = c as nat;
    if 48 <= u && u <= 57 {
        (u - 48) as nat
    } else if 97 <= u && u <= 102 {
        (u - 87) as nat
    } else if 65 <= u && u <= 70 {
        (u - 55) as nat
    } else {
        16
    }
}

pub open spec fn is_hex_digit(c: char) -> bool {
    hex_digit_value(c) < 16
}

/// The numeric value of one decimal digit character; 10 stands for
/// "not a decimal digit".
pub open spec fn dec_digit_value(c: char) -> nat {
    let u = c as nat;
    if 48 <= u && u <= 57 {
        (u - 48) as nat
    } else {
        10
    }
}

pub open spec fn is_dec_digit(c: char) -> bool {
    dec_digit_value(c) < 10
}

/// The value of a sequence of hex digit characters, most significant first.
pub open spec fn hex_value(s: Seq<char>) -> nat
    decreases s.len(),
{
    if s.len() == 0 {
        0
    } else {
        hex_value(s.drop_last()) * 16 + hex_digit_value(s.last())
    }
}

/// The value of a sequence of decimal digit characters, most significant
/// first.
pub open spec fn dec_value(s: Seq<char>) -> nat
    decreases s.len(),
{
    if s.len() == 0 {
        0
    } else {
        dec_value(s.drop_last()) * 10 + dec_digit_value(s.last())
    }
}

pub open spec fn all_hex_digits(s: Seq<char>) -> bool {
    forall|i: int| 0 <= i < s.len() ==> is_hex_digit(#[trigger] s[i])
}

pub open spec fn all_dec_digits(s: Seq<char>) -> bool {
    forall|i: int| 0 <= i < s.len() ==> is_dec_digit(#[trigger] s[i])
}

/// Nonempty text made of hex digits only.
pub open spec fn valid_hex_text(s: Seq<char>) -> bool {
    s.len() > 0 && all_hex_digits(s)
}

/// Nonempty text made of decimal digits only.
pub open spec fn valid_dec_text(s: Seq<char>) -> bool {
    s.len() > 0 && all_dec_digits(s)
}

/// Whether the text starts with the two characters `0x`.
pub open spec fn hex_prefixed(s: Seq<char>) -> bool {
    s.len() >= 2 && s[0] == '0' && s[1] == 'x'
}

/// What parsing a stringified integer into a `u64` must return:
/// a `0x`-prefixed text is read as hex, anything else as decimal, and a
/// value over `u64::MAX` fails like malformed text of the same form.
pub open spec fn scalar_u64_result(s: Seq<char>) -> Result<u64, ScalarErrorKind> {
    if hex_prefixed(s) {
        if valid_hex_text(s.skip(2)) && hex_value(s.skip(2)) <= u64::MAX {
            Ok(hex_value(s.skip(2)) as u64)
        } else {
            Err(ScalarErrorKind::Hex)
        }
    } else {
        if valid_dec_text(s) && dec_value(s) <= u64::MAX {
            Ok(dec_value(s) as u64)
        } else {
            Err(ScalarErrorKind::Dec)
        }
    }
}

/// What parsing a stringified index into a `usize` must return; same rule
/// as for `u64`, bounded by `usize::MAX`.
pub open spec fn scalar_usize_result(s: Seq<char>) -> Result<usize, ScalarErrorKind> {
    if hex_prefixed(s) {
        if valid_hex_text(s.skip(2)) && hex_value(s.skip(2)) <= usize::MAX {
            Ok(hex_value(s.skip(2)) as usize)
        } else {
            Err(ScalarErrorKind::Hex)
        }
    } else {
        if valid_dec_text(s) && dec_value(s) <= usize::MAX {
            Ok(dec_value(s) as usize)
        } else {
            Err(ScalarErrorKind::Dec)
        }
    }
}

/// Values of longer prefixes of a digit string never shrink.
proof fn lemma_hex_value_prefix_le(s: Seq<char>, i: int, j: int)
    requires
        0 <= i <= j <= s.len(),
    ensures
        hex_value(s.take(i)) <= hex_value(s.take(j)),
    decreases j - i,
{
    if i < j {
        lemma_hex_value_prefix_le(s, i, j - 1);
        assert(s.take(j).drop_last() =~= s.take(j - 1));
        assert(hex_value(s.take(j)) == hex_value(s.take(j - 1)) * 16 + hex_digit_value(
            s.take(j).last(),
        ));
    }
}

proof fn lemma_dec_value_prefix_le(s: Seq<char>, i: int, j: int)
    requires
        0 <= i <= j <= s.len(),
    ensures
        dec_value(s.take(i)) <= dec_value(s.take(j)),
    decreases j - i,
{
    if i < j {
        lemma_dec_value_prefix_le(s, i, j - 1);
        assert(s.take(j).drop_last() =~= s.take(j - 1));
        assert(dec_value(s.take(j)) == dec_value(s.take(j - 1)) * 10 + dec_digit_value(
            s.take(j).last(),
        ));
    }
}

/// The numeric value of a hex digit character, or `None` when the
/// character is no hex digit.
pub fn hex_digit_of(c: char) -> (r: Option<u8>)
    ensures
        match r {
            Some(d) => is_hex_digit(c) && d == hex_digit_value(c),
            None => !is_hex_digit(c),
        },
{
    let u = c as u32;
    if 48 <= u && u <= 57 {
        Some((u - 48) as u8)
    } else if 97 <= u && u <= 102 {
        Some((u - 87) as u8)
    } else if 65 <= u && u <= 70 {
        Some((u - 55) as u8)
    } else {
        None
    }
}

/// The numeric value of a decimal digit character, or `None` when the
/// character is no decimal digit.
fn dec_digit_of(c: char) -> (r: Option<u8>)
    ensures
        match r {
            Some(d) => is_dec_digit(c) && d == dec_digit_value(c),
            None => !is_dec_digit(c),
        },
{
    let u = c as u32;
    if 48 <= u && u <= 57 {
        Some((u - 48) as u8)
    } else {
        None
    }
}

/// Parses nonempty hex digit text into a `u128`; fails on any non-digit
/// character and on values over `u128::MAX`.
fn parse_hex_u128(s: &str) -> (r: Option<u128>)
    ensures
        match r {
            Some(n) => valid_hex_text(s@) && hex_value(s@) == n,
            None => !valid_hex_text(s@) || hex_value(s@) > u128::MAX,
        },
{
    let len = s.unicode_len();
    if len == 0 {
        return None;
    }
    let mut acc: u128 = 0;
    let mut i: usize = 0;
    while i < len
        invariant
            0 < len == s@.len(),
            0 <= i <= len,
            acc == hex_value(s@.take(i as int)),
            forall|k: int| 0 <= k < i ==> is_hex_digit(#[trigger] s@[k]),
        decreases len - i,
    {
        let c = s.get_char(i);
        let d = match hex_digit_of(c) {
            Some(d) => d,
            None => {
                return None;
            },
        };
        proof {
            assert(s@.take(i + 1).drop_last() =~= s@.take(i as int));
            assert(s@.take(i + 1).last() == s@[i as int]);
        }
        let shifted = match acc.checked_mul(16) {
            Some(v) => v,
            None => {
                proof {
                    assert(hex_value(s@.take(i + 1)) > u128::MAX);
                    lemma_hex_value_prefix_le(s@, i + 1, s@.len() as int);
                    assert(s@.take(s@.len() as int) =~= s@);
                }
                return None;
            },
        };
        let acc2 = match shifted.checked_add(d as u128) {
            Some(v) => v,
            None => {
                proof {
                    assert(hex_value(s@.take(i + 1)) > u128::MAX);
                    lemma_hex_value_prefix_le(s@, i + 1, s@.len() as int);
                    assert(s@.take(s@.len() as int) =~= s@);
                }
                return None;
            },
        };
        acc = acc2;
        i = i + 1;
    }
    proof {
        assert(s@.take(len as int) =~= s@);
    }
    Some(acc)
}

/// Parses nonempty decimal digit text into a `u128`; fails on any
/// non-digit character and on values over `u128::MAX`.
fn parse_dec_u128(s: &str) -> (r: Option<u128>)
    ensures
        match r {
            Some(n) => valid_dec_text(s@) && dec_value(s@) == n,
            None => !valid_dec_text(s@) || dec_value(s@) > u128::MAX,
        },
{
    let len = s.unicode_len();
    if len == 0 {
        return None;
    }
    let mut acc: u128 = 0;
    let mut i: usize = 0;
    while i < len
        invariant
            0 < len == s@.len(),
            0 <= i <= len,
            acc == dec_value(s@.take(i as int)),
            forall|k: int| 0 <= k < i ==> is_dec_digit(#[trigger] s@[k]),
        decreases len - i,
    {
        let c = s.get_char(i);
        let d = match dec_digit_of(c) {
            Some(d) => d,
            None => {
                return None;
            },
        };
        proof {
            assert(s@.take(i + 1).drop_last() =~= s@.take(i as int));
            assert(s@.take(i + 1).last() == s@[i as int]);
        }
        let shifted = match acc.checked_mul(10) {
            Some(v) => v,
            None => {
                proof {
                    assert(dec_value(s@.take(i + 1)) > u128::MAX);
                    lemma_dec_value_prefix_le(s@, i + 1, s@.len() as int);
                    assert(s@.take(s@.len() as int) =~= s@);
                }
                return None;
            },
        };
        let acc2 = match shifted.checked_add(d as u128) {
            Some(v) => v,
            None => {
                proof {
                    assert(dec_value(s@.take(i + 1)) > u128::MAX);
                    lemma_dec_value_prefix_le(s@, i + 1, s@.len() as int);
                    assert(s@.take(s@.len() as int) =~= s@);
                }
                return None;
            },
        };
        acc = acc2;
        i = i + 1;
    }
    proof {
        assert(s@.take(len as int) =~= s@);
    }
    Some(acc)
}

/// Parses a stringified integer — `0x`-prefixed hex or plain decimal —
/// into a `u128`, telling hex failures from decimal ones.
pub fn parse_scalar_u128(s: &str) -> (r: Result<u128, ScalarErrorKind>)
    ensures
        match r {
            Ok(n) => if hex_prefixed(s@) {
                valid_hex_text(s@.skip(2)) && hex_value(s@.skip(2)) == n
            } else {
                valid_dec_text(s@) && dec_value(s@) == n
            },
            Err(k) => if hex_prefixed(s@) {
                k == ScalarErrorKind::Hex && (!valid_hex_text(s@.skip(2)) || hex_value(s@.skip(2))
                    > u128::MAX)
            } else {
                k == ScalarErrorKind::Dec && (!valid_dec_text(s@) || dec_value(s@) > u128::MAX)
            },
        },
{
    let len = s.unicode_len();
    if len >= 2 && s.get_char(0) == '0' && s.get_char(1) == 'x' {
        let rest = s.substring_char(2, len);
        proof {
            assert(rest@ =~= s@.skip(2));
        }
        match parse_hex_u128(rest) {
            Some(n) => Ok(n),
            None => Err(ScalarErrorKind::Hex),
        }
    } else {
        match parse_dec_u128(s) {
            Some(n) => Ok(n),
            None => Err(ScalarErrorKind::Dec),
        }
    }
}

/// Parses a stringified integer into a `u64`. Values over `u64::MAX` fail
/// with the error of the textual form they were written in.
pub fn parse_scalar_u64(s: &str) -> (r: Result<u64, ScalarErrorKind>)
    ensures
        r == scalar_u64_result(s@),
{
    let hex = s.unicode_len() >= 2 && s.get_char(0) == '0' && s.get_char(1) == 'x';
    match parse_scalar_u128(s) {
        Ok(n) => {
            if n <= u64::MAX as u128 {
                Ok(n as u64)
            } else if hex {
                Err(ScalarErrorKind::Hex)
            } else {
                Err(ScalarErrorKind::Dec)
            }
        },
        Err(k) => Err(k),
    }
}

/// Parses a stringified index into a `usize`. Values over `usize::MAX`
/// fail with the error of the textual form they were written in.
pub fn parse_scalar_usize(s: &str) -> (r: Result<usize, ScalarErrorKind>)
    ensures
        r == scalar_usize_result(s@),
{
    let hex = s.unicode_len() >= 2 && s.get_char(0) == '0' && s.get_char(1) == 'x';
    match parse_scalar_u128(s) {
        Ok(n) => {
            if n <= usize::MAX as u128 {
                Ok(n as usize)
            } else if hex {
                Err(ScalarErrorKind::Hex)
            } else {
                Err(ScalarErrorKind::Dec)
            }
        },
        Err(k) => Err(k),
    }
}

} // verus!
