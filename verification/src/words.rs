//! Fixed-width words and raw byte strings as this layer sees them: plain
//! bytes with a standard `0x`-prefixed hex textual form. Hashes are 32
//! bytes, addresses 20; quantities too wide for a machine word are kept
//! as their canonical hex digit values.

use vstd::prelude::*;
use crate::json::JVal;
use crate::render::{
    bytes_hex_text, hex_char_of_nibble, hex_digits_to_bytes, lemma_bytes_hex_round_trip,
    lemma_hex_char_of_nibble, nibble_str,
};
use crate::scalar::{all_hex_digits, dec_value, hex_digit_value, hex_prefixed, valid_dec_text};
use crate::types::{DecodeError, ErrV};

verus! {

/// A 32-byte word: a hash, a seed or a difficulty target.
#[derive(Clone, Debug, PartialEq, Eq)]
pub struct B256 {
    pub bytes: Vec<u8>,
}

impl B256 {
    /// A well-formed word holds exactly 32 bytes.
    pub open spec fn wf(&self) -> bool {
        self.bytes@.len() == 32
    }

    /// The word of 32 zero bytes.
    pub fn zero() -> (r: B256)
        ensures
            r.wf(),
            forall|i: int| 0 <= i < 32 ==> r.bytes@[i] == 0u8,
    {
        let mut bytes: Vec<u8> = Vec::new();
        let mut i: usize = 0;
        while i < 32
            invariant
                0 <= i <= 32,
                bytes@.len() == i,
                forall|j: int| 0 <= j < i ==> bytes@[j] == 0u8,
            decreases 32 - i,
        {
            bytes.push(0u8);
            i = i + 1;
        }
        B256 { bytes }
    }
}

impl DeepView for B256 {
    type V = Seq<u8>;

    open spec fn deep_view(&self) -> Seq<u8> {
        self.bytes@
    }
}

impl Default for B256 {
    fn default() -> (r: B256)
        ensures
            r.wf(),
            forall|i: int| 0 <= i < 32 ==> r.bytes@[i] == 0u8,
    {
        B256::zero()
    }
}

/// A raw byte string, such as an encoded transaction.
#[derive(Clone, Debug, Default, PartialEq, Eq)]
pub struct Bytes {
    pub data: Vec<u8>,
}

impl DeepView for Bytes {
    type V = Seq<u8>;

    open spec fn deep_view(&self) -> Seq<u8> {
        self.data@
    }
}

/// What a fixed 32-byte word must decode from: a `0x`-prefixed string of
/// exactly 64 hex digits. A non-string is a field error under the given
/// key; a malformed string is a hex parse error naming the text.
pub open spec fn spec_decode_b256(v: Option<JVal>, key: Seq<char>) -> Result<Seq<u8>, ErrV> {
    match v {
        Option::Some(JVal::Str(s)) => if hex_prefixed(s) && s.skip(2).len() == 64
            && all_hex_digits(s.skip(2)) {
            Ok(hex_digits_to_bytes(s.skip(2)))
        } else {
            Err(ErrV::Hex(s))
        },
        _ => Err(ErrV::Field(key)),
    }
}

/// What a raw byte string must decode from: a `0x`-prefixed string of an
/// even number of hex digits.
pub open spec fn spec_decode_bytes(v: Option<JVal>, key: Seq<char>) -> Result<Seq<u8>, ErrV> {
    match v {
        Option::Some(JVal::Str(s)) => if hex_prefixed(s) && s.skip(2).len() % 2 == 0
            && all_hex_digits(s.skip(2)) {
            Ok(hex_digits_to_bytes(s.skip(2)))
        } else {
            Err(ErrV::Hex(s))
        },
        _ => Err(ErrV::Field(key)),
    }
}

/// Splits `0x`-prefixed text from its digits; `None` when the prefix is
/// missing.
fn strip_hex_prefix<'a>(s: &'a str) -> (r: Option<&'a str>)
    ensures
        match r {
            Option::Some(rest) => hex_prefixed(s@) && rest@ == s@.skip(2),
            Option::None => !hex_prefixed(s@),
        },
{
    let len = s.unicode_len();
    if len >= 2 && s.get_char(0) == '0' && s.get_char(1) == 'x' {
        let rest = s.substring_char(2, len);
        proof {
            assert(rest@ =~= s@.skip(2));
        }
        Option::Some(rest)
    } else {
        Option::None
    }
}

/// Decodes a 32-byte word, as `spec_decode_b256` describes.
pub fn decode_b256(v: Option<&crate::json::JsonValue>, key: &str) -> (r: Result<B256, DecodeError>)
    ensures
        match r {
            Ok(w) => w.wf() && spec_decode_b256(v.deep_view(), key@) == Ok::<Seq<u8>, ErrV>(
                w.deep_view(),
            ),
            Err(e) => spec_decode_b256(v.deep_view(), key@) == Err::<Seq<u8>, ErrV>(e.deep_view()),
        },
{
    match v {
        Option::Some(crate::json::JsonValue::Str(s)) => {
            let rest = match strip_hex_prefix(s.as_str()) {
                Option::Some(rest) => rest,
                Option::None => {
                    return Err(DecodeError::HexParse { text: s.clone() });
                },
            };
            if rest.unicode_len() != 64 {
                return Err(DecodeError::HexParse { text: s.clone() });
            }
            match crate::render::parse_hex_bytes(rest) {
                Option::Some(bytes) => Ok(B256 { bytes }),
                Option::None => Err(DecodeError::HexParse { text: s.clone() }),
            }
        },
        _ => Err(DecodeError::Field { key: String::from_str(key) }),
    }
}

/// Decodes a raw byte string, as `spec_decode_bytes` describes.
pub fn decode_bytes(v: Option<&crate::json::JsonValue>, key: &str) -> (r: Result<
    Bytes,
    DecodeError,
>)
    ensures
        match r {
            Ok(b) => spec_decode_bytes(v.deep_view(), key@) == Ok::<Seq<u8>, ErrV>(b.deep_view()),
            Err(e) => spec_decode_bytes(v.deep_view(), key@) == Err::<Seq<u8>, ErrV>(
                e.deep_view(),
            ),
        },
{
    match v {
        Option::Some(crate::json::JsonValue::Str(s)) => {
            let rest = match strip_hex_prefix(s.as_str()) {
                Option::Some(rest) => rest,
                Option::None => {
                    return Err(DecodeError::HexParse { text: s.clone() });
                },
            };
            match crate::render::parse_hex_bytes(rest) {
                Option::Some(data) => Ok(Bytes { data }),
                Option::None => Err(DecodeError::HexParse { text: s.clone() }),
            }
        },
        _ => Err(DecodeError::Field { key: String::from_str(key) }),
    }
}

/// An account address: a 20-byte word.
#[derive(Clone, Debug, PartialEq, Eq)]
pub struct Address {
    pub bytes: Vec<u8>,
}

impl Address {
    /// A well-formed address holds exactly 20 bytes.
    pub open spec fn wf(&self) -> bool {
        self.bytes@.len() == 20
    }
}

impl DeepView for Address {
    type V = Seq<u8>;

    open spec fn deep_view(&self) -> Seq<u8> {
        self.bytes@
    }
}

/// What an address must decode from: a `0x`-prefixed string of exactly
/// 40 hex digits.
pub open spec fn spec_decode_address(v: Option<JVal>, key: Seq<char>) -> Result<Seq<u8>, ErrV> {
    match v {
        Option::Some(JVal::Str(s)) => if hex_prefixed(s) && s.skip(2).len() == 40
            && all_hex_digits(s.skip(2)) {
            Ok(hex_digits_to_bytes(s.skip(2)))
        } else {
            Err(ErrV::Hex(s))
        },
        _ => Err(ErrV::Field(key)),
    }
}

/// Decodes an address, as `spec_decode_address` describes.
pub fn decode_address(v: Option<&crate::json::JsonValue>, key: &str) -> (r: Result<
    Address,
    DecodeError,
>)
    ensures
        match r {
            Ok(a) => a.wf() && spec_decode_address(v.deep_view(), key@) == Ok::<Seq<u8>, ErrV>(
                a.deep_view(),
            ),
            Err(e) => spec_decode_address(v.deep_view(), key@) == Err::<Seq<u8>, ErrV>(
                e.deep_view(),
            ),
        },
{
    match v {
        Option::Some(crate::json::JsonValue::Str(s)) => {
            let rest = match strip_hex_prefix(s.as_str()) {
                Option::Some(rest) => rest,
                Option::None => {
                    return Err(DecodeError::HexParse { text: s.clone() });
                },
            };
            if rest.unicode_len() != 40 {
                return Err(DecodeError::HexParse { text: s.clone() });
            }
            match crate::render::parse_hex_bytes(rest) {
                Option::Some(bytes) => Ok(Address { bytes }),
                Option::None => Err(DecodeError::HexParse { text: s.clone() }),
            }
        },
        _ => Err(DecodeError::Field { key: String::from_str(key) }),
    }
}

/// A 256-bit quantity, held as the digit values of its canonical hex
/// text: minimal, with `0` itself for zero.
#[derive(Clone, Debug, PartialEq, Eq)]
pub struct U256 {
    pub nibbles: Vec<u8>,
}

/// A canonical quantity: one to 64 hex digit values, no leading zero
/// except on zero itself.
pub open spec fn canonical_nibbles(d: Seq<u8>) -> bool {
    &&& 1 <= d.len() <= 64
    &&& forall|i: int| 0 <= i < d.len() ==> d[i] < 16
    &&& d.len() > 1 ==> d[0] != 0
}

impl U256 {
    pub open spec fn wf(&self) -> bool {
        canonical_nibbles(self.nibbles@)
    }

    /// The quantity of a machine word.
    pub fn from_u64(n: u64) -> (r: U256)
        ensures
            r.wf(),
            r.deep_view() == min_nibbles(n as nat),
    {
        U256 { nibbles: u128_to_nibbles(n as u128) }
    }
}

impl DeepView for U256 {
    type V = Seq<u8>;

    open spec fn deep_view(&self) -> Seq<u8> {
        self.nibbles@
    }
}

/// The minimal hex digit values of a number.
pub open spec fn min_nibbles(n: nat) -> Seq<u8>
    decreases n,
{
    if n < 16 {
        seq![n as u8]
    } else {
        min_nibbles(n / 16).push((n % 16) as u8)
    }
}

pub broadcast proof fn lemma_min_nibbles_canonical(n: nat)
    ensures
        (#[trigger] min_nibbles(n)).len() >= 1,
        forall|i: int| 0 <= i < min_nibbles(n).len() ==> min_nibbles(n)[i] < 16,
        n > 0 ==> min_nibbles(n)[0] != 0,
        min_nibbles(n).len() <= 64 ==> canonical_nibbles(min_nibbles(n)),
    decreases n,
{
    if n >= 16 {
        lemma_min_nibbles_canonical(n / 16);
        let s = min_nibbles(n);
        let p = min_nibbles(n / 16);
        assert forall|i: int| 0 <= i < s.len() implies s[i] < 16 by {
            if i < p.len() {
                assert(s[i] == p[i]);
            } else {
                assert(s[i] == (n % 16) as u8);
            }
        }
    }
}

/// Quantities below 2^128 take at most 32 digits.
pub broadcast proof fn lemma_min_nibbles_len(n: nat)
    ensures
        n <= u128::MAX ==> (#[trigger] min_nibbles(n)).len() <= 32,
{
    if n <= u128::MAX {
        assert((u128::MAX as nat) < pow16(32)) by {
            reveal_with_fuel(pow16, 33);
        }
        lemma_min_nibbles_bound(n, 32);
    }
}

/// A number below 16^k takes at most k digits.
proof fn lemma_min_nibbles_bound(n: nat, k: nat)
    requires
        k >= 1,
        n < pow16(k),
    ensures
        min_nibbles(n).len() <= k,
    decreases k,
{
    if n >= 16 {
        if k == 1 {
            assert(pow16(1) == 16 * pow16(0));
        }
        assert(pow16(k) == 16 * pow16((k - 1) as nat));
        assert(16 * (n / 16) <= n);
        assert(n / 16 < pow16((k - 1) as nat)) by {
            if n / 16 >= pow16((k - 1) as nat) {
                assert(16 * (n / 16) >= 16 * pow16((k - 1) as nat)) by (nonlinear_arith)
                    requires
                        n / 16 >= pow16((k - 1) as nat),
                ;
            }
        }
        lemma_min_nibbles_bound(n / 16, (k - 1) as nat);
    }
}

/// Powers of 16, for digit-count bounds.
pub open spec fn pow16(k: nat) -> nat
    decreases k,
{
    if k == 0 {
        1
    } else {
        16 * pow16((k - 1) as nat)
    }
}

/// Renders a machine number as its minimal hex digit values.
pub fn u128_to_nibbles(n: u128) -> (r: Vec<u8>)
    ensures
        r@ == min_nibbles(n as nat),
        canonical_nibbles(r@),
{
    proof {
        broadcast use lemma_min_nibbles_canonical, lemma_min_nibbles_len;

    }
    let mut digits: Vec<u8> = Vec::new();
    let mut m = n;
    if m == 0 {
        digits.push(0u8);
        return digits;
    }
    while m > 0
        invariant
            forall|i: int| 0 <= i < digits@.len() ==> digits@[i] < 16,
            m > 0 ==> min_nibbles(n as nat) =~= min_nibbles(m as nat) + rev_nibbles(digits@),
            m == 0 ==> digits@.len() > 0 && min_nibbles(n as nat) =~= rev_nibbles(digits@),
        decreases m,
    {
        let d = (m % 16) as u8;
        let ghost old_digits = digits@;
        let ghost old_m = m as nat;
        digits.push(d);
        m = m / 16;
        proof {
            assert(rev_nibbles(digits@) =~= seq![d] + rev_nibbles(old_digits));
            if old_m >= 16 {
                assert(min_nibbles(old_m) =~= min_nibbles(old_m / 16) + seq![(old_m % 16) as u8]);
                assert(min_nibbles(n as nat) =~= min_nibbles(m as nat) + rev_nibbles(digits@));
            } else {
                assert(min_nibbles(old_m) =~= seq![old_m as u8]);
                assert(min_nibbles(n as nat) =~= rev_nibbles(digits@));
            }
        }
    }
    let len = digits.len();
    let mut out: Vec<u8> = Vec::new();
    let mut k: usize = 0;
    while k < len
        invariant
            0 <= k <= len == digits@.len(),
            forall|i: int| 0 <= i < len ==> digits@[i] < 16,
            min_nibbles(n as nat) =~= rev_nibbles(digits@),
            out@ =~= rev_nibbles(digits@).take(k as int),
        decreases len - k,
    {
        out.push(digits[len - 1 - k]);
        proof {
            assert(rev_nibbles(digits@).take(k + 1) =~= rev_nibbles(digits@).take(k as int).push(
                digits@[len - 1 - k],
            ));
        }
        k = k + 1;
    }
    proof {
        assert(rev_nibbles(digits@).take(len as int) =~= rev_nibbles(digits@));
    }
    out
}

/// A nibble list read backwards.
pub open spec fn rev_nibbles(d: Seq<u8>) -> Seq<u8> {
    Seq::new(d.len(), |i: int| d[d.len() - 1 - i])
}

/// The hex digit characters of digit values, in order.
pub open spec fn nibble_chars(d: Seq<u8>) -> Seq<char> {
    Seq::new(d.len(), |i: int| hex_char_of_nibble(d[i] as nat))
}

/// The wire text of a canonical quantity: `0x` then its digits.
pub open spec fn u256_hex_text(d: Seq<u8>) -> Seq<char> {
    seq!['0', 'x'] + nibble_chars(d)
}

impl U256 {
    /// Renders this quantity as its `0x`-prefixed minimal hex text.
    pub fn to_hex(&self) -> (r: String)
        requires
            self.wf(),
        ensures
            r@ == u256_hex_text(self.nibbles@),
    {
        proof {
            reveal_strlit("0x");
        }
        let mut s = String::from_str("0x");
        let len = self.nibbles.len();
        let mut k: usize = 0;
        while k < len
            invariant
                0 <= k <= len == self.nibbles@.len(),
                forall|i: int| 0 <= i < len ==> self.nibbles@[i] < 16,
                s@ =~= seq!['0', 'x'] + nibble_chars(self.nibbles@).take(k as int),
            decreases len - k,
        {
            s.append(nibble_str(self.nibbles[k]));
            proof {
                assert(nibble_chars(self.nibbles@).take(k + 1) =~= nibble_chars(
                    self.nibbles@,
                ).take(k as int).push(hex_char_of_nibble(self.nibbles@[k as int] as nat)));
            }
            k = k + 1;
        }
        proof {
            assert(nibble_chars(self.nibbles@).take(len as int) =~= nibble_chars(self.nibbles@));
        }
        s
    }
}

/// Leading zero digits stripped, down to a single digit.
pub open spec fn strip_leading_zeros(d: Seq<u8>) -> Seq<u8>
    decreases d.len(),
{
    if d.len() > 1 && d[0] == 0 {
        strip_leading_zeros(d.skip(1))
    } else {
        d
    }
}

/// The digit values of hex digit characters.
pub open spec fn digit_values(s: Seq<char>) -> Seq<u8> {
    Seq::new(s.len(), |i: int| hex_digit_value(s[i]) as u8)
}

/// What a 256-bit quantity must decode from: a `0x`-prefixed string of
/// one to 64 hex digits (leading zeros allowed and dropped), a decimal
/// string, or a JSON number.
pub open spec fn spec_decode_u256(v: Option<JVal>, key: Seq<char>) -> Result<Seq<u8>, ErrV> {
    match v {
        Option::Some(JVal::Str(s)) => if hex_prefixed(s) {
            if 1 <= s.skip(2).len() <= 64 && all_hex_digits(s.skip(2)) {
                Ok(strip_leading_zeros(digit_values(s.skip(2))))
            } else {
                Err(ErrV::Hex(s))
            }
        } else {
            if valid_dec_text(s) && dec_value(s) <= u128::MAX {
                Ok(min_nibbles(dec_value(s)))
            } else {
                Err(ErrV::Dec(s))
            }
        },
        Option::Some(JVal::Num(n)) => Ok(min_nibbles(n as nat)),
        _ => Err(ErrV::Field(key)),
    }
}

/// Absent-tolerant form of `spec_decode_u256`: absent or null is no
/// value.
pub open spec fn spec_decode_u256_opt(v: Option<JVal>, key: Seq<char>) -> Result<
    Option<Seq<u8>>,
    ErrV,
> {
    match v {
        Option::None => Ok(Option::None),
        Option::Some(JVal::Null) => Ok(Option::None),
        _ => match spec_decode_u256(v, key) {
            Ok(d) => Ok(Option::Some(d)),
            Err(e) => Err(e),
        },
    }
}

/// Stripping leading zeros of an already canonical digit string changes
/// nothing.
pub proof fn lemma_strip_canonical(d: Seq<u8>)
    requires
        canonical_nibbles(d),
    ensures
        strip_leading_zeros(d) == d,
{
}

/// Stripping keeps digits below 16, never empties the string, never
/// lengthens it, and leaves no leading zero.
pub proof fn lemma_strip_shape(d: Seq<u8>)
    requires
        d.len() >= 1,
        forall|i: int| 0 <= i < d.len() ==> d[i] < 16,
    ensures
        1 <= strip_leading_zeros(d).len() <= d.len(),
        forall|i: int| 0 <= i < strip_leading_zeros(d).len() ==> strip_leading_zeros(d)[i] < 16,
        strip_leading_zeros(d).len() > 1 ==> strip_leading_zeros(d)[0] != 0,
    decreases d.len(),
{
    if d.len() > 1 && d[0] == 0 {
        lemma_strip_shape(d.skip(1));
    }
}

/// Decodes a 256-bit quantity, as `spec_decode_u256` describes; the
/// result is canonical.
#[verifier::loop_isolation(false)]
pub fn decode_u256(v: Option<&crate::json::JsonValue>, key: &str) -> (r: Result<
    U256,
    DecodeError,
>)
    ensures
        match r {
            Ok(q) => q.wf() && spec_decode_u256(v.deep_view(), key@) == Ok::<Seq<u8>, ErrV>(
                q.deep_view(),
            ),
            Err(e) => spec_decode_u256(v.deep_view(), key@) == Err::<Seq<u8>, ErrV>(e.deep_view()),
        },
{
    match v {
        Option::Some(crate::json::JsonValue::Str(s)) => {
            match strip_hex_prefix(s.as_str()) {
                Option::Some(rest) => {
                    let len = rest.unicode_len();
                    if len < 1 || len > 64 {
                        return Err(DecodeError::HexParse { text: s.clone() });
                    }
                    let mut digits: Vec<u8> = Vec::new();
                    let mut i: usize = 0;
                    while i < len
                        invariant
                            0 <= i <= len == rest@.len(),
                            digits@.len() == i,
                            forall|k: int| 0 <= k < i ==> crate::scalar::is_hex_digit(
                                #[trigger] rest@[k],
                            ),
                            forall|k: int|
                                0 <= k < i ==> digits@[k] == hex_digit_value(rest@[k]) as u8,
                        decreases len - i,
                    {
                        match crate::scalar::hex_digit_of(rest.get_char(i)) {
                            Option::Some(d) => {
                                digits.push(d);
                            },
                            Option::None => {
                                proof {
                                    assert(!crate::scalar::all_hex_digits(rest@)) by {
                                        assert(!crate::scalar::is_hex_digit(rest@[i as int]));
                                    }
                                }
                                return Err(DecodeError::HexParse { text: s.clone() });
                            },
                        }
                        i = i + 1;
                    }
                    proof {
                        assert(digits@ =~= digit_values(rest@));
                    }
                    let stripped = strip_zeros_vec(digits);
                    proof {
                        lemma_strip_shape(digit_values(rest@));
                    }
                    Ok(U256 { nibbles: stripped })
                },
                Option::None => {
                    match crate::scalar::parse_scalar_u128(s.as_str()) {
                        Ok(n) => Ok(U256 { nibbles: u128_to_nibbles(n) }),
                        Err(_) => Err(DecodeError::DecParse { text: s.clone() }),
                    }
                },
            }
        },
        Option::Some(crate::json::JsonValue::Num(n)) => Ok(
            U256 { nibbles: u128_to_nibbles(*n as u128) },
        ),
        _ => Err(DecodeError::Field { key: String::from_str(key) }),
    }
}

/// Decodes an optional 256-bit quantity, as `spec_decode_u256_opt`
/// describes.
pub fn decode_u256_opt(v: Option<&crate::json::JsonValue>, key: &str) -> (r: Result<
    Option<U256>,
    DecodeError,
>)
    ensures
        match r {
            Ok(Option::Some(q)) => q.wf() && spec_decode_u256_opt(v.deep_view(), key@) == Ok::<
                Option<Seq<u8>>,
                ErrV,
            >(Option::Some(q.deep_view())),
            Ok(Option::None) => spec_decode_u256_opt(v.deep_view(), key@) == Ok::<
                Option<Seq<u8>>,
                ErrV,
            >(Option::None),
            Err(e) => spec_decode_u256_opt(v.deep_view(), key@) == Err::<Option<Seq<u8>>, ErrV>(
                e.deep_view(),
            ),
        },
{
    match v {
        Option::None => Ok(Option::None),
        Option::Some(crate::json::JsonValue::Null) => Ok(Option::None),
        _ => match decode_u256(v, key) {
            Ok(q) => Ok(Option::Some(q)),
            Err(e) => Err(e),
        },
    }
}

/// Drops leading zero digits of a digit list, down to one digit, as
/// `strip_leading_zeros` describes.
fn strip_zeros_vec(digits: Vec<u8>) -> (r: Vec<u8>)
    requires
        digits@.len() >= 1,
    ensures
        r@ == strip_leading_zeros(digits@),
{
    let len = digits.len();
    proof {
        assert(digits@.skip(0) =~= digits@);
    }
    let mut start: usize = 0;
    while start < len - 1 && digits[start] == 0
        invariant
            digits@.len() == len >= 1,
            0 <= start <= len - 1,
            strip_leading_zeros(digits@) == strip_leading_zeros(digits@.skip(start as int)),
        decreases len - start,
    {
        proof {
            assert(digits@.skip(start as int).len() > 1);
            assert(digits@.skip(start as int)[0] == 0);
            assert(digits@.skip(start as int).skip(1) =~= digits@.skip(start + 1));
        }
        start = start + 1;
    }
    let mut out: Vec<u8> = Vec::new();
    let mut i: usize = start;
    while i < len
        invariant
            0 <= start <= i <= len == digits@.len(),
            out@ =~= digits@.subrange(start as int, i as int),
        decreases len - i,
    {
        out.push(digits[i]);
        i = i + 1;
    }
    proof {
        assert(out@ =~= digits@.skip(start as int));
        if start < len - 1 {
            assert(digits@.skip(start as int)[0] != 0);
        }
        assert(strip_leading_zeros(digits@.skip(start as int)) == digits@.skip(start as int));
    }
    out
}

/// The canonical hex text of a quantity decodes back to the quantity;
/// so do its decimal value (when it fits the decoder's width) and, for
/// machine-word values, the bare JSON number.
pub proof fn lemma_u256_text_round_trip(d: Seq<u8>, key: Seq<char>)
    requires
        canonical_nibbles(d),
    ensures
        spec_decode_u256(Option::Some(JVal::Str(u256_hex_text(d))), key) == Ok::<Seq<u8>, ErrV>(d),
{
    broadcast use lemma_hex_char_of_nibble;

    let s = u256_hex_text(d);
    assert(hex_prefixed(s));
    assert(s.skip(2) =~= nibble_chars(d));
    assert forall|i: int| 0 <= i < nibble_chars(d).len() implies crate::scalar::is_hex_digit(
        #[trigger] nibble_chars(d)[i],
    ) by {
        assert(nibble_chars(d)[i] == hex_char_of_nibble(d[i] as nat));
    }
    assert(digit_values(nibble_chars(d)) =~= d);
    lemma_strip_canonical(d);
}

/// The hex text of any byte string decodes back to the bytes it was made
/// from; for 32-byte words the fixed-width form does too.
pub proof fn lemma_bytes_text_round_trip(b: Seq<u8>, key: Seq<char>)
    ensures
        spec_decode_bytes(Option::Some(JVal::Str(bytes_hex_text(b))), key) == Ok::<Seq<u8>, ErrV>(
            b,
        ),
        b.len() == 32 ==> spec_decode_b256(Option::Some(JVal::Str(bytes_hex_text(b))), key) == Ok::<
            Seq<u8>,
            ErrV,
        >(b),
{
    broadcast use lemma_bytes_hex_round_trip;

    let s = bytes_hex_text(b);
    assert(hex_prefixed(s));
    assert(s.skip(2) =~= crate::render::bytes_hex_digits(b));
}

} // verus!
