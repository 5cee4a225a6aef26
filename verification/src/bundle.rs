//! A bundle of raw transactions with inclusion constraints: optional
//! block bounds, the ordered raw transaction list, and the hashes allowed
//! to revert. Every field is optional on the wire; absent fields are
//! omitted when encoding, and an omitted list decodes as empty.

use vstd::prelude::*;
use crate::json::{
    jobj_lookup, jval_of, jvals_of, lemma_jvals_of_push, lemma_lookup_opt_member_other,
    lemma_lookup_opt_member_same, lemma_members_view_push, members_view, obj_get, opt_member,
    JVal, JsonMember, JsonValue,
};
use crate::render::bytes_hex_text;
use crate::types::{DecodeError, ErrV, ParamKind};
use crate::words::{
    canonical_nibbles, decode_u256_opt, lemma_bytes_text_round_trip, lemma_u256_text_round_trip,
    spec_decode_b256, spec_decode_bytes, spec_decode_u256_opt, u256_hex_text, Bytes, B256, U256,
};

verus! {

/// A bundle of raw transactions with inclusion constraints. When the
/// block number is set it must match any externally supplied decryption
/// condition; that is the caller's duty, not this layer's.
#[derive(Clone, Debug, Default, PartialEq, Eq)]
pub struct SBundle {
    pub block_number: Option<U256>,
    pub max_block: Option<U256>,
    pub transactions: Vec<Bytes>,
    pub reverting_hashes: Option<Vec<B256>>,
}

/// The mathematical shape of an `SBundle`.
pub struct SBundleV {
    pub block_number: Option<Seq<u8>>,
    pub max_block: Option<Seq<u8>>,
    pub transactions: Seq<Seq<u8>>,
    pub reverting_hashes: Option<Seq<Seq<u8>>>,
}

impl SBundleV {
    pub open spec fn wf(&self) -> bool {
        &&& match self.block_number {
            Option::Some(d) => canonical_nibbles(d),
            Option::None => true,
        }
        &&& match self.max_block {
            Option::Some(d) => canonical_nibbles(d),
            Option::None => true,
        }
        &&& match self.reverting_hashes {
            Option::Some(hs) => forall|i: int| 0 <= i < hs.len() ==> (#[trigger] hs[i]).len()
                == 32,
            Option::None => true,
        }
    }
}

impl DeepView for SBundle {
    type V = SBundleV;

    open spec fn deep_view(&self) -> SBundleV {
        SBundleV {
            block_number: match self.block_number {
                Option::Some(q) => Option::Some(q.deep_view()),
                Option::None => Option::None,
            },
            max_block: match self.max_block {
                Option::Some(q) => Option::Some(q.deep_view()),
                Option::None => Option::None,
            },
            transactions: self.transactions.deep_view(),
            reverting_hashes: match self.reverting_hashes {
                Option::Some(ref hs) => Option::Some(hs.deep_view()),
                Option::None => Option::None,
            },
        }
    }
}

/// The hex texts of a list of byte strings, in order.
pub open spec fn spec_hex_str_elems(l: Seq<Seq<u8>>) -> Seq<JVal> {
    Seq::new(l.len(), |i: int| JVal::Str(bytes_hex_text(l[i])))
}

/// What decoding the elements of a raw-transaction list must return:
/// each element a `0x`-prefixed even-length hex string, the first
/// offender failing the whole list.
pub open spec fn spec_decode_bytes_elems(a: Seq<JVal>, key: Seq<char>) -> Result<
    Seq<Seq<u8>>,
    ErrV,
>
    decreases a.len(),
{
    if a.len() == 0 {
        Ok(Seq::empty())
    } else {
        match spec_decode_bytes(Option::Some(a[0]), key) {
            Err(e) => Err(e),
            Ok(b) => match spec_decode_bytes_elems(a.skip(1), key) {
                Err(e) => Err(e),
                Ok(rest) => Ok(seq![b] + rest),
            },
        }
    }
}

/// What decoding the elements of a hash list must return: each element a
/// fixed 64-digit hex string.
pub open spec fn spec_decode_b256_elems(a: Seq<JVal>, key: Seq<char>) -> Result<Seq<Seq<u8>>, ErrV>
    decreases a.len(),
{
    if a.len() == 0 {
        Ok(Seq::empty())
    } else {
        match spec_decode_b256(Option::Some(a[0]), key) {
            Err(e) => Err(e),
            Ok(b) => match spec_decode_b256_elems(a.skip(1), key) {
                Err(e) => Err(e),
                Ok(rest) => Ok(seq![b] + rest),
            },
        }
    }
}

/// A decoded prefix distributes over the element decoders.
proof fn lemma_decode_bytes_elems_skip(a: Seq<JVal>, key: Seq<char>, k: int, out: Seq<Seq<u8>>)
    requires
        0 <= k <= a.len(),
        out.len() == k,
        forall|i: int|
            0 <= i < k ==> spec_decode_bytes(Option::Some(a[i]), key) == Ok::<Seq<u8>, ErrV>(
                out[i],
            ),
    ensures
        spec_decode_bytes_elems(a, key) == match spec_decode_bytes_elems(a.skip(k), key) {
            Ok(rest) => Ok::<Seq<Seq<u8>>, ErrV>(out + rest),
            Err(e) => Err(e),
        },
    decreases k,
{
    if k == 0 {
        assert(a.skip(0) =~= a);
        match spec_decode_bytes_elems(a, key) {
            Ok(rest) => {
                assert(out + rest =~= rest);
            },
            Err(_) => {},
        }
    } else {
        lemma_decode_bytes_elems_skip(a.skip(1), key, k - 1, out.skip(1));
        assert(a.skip(1).skip(k - 1) =~= a.skip(k));
        assert(forall|i: int|
            0 <= i < k - 1 ==> a.skip(1)[i] == a[i + 1] && out.skip(1)[i] == out[i + 1]);
        match spec_decode_bytes_elems(a.skip(k), key) {
            Ok(rest) => {
                assert(seq![out[0]] + (out.skip(1) + rest) =~= out + rest);
            },
            Err(_) => {},
        }
    }
}

proof fn lemma_decode_b256_elems_skip(a: Seq<JVal>, key: Seq<char>, k: int, out: Seq<Seq<u8>>)
    requires
        0 <= k <= a.len(),
        out.len() == k,
        forall|i: int|
            0 <= i < k ==> spec_decode_b256(Option::Some(a[i]), key) == Ok::<Seq<u8>, ErrV>(
                out[i],
            ),
    ensures
        spec_decode_b256_elems(a, key) == match spec_decode_b256_elems(a.skip(k), key) {
            Ok(rest) => Ok::<Seq<Seq<u8>>, ErrV>(out + rest),
            Err(e) => Err(e),
        },
    decreases k,
{
    if k == 0 {
        assert(a.skip(0) =~= a);
        match spec_decode_b256_elems(a, key) {
            Ok(rest) => {
                assert(out + rest =~= rest);
            },
            Err(_) => {},
        }
    } else {
        lemma_decode_b256_elems_skip(a.skip(1), key, k - 1, out.skip(1));
        assert(a.skip(1).skip(k - 1) =~= a.skip(k));
        assert(forall|i: int|
            0 <= i < k - 1 ==> a.skip(1)[i] == a[i + 1] && out.skip(1)[i] == out[i + 1]);
        match spec_decode_b256_elems(a.skip(k), key) {
            Ok(rest) => {
                assert(seq![out[0]] + (out.skip(1) + rest) =~= out + rest);
            },
            Err(_) => {},
        }
    }
}

/// Encodes a list of raw byte strings as hex text elements.
fn encode_bytes_list(l: &Vec<Bytes>) -> (r: Vec<JsonValue>)
    ensures
        jvals_of(r@) == spec_hex_str_elems(l.deep_view()),
{
    proof {
        broadcast use lemma_jvals_of_push;

    }
    let mut out: Vec<JsonValue> = Vec::new();
    let n = l.len();
    let mut i: usize = 0;
    proof {
        assert(jvals_of(out@) =~= Seq::empty());
    }
    while i < n
        invariant
            0 <= i <= n == l@.len(),
            jvals_of(out@) =~= spec_hex_str_elems(l.deep_view()).take(i as int),
        decreases n - i,
    {
        out.push(JsonValue::Str(crate::render::bytes_to_hex(&l[i].data)));
        proof {
            broadcast use lemma_jvals_of_push;

            assert(spec_hex_str_elems(l.deep_view()).take(i + 1) =~= spec_hex_str_elems(
                l.deep_view(),
            ).take(i as int).push(JVal::Str(bytes_hex_text(l@[i as int].data@))));
        }
        i = i + 1;
    }
    proof {
        assert(spec_hex_str_elems(l.deep_view()).take(n as int) =~= spec_hex_str_elems(
            l.deep_view(),
        ));
    }
    out
}

/// Encodes a list of 32-byte words as hex text elements.
fn encode_b256_list(l: &Vec<B256>) -> (r: Vec<JsonValue>)
    ensures
        jvals_of(r@) == spec_hex_str_elems(l.deep_view()),
{
    proof {
        broadcast use lemma_jvals_of_push;

    }
    let mut out: Vec<JsonValue> = Vec::new();
    let n = l.len();
    let mut i: usize = 0;
    proof {
        assert(jvals_of(out@) =~= Seq::empty());
    }
    while i < n
        invariant
            0 <= i <= n == l@.len(),
            jvals_of(out@) =~= spec_hex_str_elems(l.deep_view()).take(i as int),
        decreases n - i,
    {
        out.push(JsonValue::Str(crate::render::bytes_to_hex(&l[i].bytes)));
        proof {
            broadcast use lemma_jvals_of_push;

            assert(spec_hex_str_elems(l.deep_view()).take(i + 1) =~= spec_hex_str_elems(
                l.deep_view(),
            ).take(i as int).push(JVal::Str(bytes_hex_text(l@[i as int].bytes@))));
        }
        i = i + 1;
    }
    proof {
        assert(spec_hex_str_elems(l.deep_view()).take(n as int) =~= spec_hex_str_elems(
            l.deep_view(),
        ));
    }
    out
}

/// Decodes a raw-transaction list, as `spec_decode_bytes_elems`
/// describes.
#[verifier::loop_isolation(false)]
fn decode_bytes_list(a: &Vec<JsonValue>, key: &str) -> (r: Result<Vec<Bytes>, DecodeError>)
    ensures
        match r {
            Ok(l) => spec_decode_bytes_elems(jvals_of(a@), key@) == Ok::<Seq<Seq<u8>>, ErrV>(
                l.deep_view(),
            ),
            Err(e) => spec_decode_bytes_elems(jvals_of(a@), key@) == Err::<Seq<Seq<u8>>, ErrV>(
                e.deep_view(),
            ),
        },
{
    proof {
        broadcast use crate::json::lemma_jvals_of_len, crate::json::lemma_jvals_of_index;

    }
    let mut out: Vec<Bytes> = Vec::new();
    let n = a.len();
    let mut i: usize = 0;
    while i < n
        invariant
            0 <= i <= n,
            out@.len() == i,
            forall|j: int|
                0 <= j < i ==> spec_decode_bytes(Option::Some(jvals_of(a@)[j]), key@) == Ok::<
                    Seq<u8>,
                    ErrV,
                >(out.deep_view()[j]),
        decreases n - i,
    {
        match crate::words::decode_bytes(Option::Some(&a[i]), key) {
            Ok(b) => {
                let ghost old_dv = out.deep_view();
                let ghost b_dv = b.deep_view();
                out.push(b);
                proof {
                    assert(out.deep_view() =~= old_dv.push(b_dv));
                }
            },
            Err(e) => {
                proof {
                    lemma_decode_bytes_elems_skip(jvals_of(a@), key@, i as int, out.deep_view());
                    assert(jvals_of(a@).skip(i as int)[0] == jvals_of(a@)[i as int]);
                }
                return Err(e);
            },
        }
        i = i + 1;
    }
    proof {
        lemma_decode_bytes_elems_skip(jvals_of(a@), key@, n as int, out.deep_view());
        assert(jvals_of(a@).skip(n as int) =~= Seq::empty());
        assert(out.deep_view() + Seq::<Seq<u8>>::empty() =~= out.deep_view());
    }
    Ok(out)
}

/// Decodes a hash list, as `spec_decode_b256_elems` describes.
#[verifier::loop_isolation(false)]
fn decode_b256_list(a: &Vec<JsonValue>, key: &str) -> (r: Result<Vec<B256>, DecodeError>)
    ensures
        match r {
            Ok(l) => spec_decode_b256_elems(jvals_of(a@), key@) == Ok::<Seq<Seq<u8>>, ErrV>(
                l.deep_view(),
            ) && (forall|i: int| 0 <= i < l@.len() ==> (#[trigger] l@[i]).wf()),
            Err(e) => spec_decode_b256_elems(jvals_of(a@), key@) == Err::<Seq<Seq<u8>>, ErrV>(
                e.deep_view(),
            ),
        },
{
    proof {
        broadcast use crate::json::lemma_jvals_of_len, crate::json::lemma_jvals_of_index;

    }
    let mut out: Vec<B256> = Vec::new();
    let n = a.len();
    let mut i: usize = 0;
    while i < n
        invariant
            0 <= i <= n,
            out@.len() == i,
            forall|j: int| 0 <= j < i ==> (#[trigger] out@[j]).wf(),
            forall|j: int|
                0 <= j < i ==> spec_decode_b256(Option::Some(jvals_of(a@)[j]), key@) == Ok::<
                    Seq<u8>,
                    ErrV,
                >(out.deep_view()[j]),
        decreases n - i,
    {
        match crate::words::decode_b256(Option::Some(&a[i]), key) {
            Ok(b) => {
                let ghost old_dv = out.deep_view();
                let ghost b_dv = b.deep_view();
                out.push(b);
                proof {
                    assert(out.deep_view() =~= old_dv.push(b_dv));
                }
            },
            Err(e) => {
                proof {
                    lemma_decode_b256_elems_skip(jvals_of(a@), key@, i as int, out.deep_view());
                    assert(jvals_of(a@).skip(i as int)[0] == jvals_of(a@)[i as int]);
                }
                return Err(e);
            },
        }
        i = i + 1;
    }
    proof {
        lemma_decode_b256_elems_skip(jvals_of(a@), key@, n as int, out.deep_view());
        assert(jvals_of(a@).skip(n as int) =~= Seq::empty());
        assert(out.deep_view() + Seq::<Seq<u8>>::empty() =~= out.deep_view());
    }
    Ok(out)
}

/// The entries a bundle encodes to: block bounds as hex text when set,
/// the transaction list unless empty, the reverting hashes when set.
pub open spec fn spec_bundle_members(b: SBundleV) -> Seq<(Seq<char>, JVal)> {
    opt_member(
        "blockNumber"@,
        match b.block_number {
            Option::Some(d) => Option::Some(JVal::Str(u256_hex_text(d))),
            Option::None => Option::None,
        },
    ) + opt_member(
        "maxBlock"@,
        match b.max_block {
            Option::Some(d) => Option::Some(JVal::Str(u256_hex_text(d))),
            Option::None => Option::None,
        },
    ) + opt_member(
        "txs"@,
        if b.transactions.len() == 0 {
            Option::None
        } else {
            Option::Some(JVal::Arr(spec_hex_str_elems(b.transactions)))
        },
    ) + opt_member(
        "revertingHashes"@,
        match b.reverting_hashes {
            Option::Some(hs) => Option::Some(JVal::Arr(spec_hex_str_elems(hs))),
            Option::None => Option::None,
        },
    )
}

/// What encoding a bundle must emit.
pub open spec fn spec_encode_bundle(b: SBundleV) -> JVal {
    JVal::Obj(spec_bundle_members(b))
}

/// What decoding a bundle must return: every field optional, an absent
/// or null transaction list empty, and each list element hex text.
pub open spec fn spec_decode_bundle(v: JVal) -> Result<SBundleV, ErrV> {
    match v {
        JVal::Obj(o) => match spec_decode_u256_opt(jobj_lookup(o, "blockNumber"@), "blockNumber"@) {
            Err(e) => Err(e),
            Ok(block) => match spec_decode_u256_opt(jobj_lookup(o, "maxBlock"@), "maxBlock"@) {
                Err(e) => Err(e),
                Ok(max) => match jobj_lookup(o, "txs"@) {
                    Option::None => finish_bundle(o, block, max, Seq::empty()),
                    Option::Some(JVal::Null) => finish_bundle(o, block, max, Seq::empty()),
                    Option::Some(JVal::Arr(a)) => match spec_decode_bytes_elems(a, "txs"@) {
                        Err(e) => Err(e),
                        Ok(txs) => finish_bundle(o, block, max, txs),
                    },
                    Option::Some(_) => Err(ErrV::Field("txs"@)),
                },
            },
        },
        _ => Err(ErrV::Shape(ParamKind::Bundle)),
    }
}

/// The tail of `spec_decode_bundle`: the reverting-hash list.
pub open spec fn finish_bundle(
    o: Seq<(Seq<char>, JVal)>,
    block: Option<Seq<u8>>,
    max: Option<Seq<u8>>,
    txs: Seq<Seq<u8>>,
) -> Result<SBundleV, ErrV> {
    match jobj_lookup(o, "revertingHashes"@) {
        Option::None => Ok(
            SBundleV {
                block_number: block,
                max_block: max,
                transactions: txs,
                reverting_hashes: Option::None,
            },
        ),
        Option::Some(JVal::Null) => Ok(
            SBundleV {
                block_number: block,
                max_block: max,
                transactions: txs,
                reverting_hashes: Option::None,
            },
        ),
        Option::Some(JVal::Arr(a)) => match spec_decode_b256_elems(a, "revertingHashes"@) {
            Err(e) => Err(e),
            Ok(hs) => Ok(
                SBundleV {
                    block_number: block,
                    max_block: max,
                    transactions: txs,
                    reverting_hashes: Option::Some(hs),
                },
            ),
        },
        Option::Some(_) => Err(ErrV::Field("revertingHashes"@)),
    }
}

impl SBundle {
    /// Encodes this bundle, as `spec_encode_bundle` describes.
    pub fn encode_value(&self) -> (r: JsonValue)
        requires
            match self.block_number {
                Option::Some(q) => q.wf(),
                Option::None => true,
            },
            match self.max_block {
                Option::Some(q) => q.wf(),
                Option::None => true,
            },
        ensures
            jval_of(r) == spec_encode_bundle(self.deep_view()),
    {
        proof {
            broadcast use lemma_members_view_push;

        }
        let mut members: Vec<JsonMember> = Vec::new();
        proof {
            assert(members_view(members@) =~= Seq::empty());
        }
        if let Option::Some(q) = &self.block_number {
            members.push(
                JsonMember { key: String::from_str("blockNumber"), value: JsonValue::Str(q.to_hex()) },
            );
        }
        let ghost seg1 = opt_member(
            "blockNumber"@,
            match self.deep_view().block_number {
                Option::Some(d) => Option::Some(JVal::Str(u256_hex_text(d))),
                Option::None => Option::None,
            },
        );
        proof {
            assert(members_view(members@) =~= seg1);
        }
        if let Option::Some(q) = &self.max_block {
            members.push(
                JsonMember { key: String::from_str("maxBlock"), value: JsonValue::Str(q.to_hex()) },
            );
        }
        let ghost seg2 = seg1 + opt_member(
            "maxBlock"@,
            match self.deep_view().max_block {
                Option::Some(d) => Option::Some(JVal::Str(u256_hex_text(d))),
                Option::None => Option::None,
            },
        );
        proof {
            assert(members_view(members@) =~= seg2);
        }
        if self.transactions.len() > 0 {
            let elems = encode_bytes_list(&self.transactions);
            members.push(
                JsonMember { key: String::from_str("txs"), value: JsonValue::Arr(elems) },
            );
        }
        let ghost seg3 = seg2 + opt_member(
            "txs"@,
            if self.deep_view().transactions.len() == 0 {
                Option::None
            } else {
                Option::Some(JVal::Arr(spec_hex_str_elems(self.deep_view().transactions)))
            },
        );
        proof {
            assert(members_view(members@) =~= seg3);
        }
        if let Option::Some(hs) = &self.reverting_hashes {
            let elems = encode_b256_list(hs);
            members.push(
                JsonMember {
                    key: String::from_str("revertingHashes"),
                    value: JsonValue::Arr(elems),
                },
            );
        }
        proof {
            assert(members_view(members@) =~= spec_bundle_members(self.deep_view()));
        }
        JsonValue::Obj(members)
    }

    /// Decodes a bundle, as `spec_decode_bundle` describes.
    pub fn decode_value(v: &JsonValue) -> (r: Result<SBundle, DecodeError>)
        ensures
            match r {
                Ok(b) => spec_decode_bundle(jval_of(*v)) == Ok::<SBundleV, ErrV>(b.deep_view()),
                Err(e) => spec_decode_bundle(jval_of(*v)) == Err::<SBundleV, ErrV>(e.deep_view()),
            },
    {
        match v {
            JsonValue::Obj(members) => {
                let block = match decode_u256_opt(obj_get(members, "blockNumber"), "blockNumber") {
                    Ok(q) => q,
                    Err(e) => {
                        return Err(e);
                    },
                };
                let max = match decode_u256_opt(obj_get(members, "maxBlock"), "maxBlock") {
                    Ok(q) => q,
                    Err(e) => {
                        return Err(e);
                    },
                };
                let txs = match obj_get(members, "txs") {
                    Option::None => {
                        let empty: Vec<Bytes> = Vec::new();
                        proof {
                            assert(empty.deep_view() =~= Seq::<Seq<u8>>::empty());
                        }
                        empty
                    },
                    Option::Some(JsonValue::Null) => {
                        let empty: Vec<Bytes> = Vec::new();
                        proof {
                            assert(empty.deep_view() =~= Seq::<Seq<u8>>::empty());
                        }
                        empty
                    },
                    Option::Some(JsonValue::Arr(a)) => match decode_bytes_list(a, "txs") {
                        Ok(l) => l,
                        Err(e) => {
                            return Err(e);
                        },
                    },
                    Option::Some(_) => {
                        return Err(DecodeError::Field { key: String::from_str("txs") });
                    },
                };
                let hashes = match obj_get(members, "revertingHashes") {
                    Option::None => Option::None,
                    Option::Some(JsonValue::Null) => Option::None,
                    Option::Some(JsonValue::Arr(a)) => match decode_b256_list(
                        a,
                        "revertingHashes",
                    ) {
                        Ok(l) => Option::Some(l),
                        Err(e) => {
                            return Err(e);
                        },
                    },
                    Option::Some(_) => {
                        return Err(
                            DecodeError::Field { key: String::from_str("revertingHashes") },
                        );
                    },
                };
                Ok(
                    SBundle {
                        block_number: block,
                        max_block: max,
                        transactions: txs,
                        reverting_hashes: hashes,
                    },
                )
            },
            _ => Err(DecodeError::Shape { kind: ParamKind::Bundle }),
        }
    }
}

/// Each hex text element of an encoded list decodes back to its bytes.
proof fn lemma_hex_elems_round_trip_bytes(l: Seq<Seq<u8>>, key: Seq<char>)
    ensures
        spec_decode_bytes_elems(spec_hex_str_elems(l), key) == Ok::<Seq<Seq<u8>>, ErrV>(l),
    decreases l.len(),
{
    let a = spec_hex_str_elems(l);
    if l.len() == 0 {
        assert(l =~= Seq::<Seq<u8>>::empty());
        assert(a =~= Seq::<JVal>::empty());
    } else {
        lemma_bytes_text_round_trip(l[0], key);
        lemma_hex_elems_round_trip_bytes(l.skip(1), key);
        assert(a.skip(1) =~= spec_hex_str_elems(l.skip(1)));
        match spec_decode_bytes_elems(a.skip(1), key) {
            Ok(rest) => {
                assert(seq![l[0]] + rest =~= l);
            },
            Err(_) => {},
        }
    }
}

proof fn lemma_hex_elems_round_trip_b256(l: Seq<Seq<u8>>, key: Seq<char>)
    requires
        forall|i: int| 0 <= i < l.len() ==> (#[trigger] l[i]).len() == 32,
    ensures
        spec_decode_b256_elems(spec_hex_str_elems(l), key) == Ok::<Seq<Seq<u8>>, ErrV>(l),
    decreases l.len(),
{
    let a = spec_hex_str_elems(l);
    if l.len() == 0 {
        assert(l =~= Seq::<Seq<u8>>::empty());
        assert(a =~= Seq::<JVal>::empty());
    } else {
        lemma_bytes_text_round_trip(l[0], key);
        lemma_hex_elems_round_trip_b256(l.skip(1), key);
        assert(a.skip(1) =~= spec_hex_str_elems(l.skip(1)));
        match spec_decode_b256_elems(a.skip(1), key) {
            Ok(rest) => {
                assert(seq![l[0]] + rest =~= l);
            },
            Err(_) => {},
        }
    }
}

/// Decoding an encoded bundle gives the bundle back, for every
/// well-formed bundle.
pub proof fn lemma_bundle_round_trip(b: SBundleV)
    requires
        b.wf(),
    ensures
        spec_decode_bundle(spec_encode_bundle(b)) == Ok::<SBundleV, ErrV>(b),
{
    reveal_strlit("blockNumber");
    reveal_strlit("maxBlock");
    reveal_strlit("txs");
    reveal_strlit("revertingHashes");
    let k1 = "blockNumber"@;
    let k2 = "maxBlock"@;
    let k3 = "txs"@;
    let k4 = "revertingHashes"@;
    assert(k1.len() == 11);
    assert(k2.len() == 8);
    assert(k3.len() == 3);
    assert(k4.len() == 15);
    let v1 = match b.block_number {
        Option::Some(d) => Option::Some(JVal::Str(u256_hex_text(d))),
        Option::None => Option::<JVal>::None,
    };
    let v2 = match b.max_block {
        Option::Some(d) => Option::Some(JVal::Str(u256_hex_text(d))),
        Option::None => Option::<JVal>::None,
    };
    let v3 = if b.transactions.len() == 0 {
        Option::<JVal>::None
    } else {
        Option::Some(JVal::Arr(spec_hex_str_elems(b.transactions)))
    };
    let v4 = match b.reverting_hashes {
        Option::Some(hs) => Option::Some(JVal::Arr(spec_hex_str_elems(hs))),
        Option::None => Option::<JVal>::None,
    };
    let s1 = opt_member(k1, v1);
    let s2 = opt_member(k2, v2);
    let s3 = opt_member(k3, v3);
    let s4 = opt_member(k4, v4);
    let o = spec_bundle_members(b);
    assert(o == ((s1 + s2) + s3) + s4);
    crate::node::lemma_lookup_concat4(s1, s2, s3, s4, k1);
    crate::node::lemma_lookup_concat4(s1, s2, s3, s4, k2);
    crate::node::lemma_lookup_concat4(s1, s2, s3, s4, k3);
    crate::node::lemma_lookup_concat4(s1, s2, s3, s4, k4);
    lemma_lookup_opt_member_same(k1, v1);
    lemma_lookup_opt_member_other(k1, v1, k2);
    lemma_lookup_opt_member_other(k1, v1, k3);
    lemma_lookup_opt_member_other(k1, v1, k4);
    lemma_lookup_opt_member_same(k2, v2);
    lemma_lookup_opt_member_other(k2, v2, k1);
    lemma_lookup_opt_member_other(k2, v2, k3);
    lemma_lookup_opt_member_other(k2, v2, k4);
    lemma_lookup_opt_member_same(k3, v3);
    lemma_lookup_opt_member_other(k3, v3, k1);
    lemma_lookup_opt_member_other(k3, v3, k2);
    lemma_lookup_opt_member_other(k3, v3, k4);
    lemma_lookup_opt_member_same(k4, v4);
    lemma_lookup_opt_member_other(k4, v4, k1);
    lemma_lookup_opt_member_other(k4, v4, k2);
    lemma_lookup_opt_member_other(k4, v4, k3);
    assert(jobj_lookup(o, k1) == v1);
    assert(jobj_lookup(o, k2) == v2);
    assert(jobj_lookup(o, k3) == v3);
    assert(jobj_lookup(o, k4) == v4);
    match b.block_number {
        Option::Some(d) => {
            lemma_u256_text_round_trip(d, k1);
        },
        Option::None => {},
    }
    match b.max_block {
        Option::Some(d) => {
            lemma_u256_text_round_trip(d, k2);
        },
        Option::None => {},
    }
    if b.transactions.len() > 0 {
        lemma_hex_elems_round_trip_bytes(b.transactions, k3);
    } else {
        assert(b.transactions =~= Seq::<Seq<u8>>::empty());
    }
    match b.reverting_hashes {
        Option::Some(hs) => {
            lemma_hex_elems_round_trip_b256(hs, k4);
        },
        Option::None => {},
    }
}

} // verus!
