//! The transaction record used on this RPC surface, with the open-ended
//! extra-field bag of ecosystem-adjacent networks: any JSON key that
//! matches no named field is captured verbatim rather than rejected, and
//! is merged back flat beside the named fields on the way out.

use vstd::prelude::*;
use crate::json::{
    jval_of, lemma_members_view_index, lemma_members_view_len, lemma_members_view_push,
    members_view, str_eq, JVal, JsonMember,
};
use crate::words::{canonical_nibbles, Address, Bytes, B256, U256};

verus! {

/// The flattened signature fields of a transaction.
#[derive(Clone, Debug, PartialEq, Eq)]
pub struct Signature {
    pub r: U256,
    pub s: U256,
    pub v: U256,
    pub y_parity: Option<bool>,
}

/// The mathematical shape of a `Signature`.
pub struct SignatureV {
    pub r: Seq<u8>,
    pub s: Seq<u8>,
    pub v: Seq<u8>,
    pub y_parity: Option<bool>,
}

impl SignatureV {
    pub open spec fn wf(&self) -> bool {
        canonical_nibbles(self.r) && canonical_nibbles(self.s) && canonical_nibbles(self.v)
    }
}

impl DeepView for Signature {
    type V = SignatureV;

    open spec fn deep_view(&self) -> SignatureV {
        SignatureV {
            r: self.r.deep_view(),
            s: self.s.deep_view(),
            v: self.v.deep_view(),
            y_parity: self.y_parity,
        }
    }
}

/// One warm-storage grant: an address and its storage keys.
#[derive(Clone, Debug, PartialEq, Eq)]
pub struct AccessListItem {
    pub address: Address,
    pub storage_keys: Vec<B256>,
}

/// The mathematical shape of an `AccessListItem`.
pub struct AccessListItemV {
    pub address: Seq<u8>,
    pub storage_keys: Seq<Seq<u8>>,
}

impl AccessListItemV {
    pub open spec fn wf(&self) -> bool {
        self.address.len() == 20 && forall|i: int|
            0 <= i < self.storage_keys.len() ==> (#[trigger] self.storage_keys[i]).len() == 32
    }
}

impl DeepView for AccessListItem {
    type V = AccessListItemV;

    open spec fn deep_view(&self) -> AccessListItemV {
        AccessListItemV {
            address: self.address.deep_view(),
            storage_keys: self.storage_keys.deep_view(),
        }
    }
}

/// A transaction record with the ecosystem-specific extra field bag.
#[derive(Debug, PartialEq, Eq)]
pub struct TransactionSuave {
    pub hash: B256,
    pub nonce: u64,
    pub block_hash: Option<B256>,
    pub block_number: Option<U256>,
    pub transaction_index: Option<U256>,
    pub from: Option<Address>,
    pub to: Option<Address>,
    pub value: U256,
    pub gas_price: Option<u128>,
    pub gas: U256,
    pub max_fee_per_gas: Option<u128>,
    pub max_priority_fee_per_gas: Option<u128>,
    pub max_fee_per_blob_gas: Option<u128>,
    pub input: Bytes,
    pub signature: Option<Signature>,
    pub chain_id: Option<u64>,
    pub blob_versioned_hashes: Vec<B256>,
    pub access_list: Option<Vec<AccessListItem>>,
    pub transaction_type: Option<u64>,
    /// Arbitrary extra fields, preserved verbatim and never dropped.
    pub other: Vec<JsonMember>,
}

impl TransactionSuave {
    /// Well-formed words and addresses, and an extra-field bag that
    /// holds only keys no named field claims — so the bag survives a
    /// round trip verbatim instead of shadowing a named field.
    pub open spec fn wf(&self) -> bool {
        &&& self.hash.wf()
        &&& match self.block_hash {
            Option::Some(ref h) => h.wf(),
            Option::None => true,
        }
        &&& match self.block_number {
            Option::Some(ref q) => q.wf(),
            Option::None => true,
        }
        &&& match self.transaction_index {
            Option::Some(ref q) => q.wf(),
            Option::None => true,
        }
        &&& match self.from {
            Option::Some(ref a) => a.wf(),
            Option::None => true,
        }
        &&& match self.to {
            Option::Some(ref a) => a.wf(),
            Option::None => true,
        }
        &&& self.value.wf()
        &&& self.gas.wf()
        &&& match self.signature {
            Option::Some(ref sig) => sig.deep_view().wf(),
            Option::None => true,
        }
        &&& forall|i: int|
            0 <= i < self.blob_versioned_hashes@.len() ==> (
            #[trigger] self.blob_versioned_hashes@[i]).wf()
        &&& match self.access_list {
            Option::Some(ref items) => forall|i: int|
                0 <= i < items@.len() ==> (#[trigger] items@[i]).deep_view().wf(),
            Option::None => true,
        }
        &&& forall|i: int|
            0 <= i < self.other@.len() ==> !is_named_tx_key((#[trigger] self.other@[i]).key@)
    }
}

/// Whether a wire key belongs to a named field of the transaction
/// record (the flattened signature keys included). Everything else goes
/// to the extra-field bag.
pub open spec fn is_named_tx_key(k: Seq<char>) -> bool {
    ||| k == "hash"@
    ||| k == "nonce"@
    ||| k == "blockHash"@
    ||| k == "blockNumber"@
    ||| k == "transactionIndex"@
    ||| k == "from"@
    ||| k == "to"@
    ||| k == "value"@
    ||| k == "gasPrice"@
    ||| k == "gas"@
    ||| k == "maxFeePerGas"@
    ||| k == "maxPriorityFeePerGas"@
    ||| k == "maxFeePerBlobGas"@
    ||| k == "input"@
    ||| k == "r"@
    ||| k == "s"@
    ||| k == "v"@
    ||| k == "yParity"@
    ||| k == "chainId"@
    ||| k == "blobVersionedHashes"@
    ||| k == "accessList"@
    ||| k == "type"@
}

/// Decides `is_named_tx_key` for a wire key.
pub fn named_tx_key(k: &str) -> (r: bool)
    ensures
        r == is_named_tx_key(k@),
{
    str_eq(k, "hash") || str_eq(k, "nonce") || str_eq(k, "blockHash") || str_eq(k, "blockNumber")
        || str_eq(k, "transactionIndex") || str_eq(k, "from") || str_eq(k, "to") || str_eq(
        k,
        "value",
    ) || str_eq(k, "gasPrice") || str_eq(k, "gas") || str_eq(k, "maxFeePerGas") || str_eq(
        k,
        "maxPriorityFeePerGas",
    ) || str_eq(k, "maxFeePerBlobGas") || str_eq(k, "input") || str_eq(k, "r") || str_eq(k, "s")
        || str_eq(k, "v") || str_eq(k, "yParity") || str_eq(k, "chainId") || str_eq(
        k,
        "blobVersionedHashes",
    ) || str_eq(k, "accessList") || str_eq(k, "type")
}

/// The entries of an object that no named field claims, in order: what
/// the extra-field bag captures.
pub open spec fn spec_extra_members(o: Seq<(Seq<char>, JVal)>) -> Seq<(Seq<char>, JVal)>
    decreases o.len(),
{
    if o.len() == 0 {
        Seq::empty()
    } else if is_named_tx_key(o[0].0) {
        spec_extra_members(o.skip(1))
    } else {
        seq![o[0]] + spec_extra_members(o.skip(1))
    }
}

/// The entries that named fields claim, in order.
pub open spec fn spec_named_members(o: Seq<(Seq<char>, JVal)>) -> Seq<(Seq<char>, JVal)>
    decreases o.len(),
{
    if o.len() == 0 {
        Seq::empty()
    } else if is_named_tx_key(o[0].0) {
        seq![o[0]] + spec_named_members(o.skip(1))
    } else {
        spec_named_members(o.skip(1))
    }
}

/// No entry is ever dropped: the named side and the extra-field bag
/// together account for every entry of the object.
pub proof fn lemma_capture_complete(o: Seq<(Seq<char>, JVal)>)
    ensures
        spec_named_members(o).len() + spec_extra_members(o).len() == o.len(),
    decreases o.len(),
{
    if o.len() > 0 {
        lemma_capture_complete(o.skip(1));
    }
}

/// Splits an object's entries into those a named field claims and the
/// extra-field bag, keeping each side's order. Nothing is dropped: every
/// entry lands on exactly one side.
pub fn capture_extra_fields(members: Vec<JsonMember>) -> (r: (Vec<JsonMember>, Vec<JsonMember>))
    ensures
        members_view(r.0@) == spec_named_members(members_view(members@)),
        members_view(r.1@) == spec_extra_members(members_view(members@)),
{
    let ghost v0 = members_view(members@);
    let mut rest = members;
    let mut named: Vec<JsonMember> = Vec::new();
    let mut extra: Vec<JsonMember> = Vec::new();
    proof {
        broadcast use lemma_members_view_len, lemma_members_view_index, lemma_members_view_push;

        assert(members_view(named@) =~= Seq::empty());
        assert(members_view(extra@) =~= Seq::empty());
    }
    while rest.len() > 0
        invariant
            spec_named_members(v0) =~= members_view(named@) + spec_named_members(
                members_view(rest@),
            ),
            spec_extra_members(v0) =~= members_view(extra@) + spec_extra_members(
                members_view(rest@),
            ),
        decreases rest.len(),
    {
        let ghost before_members = rest@;
        let ghost before = members_view(rest@);
        let m = rest.remove(0);
        let is_named = named_tx_key(m.key.as_str());
        proof {
            broadcast use lemma_members_view_len, lemma_members_view_index,
                lemma_members_view_push;

            assert(rest@ =~= before_members.skip(1));
            assert(members_view(rest@) =~= before.skip(1));
            assert(before[0] == (m.key@, jval_of(m.value)));
        }
        if is_named {
            named.push(m);
            proof {
                broadcast use lemma_members_view_push;

                assert(spec_named_members(v0) =~= members_view(named@) + spec_named_members(
                    members_view(rest@),
                ));
                assert(spec_extra_members(v0) =~= members_view(extra@) + spec_extra_members(
                    members_view(rest@),
                ));
            }
        } else {
            extra.push(m);
            proof {
                broadcast use lemma_members_view_push;

                assert(spec_named_members(v0) =~= members_view(named@) + spec_named_members(
                    members_view(rest@),
                ));
                assert(spec_extra_members(v0) =~= members_view(extra@) + spec_extra_members(
                    members_view(rest@),
                ));
            }
        }
    }
    proof {
        broadcast use lemma_members_view_len;

        assert(members_view(rest@) =~= Seq::empty());
        assert(members_view(named@) + Seq::<(Seq<char>, JVal)>::empty() =~= members_view(named@));
        assert(members_view(extra@) + Seq::<(Seq<char>, JVal)>::empty() =~= members_view(extra@));
    }
    (named, extra)
}

} // verus!
