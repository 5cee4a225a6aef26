//! Node identity and fork provenance: the metadata snapshot a client can
//! ask the node for, with the snapshot mapping ordered by key so output
//! is deterministic.

use vstd::prelude::*;
use crate::json::{
    jobj_lookup, jval_of, jvals_of, lemma_jobj_lookup_concat, lemma_lookup_opt_member_other,
    lemma_lookup_opt_member_same, lemma_members_view_push, members_view, obj_get, opt_member,
    JVal, JsonMember, JsonValue,
};
use crate::types::{
    spec_string_required, spec_u64_required, string_required_field, u64_required_field,
    DecodeError, ErrV, ParamKind,
};
use crate::words::{
    canonical_nibbles, decode_u256, lemma_bytes_text_round_trip, lemma_u256_text_round_trip,
    spec_decode_b256, spec_decode_u256, u256_hex_text, B256, U256,
};

verus! {

/// Where the node forked from: chain, block and block hash.
#[derive(Clone, Debug, PartialEq, Eq)]
pub struct ForkedNetwork {
    pub chain_id: u64,
    pub fork_block_number: u64,
    pub fork_block_hash: B256,
}

/// The mathematical shape of a `ForkedNetwork`.
pub struct ForkedNetworkV {
    pub chain_id: u64,
    pub fork_block_number: u64,
    pub fork_block_hash: Seq<u8>,
}

impl ForkedNetworkV {
    pub open spec fn wf(&self) -> bool {
        self.fork_block_hash.len() == 32
    }
}

impl DeepView for ForkedNetwork {
    type V = ForkedNetworkV;

    open spec fn deep_view(&self) -> ForkedNetworkV {
        ForkedNetworkV {
            chain_id: self.chain_id,
            fork_block_number: self.fork_block_number,
            fork_block_hash: self.fork_block_hash.deep_view(),
        }
    }
}

/// The entries a forked-network descriptor encodes to.
pub open spec fn spec_forked_network_members(f: ForkedNetworkV) -> Seq<(Seq<char>, JVal)> {
    opt_member("chainId"@, Option::Some(JVal::Num(f.chain_id))) + opt_member(
        "forkBlockNumber"@,
        Option::Some(JVal::Num(f.fork_block_number)),
    ) + opt_member(
        "forkBlockHash"@,
        Option::Some(JVal::Str(crate::render::bytes_hex_text(f.fork_block_hash))),
    )
}

/// What encoding a forked-network descriptor must emit.
pub open spec fn spec_encode_forked_network(f: ForkedNetworkV) -> JVal {
    JVal::Obj(spec_forked_network_members(f))
}

/// What decoding a forked-network descriptor must return; every field is
/// required.
pub open spec fn spec_decode_forked_network(v: JVal) -> Result<ForkedNetworkV, ErrV> {
    match v {
        JVal::Obj(o) => match spec_u64_required(jobj_lookup(o, "chainId"@), "chainId"@) {
            Err(e) => Err(e),
            Ok(chain) => match spec_u64_required(
                jobj_lookup(o, "forkBlockNumber"@),
                "forkBlockNumber"@,
            ) {
                Err(e) => Err(e),
                Ok(block) => match spec_decode_b256(
                    jobj_lookup(o, "forkBlockHash"@),
                    "forkBlockHash"@,
                ) {
                    Err(e) => Err(e),
                    Ok(hash) => Ok(
                        ForkedNetworkV {
                            chain_id: chain,
                            fork_block_number: block,
                            fork_block_hash: hash,
                        },
                    ),
                },
            },
        },
        _ => Err(ErrV::Shape(ParamKind::ForkedNetwork)),
    }
}

impl ForkedNetwork {
    /// Encodes this descriptor, as `spec_encode_forked_network` describes.
    pub fn encode_value(&self) -> (r: JsonValue)
        ensures
            jval_of(r) == spec_encode_forked_network(self.deep_view()),
    {
        proof {
            broadcast use lemma_members_view_push;

        }
        let mut members: Vec<JsonMember> = Vec::new();
        proof {
            assert(members_view(members@) =~= Seq::empty());
        }
        members.push(
            JsonMember { key: String::from_str("chainId"), value: JsonValue::Num(self.chain_id) },
        );
        members.push(
            JsonMember {
                key: String::from_str("forkBlockNumber"),
                value: JsonValue::Num(self.fork_block_number),
            },
        );
        members.push(
            JsonMember {
                key: String::from_str("forkBlockHash"),
                value: JsonValue::Str(crate::render::bytes_to_hex(&self.fork_block_hash.bytes)),
            },
        );
        proof {
            assert(members_view(members@) =~= spec_forked_network_members(self.deep_view()));
        }
        JsonValue::Obj(members)
    }

    /// Decodes a forked-network descriptor, as
    /// `spec_decode_forked_network` describes.
    pub fn decode_value(v: &JsonValue) -> (r: Result<ForkedNetwork, DecodeError>)
        ensures
            match r {
                Ok(f) => f.deep_view().wf() && spec_decode_forked_network(jval_of(*v)) == Ok::<
                    ForkedNetworkV,
                    ErrV,
                >(f.deep_view()),
                Err(e) => spec_decode_forked_network(jval_of(*v)) == Err::<ForkedNetworkV, ErrV>(
                    e.deep_view(),
                ),
            },
    {
        match v {
            JsonValue::Obj(members) => {
                let chain = match u64_required_field(obj_get(members, "chainId"), "chainId") {
                    Ok(n) => n,
                    Err(e) => {
                        return Err(e);
                    },
                };
                let block = match u64_required_field(
                    obj_get(members, "forkBlockNumber"),
                    "forkBlockNumber",
                ) {
                    Ok(n) => n,
                    Err(e) => {
                        return Err(e);
                    },
                };
                let hash = match crate::words::decode_b256(
                    obj_get(members, "forkBlockHash"),
                    "forkBlockHash",
                ) {
                    Ok(h) => h,
                    Err(e) => {
                        return Err(e);
                    },
                };
                Ok(
                    ForkedNetwork {
                        chain_id: chain,
                        fork_block_number: block,
                        fork_block_hash: hash,
                    },
                )
            },
            _ => Err(DecodeError::Shape { kind: ParamKind::ForkedNetwork }),
        }
    }
}

/// Decoding an encoded forked-network descriptor gives the descriptor
/// back.
pub proof fn lemma_forked_network_round_trip(f: ForkedNetworkV)
    requires
        f.wf(),
    ensures
        spec_decode_forked_network(spec_encode_forked_network(f)) == Ok::<ForkedNetworkV, ErrV>(f),
{
    reveal_strlit("chainId");
    reveal_strlit("forkBlockNumber");
    reveal_strlit("forkBlockHash");
    let k1 = "chainId"@;
    let k2 = "forkBlockNumber"@;
    let k3 = "forkBlockHash"@;
    assert(k1.len() == 7);
    assert(k2.len() == 15);
    assert(k3.len() == 13);
    let v1 = Option::Some(JVal::Num(f.chain_id));
    let v2 = Option::Some(JVal::Num(f.fork_block_number));
    let v3 = Option::Some(JVal::Str(crate::render::bytes_hex_text(f.fork_block_hash)));
    let a = opt_member(k1, v1);
    let b = opt_member(k2, v2);
    let d = opt_member(k3, v3);
    let o = spec_forked_network_members(f);
    assert(o == (a + b) + d);
    lemma_jobj_lookup_concat(a + b, d, k1);
    lemma_jobj_lookup_concat(a, b, k1);
    lemma_jobj_lookup_concat(a + b, d, k2);
    lemma_jobj_lookup_concat(a, b, k2);
    lemma_jobj_lookup_concat(a + b, d, k3);
    lemma_jobj_lookup_concat(a, b, k3);
    lemma_lookup_opt_member_same(k1, v1);
    lemma_lookup_opt_member_other(k1, v1, k2);
    lemma_lookup_opt_member_other(k1, v1, k3);
    lemma_lookup_opt_member_same(k2, v2);
    lemma_lookup_opt_member_other(k2, v2, k1);
    lemma_lookup_opt_member_other(k2, v2, k3);
    lemma_lookup_opt_member_same(k3, v3);
    lemma_lookup_opt_member_other(k3, v3, k1);
    lemma_lookup_opt_member_other(k3, v3, k2);
    assert(jobj_lookup(o, k1) == v1);
    assert(jobj_lookup(o, k2) == v2);
    assert(jobj_lookup(o, k3) == v3);
    lemma_bytes_text_round_trip(f.fork_block_hash, k3);
}

/// One snapshot the node has taken: its id and the chain head it was
/// taken at.
#[derive(Clone, Debug, PartialEq, Eq)]
pub struct Snapshot {
    pub id: U256,
    pub block_number: u64,
    pub block_hash: B256,
}

/// The mathematical shape of a `Snapshot`.
pub struct SnapshotV {
    pub id: Seq<u8>,
    pub block_number: u64,
    pub block_hash: Seq<u8>,
}

impl SnapshotV {
    pub open spec fn wf(&self) -> bool {
        canonical_nibbles(self.id) && self.block_hash.len() == 32
    }
}

impl DeepView for Snapshot {
    type V = SnapshotV;

    open spec fn deep_view(&self) -> SnapshotV {
        SnapshotV {
            id: self.id.deep_view(),
            block_number: self.block_number,
            block_hash: self.block_hash.deep_view(),
        }
    }
}

/// Shortlex order on canonical digit strings: fewer digits first, then
/// digit by digit. On canonical minimal hex digits this is exactly the
/// numeric order of the quantities.
pub open spec fn lex_lt(a: Seq<u8>, b: Seq<u8>) -> bool
    decreases a.len(),
{
    if a.len() == 0 || b.len() == 0 {
        false
    } else if a[0] < b[0] {
        true
    } else if a[0] > b[0] {
        false
    } else {
        lex_lt(a.skip(1), b.skip(1))
    }
}

pub open spec fn key_lt(a: Seq<u8>, b: Seq<u8>) -> bool {
    a.len() < b.len() || (a.len() == b.len() && lex_lt(a, b))
}

/// Equal prefixes do not decide a lexicographic comparison.
proof fn lemma_lex_lt_skip(a: Seq<u8>, b: Seq<u8>, k: int)
    requires
        0 <= k <= a.len(),
        k <= b.len(),
        forall|i: int| 0 <= i < k ==> a[i] == b[i],
    ensures
        lex_lt(a, b) == lex_lt(a.skip(k), b.skip(k)),
    decreases k,
{
    if k > 0 {
        assert(a.len() > 0 && b.len() > 0);
        assert(a[0] == b[0]);
        lemma_lex_lt_skip(a.skip(1), b.skip(1), k - 1);
        assert(a.skip(1).skip(k - 1) =~= a.skip(k));
        assert(b.skip(1).skip(k - 1) =~= b.skip(k));
    } else {
        assert(a.skip(0) =~= a);
        assert(b.skip(0) =~= b);
    }
}

/// Compares two snapshot ids in shortlex order.
#[verifier::loop_isolation(false)]
pub fn key_lt_exec(a: &U256, b: &U256) -> (r: bool)
    ensures
        r == key_lt(a.deep_view(), b.deep_view()),
{
    let an = a.nibbles.len();
    let bn = b.nibbles.len();
    if an != bn {
        return an < bn;
    }
    let mut i: usize = 0;
    while i < an
        invariant
            0 <= i <= an,
            forall|j: int| 0 <= j < i ==> a.nibbles@[j] == b.nibbles@[j],
        decreases an - i,
    {
        let x = a.nibbles[i];
        let y = b.nibbles[i];
        if x < y {
            proof {
                lemma_lex_lt_skip(a.nibbles@, b.nibbles@, i as int);
            }
            return true;
        }
        if x > y {
            proof {
                lemma_lex_lt_skip(a.nibbles@, b.nibbles@, i as int);
            }
            return false;
        }
        i = i + 1;
    }
    proof {
        lemma_lex_lt_skip(a.nibbles@, b.nibbles@, an as int);
        assert(a.nibbles@.skip(an as int).len() == 0);
    }
    false
}

/// Node identity plus fork provenance: what a metadata request answers.
#[derive(Clone, Debug, PartialEq, Eq)]
pub struct AnvilMetadata {
    pub client_version: String,
    pub chain_id: u64,
    pub instance_id: B256,
    pub latest_block_number: u64,
    pub latest_block_hash: B256,
    pub forked_network: Option<ForkedNetwork>,
    pub snapshots: Vec<Snapshot>,
}

/// The mathematical shape of an `AnvilMetadata`.
pub struct AnvilMetadataV {
    pub client_version: Seq<char>,
    pub chain_id: u64,
    pub instance_id: Seq<u8>,
    pub latest_block_number: u64,
    pub latest_block_hash: Seq<u8>,
    pub forked_network: Option<ForkedNetworkV>,
    pub snapshots: Seq<SnapshotV>,
}

impl AnvilMetadataV {
    /// Snapshots stand in strictly ascending id order, so that encoded
    /// output is deterministic.
    pub open spec fn wf(&self) -> bool {
        &&& self.instance_id.len() == 32
        &&& self.latest_block_hash.len() == 32
        &&& match self.forked_network {
            Option::Some(f) => f.wf(),
            Option::None => true,
        }
        &&& forall|i: int| 0 <= i < self.snapshots.len() ==> (#[trigger] self.snapshots[i]).wf()
        &&& forall|i: int|
            0 < i < self.snapshots.len() ==> key_lt(
                self.snapshots[i - 1].id,
                (#[trigger] self.snapshots[i]).id,
            )
    }
}

impl DeepView for AnvilMetadata {
    type V = AnvilMetadataV;

    open spec fn deep_view(&self) -> AnvilMetadataV {
        AnvilMetadataV {
            client_version: self.client_version@,
            chain_id: self.chain_id,
            instance_id: self.instance_id.deep_view(),
            latest_block_number: self.latest_block_number,
            latest_block_hash: self.latest_block_hash.deep_view(),
            forked_network: match self.forked_network {
                Option::Some(ref f) => Option::Some(f.deep_view()),
                Option::None => Option::None,
            },
            snapshots: self.snapshots.deep_view(),
        }
    }
}

/// The entry one snapshot encodes to: its id's hex text mapped to the
/// pair of block number and block hash.
pub open spec fn spec_snapshot_member(s: SnapshotV) -> (Seq<char>, JVal) {
    (
        u256_hex_text(s.id),
        JVal::Arr(
            seq![
                JVal::Num(s.block_number),
                JVal::Str(crate::render::bytes_hex_text(s.block_hash)),
            ],
        ),
    )
}

/// The snapshot map's entries, in stored (ascending) order.
pub open spec fn spec_snapshot_members(l: Seq<SnapshotV>) -> Seq<(Seq<char>, JVal)> {
    Seq::new(l.len(), |i: int| spec_snapshot_member(l[i]))
}

/// The entries a metadata descriptor encodes to: the forked network only
/// when present, the snapshot map always (possibly empty).
pub open spec fn spec_metadata_members(m: AnvilMetadataV) -> Seq<(Seq<char>, JVal)> {
    opt_member("clientVersion"@, Option::Some(JVal::Str(m.client_version))) + opt_member(
        "chainId"@,
        Option::Some(JVal::Num(m.chain_id)),
    ) + opt_member(
        "instanceId"@,
        Option::Some(JVal::Str(crate::render::bytes_hex_text(m.instance_id))),
    ) + opt_member("latestBlockNumber"@, Option::Some(JVal::Num(m.latest_block_number)))
        + opt_member(
        "latestBlockHash"@,
        Option::Some(JVal::Str(crate::render::bytes_hex_text(m.latest_block_hash))),
    ) + opt_member(
        "forkedNetwork"@,
        match m.forked_network {
            Option::Some(f) => Option::Some(spec_encode_forked_network(f)),
            Option::None => Option::None,
        },
    ) + opt_member("snapshots"@, Option::Some(JVal::Obj(spec_snapshot_members(m.snapshots))))
}

/// What encoding a metadata descriptor must emit.
pub open spec fn spec_encode_metadata(m: AnvilMetadataV) -> JVal {
    JVal::Obj(spec_metadata_members(m))
}

/// What decoding one snapshot entry must return: a hex-text id mapped to
/// the array of block number and block hash.
pub open spec fn spec_decode_snapshot_entry(e: (Seq<char>, JVal)) -> Result<SnapshotV, ErrV> {
    match spec_decode_u256(Option::Some(JVal::Str(e.0)), "snapshots"@) {
        Err(err) => Err(err),
        Ok(id) => match e.1 {
            JVal::Arr(a) => if a.len() == 2 {
                match a[0] {
                    JVal::Num(block) => match spec_decode_b256(
                        Option::Some(a[1]),
                        "snapshots"@,
                    ) {
                        Err(err) => Err(err),
                        Ok(hash) => Ok(
                            SnapshotV { id, block_number: block, block_hash: hash },
                        ),
                    },
                    _ => Err(ErrV::Field("snapshots"@)),
                }
            } else {
                Err(ErrV::Field("snapshots"@))
            },
            _ => Err(ErrV::Field("snapshots"@)),
        },
    }
}

/// What decoding the snapshot map must return: each entry decoded in
/// order, and ids strictly ascending — out-of-order input is rejected.
pub open spec fn spec_decode_snapshots(entries: Seq<(Seq<char>, JVal)>) -> Result<
    Seq<SnapshotV>,
    ErrV,
>
    decreases entries.len(),
{
    if entries.len() == 0 {
        Ok(Seq::empty())
    } else {
        match spec_decode_snapshots(entries.drop_last()) {
            Err(e) => Err(e),
            Ok(init) => match spec_decode_snapshot_entry(entries.last()) {
                Err(e) => Err(e),
                Ok(s) => if init.len() == 0 || key_lt(init.last().id, s.id) {
                    Ok(init.push(s))
                } else {
                    Err(ErrV::Field("snapshots"@))
                },
            },
        }
    }
}

/// Decodes one snapshot entry, as `spec_decode_snapshot_entry` describes.
fn decode_snapshot_entry(m: &JsonMember) -> (r: Result<Snapshot, DecodeError>)
    ensures
        match r {
            Ok(s) => s.deep_view().wf() && spec_decode_snapshot_entry(
                (m.key@, jval_of(m.value)),
            ) == Ok::<SnapshotV, ErrV>(s.deep_view()),
            Err(e) => spec_decode_snapshot_entry((m.key@, jval_of(m.value))) == Err::<
                SnapshotV,
                ErrV,
            >(e.deep_view()),
        },
{
    let id_value = JsonValue::Str(m.key.clone());
    let id = match decode_u256(Option::Some(&id_value), "snapshots") {
        Ok(q) => q,
        Err(e) => {
            return Err(e);
        },
    };
    match &m.value {
        JsonValue::Arr(a) => {
            if a.len() != 2 {
                proof {
                    crate::json::lemma_jvals_of_len(a@);
                }
                return Err(DecodeError::Field { key: String::from_str("snapshots") });
            }
            proof {
                crate::json::lemma_jvals_of_len(a@);
                crate::json::lemma_jvals_of_index(a@, 0);
                crate::json::lemma_jvals_of_index(a@, 1);
            }
            let block = match &a[0] {
                JsonValue::Num(n) => *n,
                _ => {
                    proof {
                        crate::json::lemma_jvals_of_len(a@);
                        crate::json::lemma_jvals_of_index(a@, 0);
                    }
                    return Err(DecodeError::Field { key: String::from_str("snapshots") });
                },
            };
            let hash = match crate::words::decode_b256(Option::Some(&a[1]), "snapshots") {
                Ok(h) => h,
                Err(e) => {
                    return Err(e);
                },
            };
            Ok(Snapshot { id, block_number: block, block_hash: hash })
        },
        _ => Err(DecodeError::Field { key: String::from_str("snapshots") }),
    }
}

/// Decodes the snapshot map, as `spec_decode_snapshots` describes.
#[verifier::loop_isolation(false)]
fn decode_snapshots(members: &Vec<JsonMember>) -> (r: Result<Vec<Snapshot>, DecodeError>)
    ensures
        match r {
            Ok(l) => spec_decode_snapshots(members_view(members@)) == Ok::<Seq<SnapshotV>, ErrV>(
                l.deep_view(),
            ) && (forall|i: int| 0 <= i < l@.len() ==> (#[trigger] l@[i]).deep_view().wf()) && (
            forall|i: int|
                0 < i < l@.len() ==> key_lt(
                    l.deep_view()[i - 1].id,
                    (#[trigger] l.deep_view()[i]).id,
                )),
            Err(e) => spec_decode_snapshots(members_view(members@)) == Err::<Seq<SnapshotV>, ErrV>(
                e.deep_view(),
            ),
        },
{
    proof {
        broadcast use crate::json::lemma_members_view_len, crate::json::lemma_members_view_index;

    }
    let mut out: Vec<Snapshot> = Vec::new();
    let n = members.len();
    let mut i: usize = 0;
    proof {
        assert(members_view(members@).take(0) =~= Seq::<(Seq<char>, JVal)>::empty());
        assert(out.deep_view() =~= Seq::<SnapshotV>::empty());
    }
    while i < n
        invariant
            0 <= i <= n,
            out@.len() == i,
            spec_decode_snapshots(members_view(members@).take(i as int)) == Ok::<
                Seq<SnapshotV>,
                ErrV,
            >(out.deep_view()),
            forall|j: int| 0 <= j < i ==> (#[trigger] out@[j]).deep_view().wf(),
            forall|j: int|
                0 < j < i ==> key_lt(out.deep_view()[j - 1].id, (#[trigger] out.deep_view()[j]).id),
        decreases n - i,
    {
        let ghost prefix = members_view(members@).take(i as int);
        let ghost prefix1 = members_view(members@).take(i + 1);
        proof {
            assert(prefix1.drop_last() =~= prefix);
            assert(prefix1.last() == (members@[i as int].key@, jval_of(members@[i as int].value)));
        }
        let s = match decode_snapshot_entry(&members[i]) {
            Ok(s) => s,
            Err(e) => {
                proof {
                    assert(spec_decode_snapshots(prefix1) == Err::<Seq<SnapshotV>, ErrV>(
                        e.deep_view(),
                    ));
                    lemma_decode_snapshots_error_extends(members_view(members@), i + 1);
                }
                return Err(e);
            },
        };
        if out.len() > 0 {
            proof {
                assert(out.deep_view().last() == out@[i - 1].deep_view());
            }
            let ok = key_lt_exec(&out[out.len() - 1].id, &s.id);
            if !ok {
                proof {
                    assert(spec_decode_snapshots(prefix1) == Err::<Seq<SnapshotV>, ErrV>(
                        ErrV::Field("snapshots"@),
                    ));
                    lemma_decode_snapshots_error_extends(members_view(members@), i + 1);
                }
                return Err(DecodeError::Field { key: String::from_str("snapshots") });
            }
        }
        let ghost old_dv = out.deep_view();
        let ghost s_dv = s.deep_view();
        out.push(s);
        proof {
            assert(out.deep_view() =~= old_dv.push(s_dv));
            assert(spec_decode_snapshots(prefix1) == Ok::<Seq<SnapshotV>, ErrV>(
                old_dv.push(s_dv),
            ));
        }
        i = i + 1;
    }
    proof {
        assert(members_view(members@).take(n as int) =~= members_view(members@));
    }
    Ok(out)
}

/// A failed prefix fails the whole snapshot map, with the same error.
proof fn lemma_decode_snapshots_error_extends(entries: Seq<(Seq<char>, JVal)>, k: int)
    requires
        0 <= k <= entries.len(),
        spec_decode_snapshots(entries.take(k)) is Err,
    ensures
        spec_decode_snapshots(entries) == spec_decode_snapshots(entries.take(k)),
    decreases entries.len() - k,
{
    if k < entries.len() {
        assert(entries.take(k + 1).drop_last() =~= entries.take(k));
        lemma_decode_snapshots_error_extends(entries, k + 1);
    } else {
        assert(entries.take(k) =~= entries);
    }
}

/// What decoding a metadata descriptor must return.
pub open spec fn spec_decode_metadata(v: JVal) -> Result<AnvilMetadataV, ErrV> {
    match v {
        JVal::Obj(o) => match spec_string_required(
            jobj_lookup(o, "clientVersion"@),
            "clientVersion"@,
        ) {
            Err(e) => Err(e),
            Ok(version) => match spec_u64_required(jobj_lookup(o, "chainId"@), "chainId"@) {
                Err(e) => Err(e),
                Ok(chain) => match spec_decode_b256(
                    jobj_lookup(o, "instanceId"@),
                    "instanceId"@,
                ) {
                    Err(e) => Err(e),
                    Ok(instance) => match spec_u64_required(
                        jobj_lookup(o, "latestBlockNumber"@),
                        "latestBlockNumber"@,
                    ) {
                        Err(e) => Err(e),
                        Ok(block) => match spec_decode_b256(
                            jobj_lookup(o, "latestBlockHash"@),
                            "latestBlockHash"@,
                        ) {
                            Err(e) => Err(e),
                            Ok(hash) => match spec_decode_metadata_tail(o) {
                                Err(e) => Err(e),
                                Ok((network, snaps)) => Ok(
                                    AnvilMetadataV {
                                        client_version: version,
                                        chain_id: chain,
                                        instance_id: instance,
                                        latest_block_number: block,
                                        latest_block_hash: hash,
                                        forked_network: network,
                                        snapshots: snaps,
                                    },
                                ),
                            },
                        },
                    },
                },
            },
        },
        _ => Err(ErrV::Shape(ParamKind::Metadata)),
    }
}

/// The tail of `spec_decode_metadata`: the optional forked network and
/// the required snapshot map.
pub open spec fn spec_decode_metadata_tail(o: Seq<(Seq<char>, JVal)>) -> Result<
    (Option<ForkedNetworkV>, Seq<SnapshotV>),
    ErrV,
> {
    let network = match jobj_lookup(o, "forkedNetwork"@) {
        Option::None => Ok(Option::None),
        Option::Some(JVal::Null) => Ok(Option::None),
        Option::Some(fv) => match spec_decode_forked_network(fv) {
            Err(e) => Err(e),
            Ok(f) => Ok(Option::Some(f)),
        },
    };
    match network {
        Err(e) => Err(e),
        Ok(net) => match jobj_lookup(o, "snapshots"@) {
            Option::Some(JVal::Obj(entries)) => match spec_decode_snapshots(entries) {
                Err(e) => Err(e),
                Ok(snaps) => Ok((net, snaps)),
            },
            _ => Err(ErrV::Field("snapshots"@)),
        },
    }
}

impl AnvilMetadata {
    /// Encodes this descriptor, as `spec_encode_metadata` describes.
    pub fn encode_value(&self) -> (r: JsonValue)
        requires
            self.deep_view().wf(),
        ensures
            jval_of(r) == spec_encode_metadata(self.deep_view()),
    {
        proof {
            broadcast use lemma_members_view_push;

        }
        let mut members: Vec<JsonMember> = Vec::new();
        proof {
            assert(members_view(members@) =~= Seq::empty());
        }
        members.push(
            JsonMember {
                key: String::from_str("clientVersion"),
                value: JsonValue::Str(self.client_version.clone()),
            },
        );
        members.push(
            JsonMember { key: String::from_str("chainId"), value: JsonValue::Num(self.chain_id) },
        );
        members.push(
            JsonMember {
                key: String::from_str("instanceId"),
                value: JsonValue::Str(crate::render::bytes_to_hex(&self.instance_id.bytes)),
            },
        );
        members.push(
            JsonMember {
                key: String::from_str("latestBlockNumber"),
                value: JsonValue::Num(self.latest_block_number),
            },
        );
        members.push(
            JsonMember {
                key: String::from_str("latestBlockHash"),
                value: JsonValue::Str(crate::render::bytes_to_hex(&self.latest_block_hash.bytes)),
            },
        );
        if let Option::Some(f) = &self.forked_network {
            members.push(
                JsonMember { key: String::from_str("forkedNetwork"), value: f.encode_value() },
            );
        }
        let ghost seg6 = opt_member(
            "clientVersion"@,
            Option::Some(JVal::Str(self.client_version@)),
        ) + opt_member("chainId"@, Option::Some(JVal::Num(self.chain_id))) + opt_member(
            "instanceId"@,
            Option::Some(JVal::Str(crate::render::bytes_hex_text(self.instance_id.bytes@))),
        ) + opt_member("latestBlockNumber"@, Option::Some(JVal::Num(self.latest_block_number)))
            + opt_member(
            "latestBlockHash"@,
            Option::Some(JVal::Str(crate::render::bytes_hex_text(self.latest_block_hash.bytes@))),
        ) + opt_member(
            "forkedNetwork"@,
            match self.deep_view().forked_network {
                Option::Some(f) => Option::Some(spec_encode_forked_network(f)),
                Option::None => Option::None,
            },
        );
        proof {
            assert(members_view(members@) =~= seg6);
        }
        proof {
            assert forall|i: int| 0 <= i < self.snapshots@.len() implies (#[trigger] self.snapshots@[i]).deep_view().wf() by {
                assert(self.deep_view().snapshots[i] == self.snapshots@[i].deep_view());
            }
        }
        let snaps = encode_snapshots(&self.snapshots);
        members.push(
            JsonMember { key: String::from_str("snapshots"), value: JsonValue::Obj(snaps) },
        );
        proof {
            assert(members_view(members@) =~= spec_metadata_members(self.deep_view()));
        }
        JsonValue::Obj(members)
    }

    /// Decodes a metadata descriptor, as `spec_decode_metadata` describes.
    pub fn decode_value(v: &JsonValue) -> (r: Result<AnvilMetadata, DecodeError>)
        ensures
            match r {
                Ok(m) => spec_decode_metadata(jval_of(*v)) == Ok::<AnvilMetadataV, ErrV>(
                    m.deep_view(),
                ),
                Err(e) => spec_decode_metadata(jval_of(*v)) == Err::<AnvilMetadataV, ErrV>(
                    e.deep_view(),
                ),
            },
    {
        match v {
            JsonValue::Obj(members) => {
                let version = match string_required_field(
                    obj_get(members, "clientVersion"),
                    "clientVersion",
                ) {
                    Ok(s) => s,
                    Err(e) => {
                        return Err(e);
                    },
                };
                let chain = match u64_required_field(obj_get(members, "chainId"), "chainId") {
                    Ok(n) => n,
                    Err(e) => {
                        return Err(e);
                    },
                };
                let instance = match crate::words::decode_b256(
                    obj_get(members, "instanceId"),
                    "instanceId",
                ) {
                    Ok(h) => h,
                    Err(e) => {
                        return Err(e);
                    },
                };
                let block = match u64_required_field(
                    obj_get(members, "latestBlockNumber"),
                    "latestBlockNumber",
                ) {
                    Ok(n) => n,
                    Err(e) => {
                        return Err(e);
                    },
                };
                let hash = match crate::words::decode_b256(
                    obj_get(members, "latestBlockHash"),
                    "latestBlockHash",
                ) {
                    Ok(h) => h,
                    Err(e) => {
                        return Err(e);
                    },
                };
                let network = match obj_get(members, "forkedNetwork") {
                    Option::None => Option::None,
                    Option::Some(JsonValue::Null) => Option::None,
                    Option::Some(fv) => match ForkedNetwork::decode_value(fv) {
                        Ok(f) => Option::Some(f),
                        Err(e) => {
                            return Err(e);
                        },
                    },
                };
                let snaps = match obj_get(members, "snapshots") {
                    Option::Some(JsonValue::Obj(entries)) => match decode_snapshots(entries) {
                        Ok(l) => l,
                        Err(e) => {
                            return Err(e);
                        },
                    },
                    _ => {
                        return Err(DecodeError::Field { key: String::from_str("snapshots") });
                    },
                };
                Ok(
                    AnvilMetadata {
                        client_version: version,
                        chain_id: chain,
                        instance_id: instance,
                        latest_block_number: block,
                        latest_block_hash: hash,
                        forked_network: network,
                        snapshots: snaps,
                    },
                )
            },
            _ => Err(DecodeError::Shape { kind: ParamKind::Metadata }),
        }
    }
}

/// An encoded snapshot map decodes back to its snapshots, for ascending
/// well-formed snapshots.
proof fn lemma_snapshots_round_trip(l: Seq<SnapshotV>)
    requires
        forall|i: int| 0 <= i < l.len() ==> (#[trigger] l[i]).wf(),
        forall|i: int| 0 < i < l.len() ==> key_lt(l[i - 1].id, (#[trigger] l[i]).id),
    ensures
        spec_decode_snapshots(spec_snapshot_members(l)) == Ok::<Seq<SnapshotV>, ErrV>(l),
    decreases l.len(),
{
    let entries = spec_snapshot_members(l);
    if l.len() == 0 {
        assert(entries =~= Seq::<(Seq<char>, JVal)>::empty());
        assert(l =~= Seq::<SnapshotV>::empty());
    } else {
        lemma_snapshots_round_trip(l.drop_last());
        assert(entries.drop_last() =~= spec_snapshot_members(l.drop_last()));
        let last = l.last();
        assert(entries.last() == spec_snapshot_member(last));
        lemma_u256_text_round_trip(last.id, "snapshots"@);
        lemma_bytes_text_round_trip(last.block_hash, "snapshots"@);
        let pair = seq![
            JVal::Num(last.block_number),
            JVal::Str(crate::render::bytes_hex_text(last.block_hash)),
        ];
        assert(spec_decode_snapshot_entry(entries.last()) == Ok::<SnapshotV, ErrV>(last));
        if l.len() > 1 {
            assert(l.drop_last().last() == l[l.len() - 2]);
            assert(key_lt(l[l.len() - 2].id, last.id));
        }
        assert(l.drop_last().push(last) =~= l);
    }
}

/// Decoding an encoded metadata descriptor gives the descriptor back.
pub proof fn lemma_metadata_round_trip(m: AnvilMetadataV)
    requires
        m.wf(),
    ensures
        spec_decode_metadata(spec_encode_metadata(m)) == Ok::<AnvilMetadataV, ErrV>(m),
{
    reveal_strlit("clientVersion");
    reveal_strlit("chainId");
    reveal_strlit("instanceId");
    reveal_strlit("latestBlockNumber");
    reveal_strlit("latestBlockHash");
    reveal_strlit("forkedNetwork");
    reveal_strlit("snapshots");
    let k1 = "clientVersion"@;
    let k2 = "chainId"@;
    let k3 = "instanceId"@;
    let k4 = "latestBlockNumber"@;
    let k5 = "latestBlockHash"@;
    let k6 = "forkedNetwork"@;
    let k7 = "snapshots"@;
    assert(k1.len() == 13);
    assert(k2.len() == 7);
    assert(k3.len() == 10);
    assert(k4.len() == 17);
    assert(k5.len() == 15);
    assert(k6.len() == 13);
    assert(k7.len() == 9);
    assert(k1[0] == 'c' && k6[0] == 'f');
    let v1 = Option::Some(JVal::Str(m.client_version));
    let v2 = Option::Some(JVal::Num(m.chain_id));
    let v3 = Option::Some(JVal::Str(crate::render::bytes_hex_text(m.instance_id)));
    let v4 = Option::Some(JVal::Num(m.latest_block_number));
    let v5 = Option::Some(JVal::Str(crate::render::bytes_hex_text(m.latest_block_hash)));
    let v6 = match m.forked_network {
        Option::Some(f) => Option::Some(spec_encode_forked_network(f)),
        Option::None => Option::<JVal>::None,
    };
    let v7 = Option::Some(JVal::Obj(spec_snapshot_members(m.snapshots)));
    let s1 = opt_member(k1, v1);
    let s2 = opt_member(k2, v2);
    let s3 = opt_member(k3, v3);
    let s4 = opt_member(k4, v4);
    let s5 = opt_member(k5, v5);
    let s6 = opt_member(k6, v6);
    let s7 = opt_member(k7, v7);
    let o = spec_metadata_members(m);
    assert(o == (((((s1 + s2) + s3) + s4) + s5) + s6) + s7);
    let keys = seq![k1, k2, k3, k4, k5, k6, k7];
    let segs = seq![s1, s2, s3, s4, s5, s6, s7];
    let vals = seq![v1, v2, v3, v4, v5, v6, v7];
    assert forall|i: int, j: int| 0 <= i < 7 && 0 <= j < 7 && i != j implies jobj_lookup(
        segs[j],
        keys[i],
    ) is None by {
        lemma_lookup_opt_member_other(keys[j], vals[j], keys[i]);
    }
    assert forall|i: int| 0 <= i < 7 implies jobj_lookup(segs[i], keys[i]) == vals[i] by {
        lemma_lookup_opt_member_same(keys[i], vals[i]);
    }
    assert forall|i: int| 0 <= i < 7 implies jobj_lookup(o, keys[i]) == vals[i] by {
        lemma_jobj_lookup_concat((((((s1 + s2) + s3) + s4) + s5) + s6), s7, keys[i]);
        lemma_jobj_lookup_concat(((((s1 + s2) + s3) + s4) + s5), s6, keys[i]);
        lemma_jobj_lookup_concat((((s1 + s2) + s3) + s4), s5, keys[i]);
        lemma_jobj_lookup_concat(((s1 + s2) + s3), s4, keys[i]);
        lemma_jobj_lookup_concat((s1 + s2), s3, keys[i]);
        lemma_jobj_lookup_concat(s1, s2, keys[i]);
    }
    assert(jobj_lookup(o, k1) == v1);
    assert(jobj_lookup(o, k2) == v2);
    assert(jobj_lookup(o, k3) == v3);
    assert(jobj_lookup(o, k4) == v4);
    assert(jobj_lookup(o, k5) == v5);
    assert(jobj_lookup(o, k6) == v6);
    assert(jobj_lookup(o, k7) == v7);
    lemma_bytes_text_round_trip(m.instance_id, k3);
    lemma_bytes_text_round_trip(m.latest_block_hash, k5);
    match m.forked_network {
        Option::Some(f) => {
            lemma_forked_network_round_trip(f);
        },
        Option::None => {},
    }
    lemma_snapshots_round_trip(m.snapshots);
}

/// Encodes the snapshot map in stored order.
#[verifier::loop_isolation(false)]
fn encode_snapshots(l: &Vec<Snapshot>) -> (r: Vec<JsonMember>)
    requires
        forall|i: int| 0 <= i < l@.len() ==> (#[trigger] l@[i]).deep_view().wf(),
    ensures
        members_view(r@) == spec_snapshot_members(l.deep_view()),
{
    proof {
        broadcast use lemma_members_view_push;

    }
    let mut out: Vec<JsonMember> = Vec::new();
    let n = l.len();
    let mut i: usize = 0;
    proof {
        assert(members_view(out@) =~= Seq::empty());
    }
    while i < n
        invariant
            0 <= i <= n,
            members_view(out@) =~= spec_snapshot_members(l.deep_view()).take(i as int),
        decreases n - i,
    {
        let snap = &l[i];
        let mut pair: Vec<JsonValue> = Vec::new();
        pair.push(JsonValue::Num(snap.block_number));
        pair.push(JsonValue::Str(crate::render::bytes_to_hex(&snap.block_hash.bytes)));
        proof {
            broadcast use crate::json::lemma_jvals_of_len, crate::json::lemma_jvals_of_index;

            assert(jvals_of(pair@) =~= seq![
                JVal::Num(snap.block_number),
                JVal::Str(crate::render::bytes_hex_text(snap.block_hash.bytes@)),
            ]);
        }
        out.push(JsonMember { key: snap.id.to_hex(), value: JsonValue::Arr(pair) });
        proof {
            assert(spec_snapshot_members(l.deep_view()).take(i + 1) =~= spec_snapshot_members(
                l.deep_view(),
            ).take(i as int).push(spec_snapshot_member(l.deep_view()[i as int])));
        }
        i = i + 1;
    }
    proof {
        assert(spec_snapshot_members(l.deep_view()).take(n as int) =~= spec_snapshot_members(
            l.deep_view(),
        ));
    }
    out
}

} // verus!
