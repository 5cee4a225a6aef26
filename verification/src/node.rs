//! Point-in-time node and chain descriptors: pure value objects with no
//! decode ambiguity, encoded with the general optional-field rule (an
//! absent field is omitted, never written as null).

use vstd::prelude::*;
use crate::json::{
    jobj_lookup, jval_of, lemma_jobj_lookup_concat, lemma_lookup_opt_member_other,
    lemma_lookup_opt_member_same, lemma_members_view_push, members_view, obj_get, opt_member, JVal,
    JsonMember, JsonValue,
};
use crate::types::{
    spec_string_field, spec_string_required, spec_u64_plain, spec_u64_quantity, spec_u64_required,
    string_field, string_required_field, u64_plain_field, u64_quantity_field, u64_required_field,
    DecodeError, ErrV, ParamKind,
};
use crate::words::{
    canonical_nibbles, decode_u256, lemma_u256_text_round_trip, spec_decode_u256, u256_hex_text,
    U256,
};

verus! {

/// How the node was forked, if it was: endpoint, block and retry backoff.
#[derive(Clone, Debug, Default, PartialEq, Eq)]
pub struct NodeForkConfig {
    pub fork_url: Option<String>,
    pub fork_block_number: Option<u64>,
    pub fork_retry_backoff: Option<u128>,
}

/// The mathematical shape of a `NodeForkConfig`.
pub struct NodeForkConfigV {
    pub fork_url: Option<Seq<char>>,
    pub fork_block_number: Option<u64>,
    pub fork_retry_backoff: Option<u128>,
}

impl NodeForkConfigV {
    /// A backoff must fit the width a JSON number carries here.
    pub open spec fn wf(&self) -> bool {
        match self.fork_retry_backoff {
            Option::Some(b) => b <= u64::MAX,
            Option::None => true,
        }
    }
}

impl DeepView for NodeForkConfig {
    type V = NodeForkConfigV;

    open spec fn deep_view(&self) -> NodeForkConfigV {
        NodeForkConfigV {
            fork_url: self.fork_url.deep_view(),
            fork_block_number: self.fork_block_number,
            fork_retry_backoff: self.fork_retry_backoff,
        }
    }
}

/// The entries a fork configuration encodes to: each field present only
/// when set.
pub open spec fn spec_fork_config_members(c: NodeForkConfigV) -> Seq<(Seq<char>, JVal)> {
    opt_member(
        "forkUrl"@,
        match c.fork_url {
            Option::Some(u) => Option::Some(JVal::Str(u)),
            Option::None => Option::None,
        },
    ) + opt_member(
        "forkBlockNumber"@,
        match c.fork_block_number {
            Option::Some(n) => Option::Some(JVal::Num(n)),
            Option::None => Option::None,
        },
    ) + opt_member(
        "forkRetryBackoff"@,
        match c.fork_retry_backoff {
            Option::Some(n) => Option::Some(JVal::Num(n as u64)),
            Option::None => Option::None,
        },
    )
}

/// What encoding a fork configuration must emit.
pub open spec fn spec_encode_fork_config(c: NodeForkConfigV) -> JVal {
    JVal::Obj(spec_fork_config_members(c))
}

/// What decoding a fork configuration must return.
pub open spec fn spec_decode_fork_config(v: JVal) -> Result<NodeForkConfigV, ErrV> {
    match v {
        JVal::Obj(o) => match spec_string_field(jobj_lookup(o, "forkUrl"@), "forkUrl"@) {
            Err(e) => Err(e),
            Ok(url) => match spec_u64_plain(
                jobj_lookup(o, "forkBlockNumber"@),
                "forkBlockNumber"@,
            ) {
                Err(e) => Err(e),
                Ok(block) => match spec_u64_plain(
                    jobj_lookup(o, "forkRetryBackoff"@),
                    "forkRetryBackoff"@,
                ) {
                    Err(e) => Err(e),
                    Ok(backoff) => Ok(
                        NodeForkConfigV {
                            fork_url: url,
                            fork_block_number: block,
                            fork_retry_backoff: match backoff {
                                Option::Some(b) => Option::Some(b as u128),
                                Option::None => Option::None,
                            },
                        },
                    ),
                },
            },
        },
        _ => Err(ErrV::Shape(ParamKind::NodeForkConfig)),
    }
}

impl NodeForkConfig {
    /// Encodes this configuration, as `spec_encode_fork_config` describes.
    pub fn encode_value(&self) -> (r: JsonValue)
        requires
            self.deep_view().wf(),
        ensures
            jval_of(r) == spec_encode_fork_config(self.deep_view()),
    {
        proof {
            broadcast use lemma_members_view_push;

        }
        let mut members: Vec<JsonMember> = Vec::new();
        proof {
            assert(members_view(members@) =~= Seq::empty());
        }
        if let Option::Some(u) = &self.fork_url {
            members.push(
                JsonMember { key: String::from_str("forkUrl"), value: JsonValue::Str(u.clone()) },
            );
        }
        let ghost seg1 = opt_member(
            "forkUrl"@,
            match self.deep_view().fork_url {
                Option::Some(u) => Option::Some(JVal::Str(u)),
                Option::None => Option::None,
            },
        );
        proof {
            assert(members_view(members@) =~= seg1);
        }
        if let Option::Some(n) = self.fork_block_number {
            members.push(
                JsonMember {
                    key: String::from_str("forkBlockNumber"),
                    value: JsonValue::Num(n),
                },
            );
        }
        let ghost seg2 = seg1 + opt_member(
            "forkBlockNumber"@,
            match self.fork_block_number {
                Option::Some(n) => Option::Some(JVal::Num(n)),
                Option::None => Option::None,
            },
        );
        proof {
            assert(members_view(members@) =~= seg2);
        }
        if let Option::Some(b) = self.fork_retry_backoff {
            members.push(
                JsonMember {
                    key: String::from_str("forkRetryBackoff"),
                    value: JsonValue::Num(b as u64),
                },
            );
        }
        proof {
            assert(members_view(members@) =~= spec_fork_config_members(self.deep_view()));
        }
        JsonValue::Obj(members)
    }

    /// Decodes a fork configuration, as `spec_decode_fork_config`
    /// describes.
    pub fn decode_value(v: &JsonValue) -> (r: Result<NodeForkConfig, DecodeError>)
        ensures
            match r {
                Ok(c) => spec_decode_fork_config(jval_of(*v)) == Ok::<NodeForkConfigV, ErrV>(
                    c.deep_view(),
                ),
                Err(e) => spec_decode_fork_config(jval_of(*v)) == Err::<NodeForkConfigV, ErrV>(
                    e.deep_view(),
                ),
            },
    {
        match v {
            JsonValue::Obj(members) => {
                let url = match string_field(obj_get(members, "forkUrl"), "forkUrl") {
                    Ok(u) => u,
                    Err(e) => {
                        return Err(e);
                    },
                };
                let block = match u64_plain_field(
                    obj_get(members, "forkBlockNumber"),
                    "forkBlockNumber",
                ) {
                    Ok(b) => b,
                    Err(e) => {
                        return Err(e);
                    },
                };
                let backoff = match u64_plain_field(
                    obj_get(members, "forkRetryBackoff"),
                    "forkRetryBackoff",
                ) {
                    Ok(Option::Some(b)) => Option::Some(b as u128),
                    Ok(Option::None) => Option::None,
                    Err(e) => {
                        return Err(e);
                    },
                };
                Ok(
                    NodeForkConfig {
                        fork_url: url,
                        fork_block_number: block,
                        fork_retry_backoff: backoff,
                    },
                )
            },
            _ => Err(DecodeError::Shape { kind: ParamKind::NodeForkConfig }),
        }
    }
}

/// The chain environment of the node: fee and gas figures and the chain
/// id. Every field is present on the wire.
#[derive(Clone, Debug, PartialEq, Eq)]
pub struct NodeEnvironment {
    pub base_fee: U256,
    pub chain_id: u64,
    pub gas_limit: U256,
    pub gas_price: U256,
}

/// The mathematical shape of a `NodeEnvironment`.
pub struct NodeEnvironmentV {
    pub base_fee: Seq<u8>,
    pub chain_id: u64,
    pub gas_limit: Seq<u8>,
    pub gas_price: Seq<u8>,
}

impl NodeEnvironmentV {
    pub open spec fn wf(&self) -> bool {
        canonical_nibbles(self.base_fee) && canonical_nibbles(self.gas_limit)
            && canonical_nibbles(self.gas_price)
    }
}

impl DeepView for NodeEnvironment {
    type V = NodeEnvironmentV;

    open spec fn deep_view(&self) -> NodeEnvironmentV {
        NodeEnvironmentV {
            base_fee: self.base_fee.deep_view(),
            chain_id: self.chain_id,
            gas_limit: self.gas_limit.deep_view(),
            gas_price: self.gas_price.deep_view(),
        }
    }
}

/// The entries a node environment encodes to: quantities as hex text,
/// the chain id as a number, all always present.
pub open spec fn spec_node_env_members(e: NodeEnvironmentV) -> Seq<(Seq<char>, JVal)> {
    opt_member("baseFee"@, Option::Some(JVal::Str(u256_hex_text(e.base_fee)))) + opt_member(
        "chainId"@,
        Option::Some(JVal::Num(e.chain_id)),
    ) + opt_member("gasLimit"@, Option::Some(JVal::Str(u256_hex_text(e.gas_limit)))) + opt_member(
        "gasPrice"@,
        Option::Some(JVal::Str(u256_hex_text(e.gas_price))),
    )
}

/// What encoding a node environment must emit.
pub open spec fn spec_encode_node_env(e: NodeEnvironmentV) -> JVal {
    JVal::Obj(spec_node_env_members(e))
}

/// What decoding a node environment must return; every field is
/// required.
pub open spec fn spec_decode_node_env(v: JVal) -> Result<NodeEnvironmentV, ErrV> {
    match v {
        JVal::Obj(o) => match spec_decode_u256(jobj_lookup(o, "baseFee"@), "baseFee"@) {
            Err(e) => Err(e),
            Ok(base_fee) => match spec_u64_required(jobj_lookup(o, "chainId"@), "chainId"@) {
                Err(e) => Err(e),
                Ok(chain_id) => match spec_decode_u256(jobj_lookup(o, "gasLimit"@), "gasLimit"@) {
                    Err(e) => Err(e),
                    Ok(gas_limit) => match spec_decode_u256(
                        jobj_lookup(o, "gasPrice"@),
                        "gasPrice"@,
                    ) {
                        Err(e) => Err(e),
                        Ok(gas_price) => Ok(
                            NodeEnvironmentV { base_fee, chain_id, gas_limit, gas_price },
                        ),
                    },
                },
            },
        },
        _ => Err(ErrV::Shape(ParamKind::NodeEnvironment)),
    }
}

impl NodeEnvironment {
    /// Encodes this environment, as `spec_encode_node_env` describes.
    pub fn encode_value(&self) -> (r: JsonValue)
        requires
            self.deep_view().wf(),
        ensures
            jval_of(r) == spec_encode_node_env(self.deep_view()),
    {
        proof {
            broadcast use lemma_members_view_push;

        }
        let mut members: Vec<JsonMember> = Vec::new();
        proof {
            assert(members_view(members@) =~= Seq::empty());
        }
        members.push(
            JsonMember {
                key: String::from_str("baseFee"),
                value: JsonValue::Str(self.base_fee.to_hex()),
            },
        );
        members.push(
            JsonMember { key: String::from_str("chainId"), value: JsonValue::Num(self.chain_id) },
        );
        members.push(
            JsonMember {
                key: String::from_str("gasLimit"),
                value: JsonValue::Str(self.gas_limit.to_hex()),
            },
        );
        members.push(
            JsonMember {
                key: String::from_str("gasPrice"),
                value: JsonValue::Str(self.gas_price.to_hex()),
            },
        );
        proof {
            assert(members_view(members@) =~= spec_node_env_members(self.deep_view()));
        }
        JsonValue::Obj(members)
    }

    /// Decodes a node environment, as `spec_decode_node_env` describes.
    pub fn decode_value(v: &JsonValue) -> (r: Result<NodeEnvironment, DecodeError>)
        ensures
            match r {
                Ok(e) => e.deep_view().wf() && spec_decode_node_env(jval_of(*v)) == Ok::<
                    NodeEnvironmentV,
                    ErrV,
                >(e.deep_view()),
                Err(e) => spec_decode_node_env(jval_of(*v)) == Err::<NodeEnvironmentV, ErrV>(
                    e.deep_view(),
                ),
            },
    {
        match v {
            JsonValue::Obj(members) => {
                let base_fee = match decode_u256(obj_get(members, "baseFee"), "baseFee") {
                    Ok(q) => q,
                    Err(e) => {
                        return Err(e);
                    },
                };
                let chain_id = match u64_required_field(obj_get(members, "chainId"), "chainId") {
                    Ok(n) => n,
                    Err(e) => {
                        return Err(e);
                    },
                };
                let gas_limit = match decode_u256(obj_get(members, "gasLimit"), "gasLimit") {
                    Ok(q) => q,
                    Err(e) => {
                        return Err(e);
                    },
                };
                let gas_price = match decode_u256(obj_get(members, "gasPrice"), "gasPrice") {
                    Ok(q) => q,
                    Err(e) => {
                        return Err(e);
                    },
                };
                Ok(NodeEnvironment { base_fee, chain_id, gas_limit, gas_price })
            },
            _ => Err(DecodeError::Shape { kind: ParamKind::NodeEnvironment }),
        }
    }
}

/// Decoding an encoded node environment gives the environment back.
pub proof fn lemma_node_env_round_trip(e: NodeEnvironmentV)
    requires
        e.wf(),
    ensures
        spec_decode_node_env(spec_encode_node_env(e)) == Ok::<NodeEnvironmentV, ErrV>(e),
{
    reveal_strlit("baseFee");
    reveal_strlit("chainId");
    reveal_strlit("gasLimit");
    reveal_strlit("gasPrice");
    let k1 = "baseFee"@;
    let k2 = "chainId"@;
    let k3 = "gasLimit"@;
    let k4 = "gasPrice"@;
    assert(k1.len() == 7);
    assert(k2.len() == 7);
    assert(k3.len() == 8);
    assert(k4.len() == 8);
    assert(k1[0] == 'b' && k2[0] == 'c');
    assert(k3[0] == 'g' && k4[0] == 'g');
    assert(k3[3] == 'L' && k4[3] == 'P');
    let v1 = Option::Some(JVal::Str(u256_hex_text(e.base_fee)));
    let v2 = Option::Some(JVal::Num(e.chain_id));
    let v3 = Option::Some(JVal::Str(u256_hex_text(e.gas_limit)));
    let v4 = Option::Some(JVal::Str(u256_hex_text(e.gas_price)));
    let a = opt_member(k1, v1);
    let b = opt_member(k2, v2);
    let d = opt_member(k3, v3);
    let f = opt_member(k4, v4);
    let o = spec_node_env_members(e);
    assert(o == ((a + b) + d) + f);
    lemma_lookup_concat4(a, b, d, f, k1);
    lemma_lookup_concat4(a, b, d, f, k2);
    lemma_lookup_concat4(a, b, d, f, k3);
    lemma_lookup_concat4(a, b, d, f, k4);
    lemma_lookup_opt_member_same(k1, v1);
    lemma_lookup_opt_member_other(k1, v1, k2);
    lemma_lookup_opt_member_other(k1, v1, k3);
    lemma_lookup_opt_member_other(k1, v1, k4);
    lemma_lookup_opt_member_same(k2, v2);
    lemma_lookup_opt_member_other(k2, v2, k1);
    lemma_lookup_opt_member_other(k2, v2, k3);
    lemma_lookup_opt_member_other(k2, v2, k4);
    lemma_lookup_opt_member_same(k3, v3);
    lemma_lookup_opt_member_other(k3, v3, k1);
    lemma_lookup_opt_member_other(k3, v3, k2);
    lemma_lookup_opt_member_other(k3, v3, k4);
    lemma_lookup_opt_member_same(k4, v4);
    lemma_lookup_opt_member_other(k4, v4, k1);
    lemma_lookup_opt_member_other(k4, v4, k2);
    lemma_lookup_opt_member_other(k4, v4, k3);
    assert(jobj_lookup(o, k1) == v1);
    assert(jobj_lookup(o, k2) == v2);
    assert(jobj_lookup(o, k3) == v3);
    assert(jobj_lookup(o, k4) == v4);
    lemma_u256_text_round_trip(e.base_fee, k1);
    lemma_u256_text_round_trip(e.gas_limit, k3);
    lemma_u256_text_round_trip(e.gas_price, k4);
}

/// A point-in-time descriptor of the node: chain head, hard fork, order
/// policy, environment and fork provenance. Every field is present on
/// the wire; the block number travels as hex text.
#[derive(Clone, Debug, PartialEq, Eq)]
pub struct NodeInfo {
    pub current_block_number: u64,
    pub current_block_timestamp: u64,
    pub current_block_hash: crate::words::B256,
    pub hard_fork: String,
    pub transaction_order: String,
    pub environment: NodeEnvironment,
    pub fork_config: NodeForkConfig,
}

/// The mathematical shape of a `NodeInfo`.
pub struct NodeInfoV {
    pub current_block_number: u64,
    pub current_block_timestamp: u64,
    pub current_block_hash: Seq<u8>,
    pub hard_fork: Seq<char>,
    pub transaction_order: Seq<char>,
    pub environment: NodeEnvironmentV,
    pub fork_config: NodeForkConfigV,
}

impl NodeInfoV {
    pub open spec fn wf(&self) -> bool {
        self.current_block_hash.len() == 32 && self.environment.wf() && self.fork_config.wf()
    }
}

impl DeepView for NodeInfo {
    type V = NodeInfoV;

    open spec fn deep_view(&self) -> NodeInfoV {
        NodeInfoV {
            current_block_number: self.current_block_number,
            current_block_timestamp: self.current_block_timestamp,
            current_block_hash: self.current_block_hash.deep_view(),
            hard_fork: self.hard_fork@,
            transaction_order: self.transaction_order@,
            environment: self.environment.deep_view(),
            fork_config: self.fork_config.deep_view(),
        }
    }
}

/// The entries a node descriptor encodes to.
pub open spec fn spec_node_info_members(n: NodeInfoV) -> Seq<(Seq<char>, JVal)> {
    opt_member(
        "currentBlockNumber"@,
        Option::Some(JVal::Str(crate::render::hex_text_of(n.current_block_number as nat))),
    ) + opt_member("currentBlockTimestamp"@, Option::Some(JVal::Num(n.current_block_timestamp)))
        + opt_member(
        "currentBlockHash"@,
        Option::Some(JVal::Str(crate::render::bytes_hex_text(n.current_block_hash))),
    ) + opt_member("hardFork"@, Option::Some(JVal::Str(n.hard_fork))) + opt_member(
        "transactionOrder"@,
        Option::Some(JVal::Str(n.transaction_order)),
    ) + opt_member("environment"@, Option::Some(spec_encode_node_env(n.environment)))
        + opt_member("forkConfig"@, Option::Some(spec_encode_fork_config(n.fork_config)))
}

/// What encoding a node descriptor must emit.
pub open spec fn spec_encode_node_info(n: NodeInfoV) -> JVal {
    JVal::Obj(spec_node_info_members(n))
}

/// What decoding a node descriptor must return; every field is required,
/// and the block number may come as a number or as hex or decimal text.
pub open spec fn spec_decode_node_info(v: JVal) -> Result<NodeInfoV, ErrV> {
    match v {
        JVal::Obj(o) => match spec_u64_quantity(
            jobj_lookup(o, "currentBlockNumber"@),
            "currentBlockNumber"@,
        ) {
            Err(e) => Err(e),
            Ok(block) => match spec_u64_required(
                jobj_lookup(o, "currentBlockTimestamp"@),
                "currentBlockTimestamp"@,
            ) {
                Err(e) => Err(e),
                Ok(ts) => match crate::words::spec_decode_b256(
                    jobj_lookup(o, "currentBlockHash"@),
                    "currentBlockHash"@,
                ) {
                    Err(e) => Err(e),
                    Ok(hash) => match spec_string_required(
                        jobj_lookup(o, "hardFork"@),
                        "hardFork"@,
                    ) {
                        Err(e) => Err(e),
                        Ok(fork) => match spec_string_required(
                            jobj_lookup(o, "transactionOrder"@),
                            "transactionOrder"@,
                        ) {
                            Err(e) => Err(e),
                            Ok(order) => match jobj_lookup(o, "environment"@) {
                                Option::None => Err(ErrV::Field("environment"@)),
                                Option::Some(ev) => match spec_decode_node_env(ev) {
                                    Err(e) => Err(e),
                                    Ok(env) => match jobj_lookup(o, "forkConfig"@) {
                                        Option::None => Err(ErrV::Field("forkConfig"@)),
                                        Option::Some(fv) => match spec_decode_fork_config(fv) {
                                            Err(e) => Err(e),
                                            Ok(fc) => Ok(
                                                NodeInfoV {
                                                    current_block_number: block,
                                                    current_block_timestamp: ts,
                                                    current_block_hash: hash,
                                                    hard_fork: fork,
                                                    transaction_order: order,
                                                    environment: env,
                                                    fork_config: fc,
                                                },
                                            ),
                                        },
                                    },
                                },
                            },
                        },
                    },
                },
            },
        },
        _ => Err(ErrV::Shape(ParamKind::NodeInfo)),
    }
}

impl NodeInfo {
    /// Encodes this descriptor, as `spec_encode_node_info` describes.
    pub fn encode_value(&self) -> (r: JsonValue)
        requires
            self.deep_view().wf(),
        ensures
            jval_of(r) == spec_encode_node_info(self.deep_view()),
    {
        proof {
            broadcast use lemma_members_view_push;

        }
        let mut members: Vec<JsonMember> = Vec::new();
        proof {
            assert(members_view(members@) =~= Seq::empty());
        }
        members.push(
            JsonMember {
                key: String::from_str("currentBlockNumber"),
                value: JsonValue::Str(crate::render::u64_to_hex(self.current_block_number)),
            },
        );
        members.push(
            JsonMember {
                key: String::from_str("currentBlockTimestamp"),
                value: JsonValue::Num(self.current_block_timestamp),
            },
        );
        members.push(
            JsonMember {
                key: String::from_str("currentBlockHash"),
                value: JsonValue::Str(crate::render::bytes_to_hex(&self.current_block_hash.bytes)),
            },
        );
        members.push(
            JsonMember {
                key: String::from_str("hardFork"),
                value: JsonValue::Str(self.hard_fork.clone()),
            },
        );
        members.push(
            JsonMember {
                key: String::from_str("transactionOrder"),
                value: JsonValue::Str(self.transaction_order.clone()),
            },
        );
        members.push(
            JsonMember {
                key: String::from_str("environment"),
                value: self.environment.encode_value(),
            },
        );
        members.push(
            JsonMember {
                key: String::from_str("forkConfig"),
                value: self.fork_config.encode_value(),
            },
        );
        proof {
            assert(members_view(members@) =~= spec_node_info_members(self.deep_view()));
        }
        JsonValue::Obj(members)
    }

    /// Decodes a node descriptor, as `spec_decode_node_info` describes.
    pub fn decode_value(v: &JsonValue) -> (r: Result<NodeInfo, DecodeError>)
        ensures
            match r {
                Ok(n) => spec_decode_node_info(jval_of(*v)) == Ok::<NodeInfoV, ErrV>(n.deep_view()),
                Err(e) => spec_decode_node_info(jval_of(*v)) == Err::<NodeInfoV, ErrV>(
                    e.deep_view(),
                ),
            },
    {
        match v {
            JsonValue::Obj(members) => {
                let block = match u64_quantity_field(
                    obj_get(members, "currentBlockNumber"),
                    "currentBlockNumber",
                ) {
                    Ok(n) => n,
                    Err(e) => {
                        return Err(e);
                    },
                };
                let ts = match u64_required_field(
                    obj_get(members, "currentBlockTimestamp"),
                    "currentBlockTimestamp",
                ) {
                    Ok(n) => n,
                    Err(e) => {
                        return Err(e);
                    },
                };
                let hash = match crate::words::decode_b256(
                    obj_get(members, "currentBlockHash"),
                    "currentBlockHash",
                ) {
                    Ok(h) => h,
                    Err(e) => {
                        return Err(e);
                    },
                };
                let fork = match string_required_field(obj_get(members, "hardFork"), "hardFork") {
                    Ok(s) => s,
                    Err(e) => {
                        return Err(e);
                    },
                };
                let order = match string_required_field(
                    obj_get(members, "transactionOrder"),
                    "transactionOrder",
                ) {
                    Ok(s) => s,
                    Err(e) => {
                        return Err(e);
                    },
                };
                let env = match obj_get(members, "environment") {
                    Option::Some(ev) => match NodeEnvironment::decode_value(ev) {
                        Ok(env) => env,
                        Err(e) => {
                            return Err(e);
                        },
                    },
                    Option::None => {
                        return Err(DecodeError::Field { key: String::from_str("environment") });
                    },
                };
                let fc = match obj_get(members, "forkConfig") {
                    Option::Some(fv) => match NodeForkConfig::decode_value(fv) {
                        Ok(fc) => fc,
                        Err(e) => {
                            return Err(e);
                        },
                    },
                    Option::None => {
                        return Err(DecodeError::Field { key: String::from_str("forkConfig") });
                    },
                };
                Ok(
                    NodeInfo {
                        current_block_number: block,
                        current_block_timestamp: ts,
                        current_block_hash: hash,
                        hard_fork: fork,
                        transaction_order: order,
                        environment: env,
                        fork_config: fc,
                    },
                )
            },
            _ => Err(DecodeError::Shape { kind: ParamKind::NodeInfo }),
        }
    }
}

/// Decoding an encoded node descriptor gives the descriptor back.
pub proof fn lemma_node_info_round_trip(n: NodeInfoV)
    requires
        n.wf(),
    ensures
        spec_decode_node_info(spec_encode_node_info(n)) == Ok::<NodeInfoV, ErrV>(n),
{
    reveal_strlit("currentBlockNumber");
    reveal_strlit("currentBlockTimestamp");
    reveal_strlit("currentBlockHash");
    reveal_strlit("hardFork");
    reveal_strlit("transactionOrder");
    reveal_strlit("environment");
    reveal_strlit("forkConfig");
    let k1 = "currentBlockNumber"@;
    let k2 = "currentBlockTimestamp"@;
    let k3 = "currentBlockHash"@;
    let k4 = "hardFork"@;
    let k5 = "transactionOrder"@;
    let k6 = "environment"@;
    let k7 = "forkConfig"@;
    assert(k1.len() == 18);
    assert(k2.len() == 21);
    assert(k3.len() == 16);
    assert(k4.len() == 8);
    assert(k5.len() == 16);
    assert(k6.len() == 11);
    assert(k7.len() == 10);
    assert(k3[0] == 'c' && k5[0] == 't');
    let v1 = Option::Some(JVal::Str(crate::render::hex_text_of(n.current_block_number as nat)));
    let v2 = Option::Some(JVal::Num(n.current_block_timestamp));
    let v3 = Option::Some(JVal::Str(crate::render::bytes_hex_text(n.current_block_hash)));
    let v4 = Option::Some(JVal::Str(n.hard_fork));
    let v5 = Option::Some(JVal::Str(n.transaction_order));
    let v6 = Option::Some(spec_encode_node_env(n.environment));
    let v7 = Option::Some(spec_encode_fork_config(n.fork_config));
    let s1 = opt_member(k1, v1);
    let s2 = opt_member(k2, v2);
    let s3 = opt_member(k3, v3);
    let s4 = opt_member(k4, v4);
    let s5 = opt_member(k5, v5);
    let s6 = opt_member(k6, v6);
    let s7 = opt_member(k7, v7);
    let o = spec_node_info_members(n);
    assert(o == (((((s1 + s2) + s3) + s4) + s5) + s6) + s7);
    let keys = seq![k1, k2, k3, k4, k5, k6, k7];
    let segs = seq![s1, s2, s3, s4, s5, s6, s7];
    let vals = seq![v1, v2, v3, v4, v5, v6, v7];
    assert forall|i: int, j: int| 0 <= i < 7 && 0 <= j < 7 && i != j implies jobj_lookup(
        segs[j],
        keys[i],
    ) is None by {
        lemma_lookup_opt_member_other(keys[j], vals[j], keys[i]);
    }
    assert forall|i: int| 0 <= i < 7 implies jobj_lookup(segs[i], keys[i]) == vals[i] by {
        lemma_lookup_opt_member_same(keys[i], vals[i]);
    }
    assert forall|i: int| 0 <= i < 7 implies jobj_lookup(o, keys[i]) == vals[i] by {
        lemma_jobj_lookup_concat((((((s1 + s2) + s3) + s4) + s5) + s6), s7, keys[i]);
        lemma_jobj_lookup_concat(((((s1 + s2) + s3) + s4) + s5), s6, keys[i]);
        lemma_jobj_lookup_concat((((s1 + s2) + s3) + s4), s5, keys[i]);
        lemma_jobj_lookup_concat(((s1 + s2) + s3), s4, keys[i]);
        lemma_jobj_lookup_concat((s1 + s2), s3, keys[i]);
        lemma_jobj_lookup_concat(s1, s2, keys[i]);
    }
    assert(jobj_lookup(o, k1) == v1);
    assert(jobj_lookup(o, k2) == v2);
    assert(jobj_lookup(o, k3) == v3);
    assert(jobj_lookup(o, k4) == v4);
    assert(jobj_lookup(o, k5) == v5);
    assert(jobj_lookup(o, k6) == v6);
    assert(jobj_lookup(o, k7) == v7);
    crate::render::lemma_scalar_text_round_trip(n.current_block_number);
    crate::words::lemma_bytes_text_round_trip(n.current_block_hash, k3);
    lemma_node_env_round_trip(n.environment);
    lemma_fork_config_round_trip(n.fork_config);
}

/// Lookup distribution over a four-part concatenation.
pub proof fn lemma_lookup_concat4(
    a: Seq<(Seq<char>, JVal)>,
    b: Seq<(Seq<char>, JVal)>,
    d: Seq<(Seq<char>, JVal)>,
    f: Seq<(Seq<char>, JVal)>,
    key: Seq<char>,
)
    ensures
        jobj_lookup(((a + b) + d) + f, key) == match jobj_lookup(a, key) {
            Option::Some(v) => Option::Some(v),
            Option::None => match jobj_lookup(b, key) {
                Option::Some(v) => Option::Some(v),
                Option::None => match jobj_lookup(d, key) {
                    Option::Some(v) => Option::Some(v),
                    Option::None => jobj_lookup(f, key),
                },
            },
        },
{
    lemma_jobj_lookup_concat((a + b) + d, f, key);
    lemma_jobj_lookup_concat(a + b, d, key);
    lemma_jobj_lookup_concat(a, b, key);
}

/// Decoding an encoded fork configuration gives the configuration back,
/// for every value whose backoff fits the number width of the wire.
pub proof fn lemma_fork_config_round_trip(c: NodeForkConfigV)
    requires
        c.wf(),
    ensures
        spec_decode_fork_config(spec_encode_fork_config(c)) == Ok::<NodeForkConfigV, ErrV>(c),
{
    reveal_strlit("forkUrl");
    reveal_strlit("forkBlockNumber");
    reveal_strlit("forkRetryBackoff");
    let k1 = "forkUrl"@;
    let k2 = "forkBlockNumber"@;
    let k3 = "forkRetryBackoff"@;
    assert(k1.len() == 7);
    assert(k2.len() == 15);
    assert(k3.len() == 16);
    let v1 = match c.fork_url {
        Option::Some(u) => Option::Some(JVal::Str(u)),
        Option::None => Option::<JVal>::None,
    };
    let v2 = match c.fork_block_number {
        Option::Some(n) => Option::Some(JVal::Num(n)),
        Option::None => Option::<JVal>::None,
    };
    let v3 = match c.fork_retry_backoff {
        Option::Some(n) => Option::Some(JVal::Num(n as u64)),
        Option::None => Option::<JVal>::None,
    };
    let a = opt_member(k1, v1);
    let b = opt_member(k2, v2);
    let d = opt_member(k3, v3);
    let o = spec_fork_config_members(c);
    assert(o == (a + b) + d);
    lemma_jobj_lookup_concat(a + b, d, k1);
    lemma_jobj_lookup_concat(a, b, k1);
    lemma_lookup_opt_member_same(k1, v1);
    lemma_lookup_opt_member_other(k2, v2, k1);
    lemma_lookup_opt_member_other(k3, v3, k1);
    assert(jobj_lookup(o, k1) == v1);
    lemma_jobj_lookup_concat(a + b, d, k2);
    lemma_jobj_lookup_concat(a, b, k2);
    lemma_lookup_opt_member_other(k1, v1, k2);
    lemma_lookup_opt_member_same(k2, v2);
    lemma_lookup_opt_member_other(k3, v3, k2);
    assert(jobj_lookup(o, k2) == v2);
    lemma_jobj_lookup_concat(a + b, d, k3);
    lemma_jobj_lookup_concat(a, b, k3);
    lemma_lookup_opt_member_other(k1, v1, k3);
    lemma_lookup_opt_member_other(k2, v2, k3);
    lemma_lookup_opt_member_same(k3, v3);
    assert(jobj_lookup(o, k3) == v3);
}

} // verus!
