use anvil_core::bundle::SBundle;
use anvil_core::json::{JsonMember, JsonValue};
use anvil_core::metadata::{AnvilMetadata, ForkedNetwork, Snapshot};
use anvil_core::node::{NodeEnvironment, NodeForkConfig, NodeInfo};
use anvil_core::render::u64_to_hex;
use anvil_core::transaction::{capture_extra_fields, named_tx_key};
use anvil_core::types::{DecodeError, EvmMineOptions, Forking, Index, Work};
use anvil_core::words::{decode_address, Bytes, B256, U256};

fn obj(entries: Vec<(&str, JsonValue)>) -> JsonValue {
    JsonValue::Obj(
        entries
            .into_iter()
            .map(|(k, v)| JsonMember { key: k.to_string(), value: v })
            .collect(),
    )
}

fn s(text: &str) -> JsonValue {
    JsonValue::Str(text.to_string())
}

fn from_serde(v: &serde_json::Value) -> JsonValue {
    match v {
        serde_json::Value::Null => JsonValue::Null,
        serde_json::Value::Bool(b) => JsonValue::Bool(*b),
        serde_json::Value::Number(n) => JsonValue::Num(n.as_u64().unwrap()),
        serde_json::Value::String(t) => JsonValue::Str(t.clone()),
        serde_json::Value::Array(a) => JsonValue::Arr(a.iter().map(from_serde).collect()),
        serde_json::Value::Object(o) => JsonValue::Obj(
            o.iter()
                .map(|(k, v)| JsonMember { key: k.clone(), value: from_serde(v) })
                .collect(),
        ),
    }
}

fn b256_of(byte: u8) -> B256 {
    B256 { bytes: vec![byte; 32] }
}

#[test]
fn serde_forking() {
    let s = r#"{"forking": {"jsonRpcUrl": "https://ethereumpublicnode.com",
        "blockNumber": "18441649"
      }
    }"#;
    let parsed: serde_json::Value = serde_json::from_str(s).unwrap();
    let f = Forking::decode_value(&from_serde(&parsed)).unwrap();
    assert_eq!(
        f,
        Forking {
            json_rpc_url: Some("https://ethereumpublicnode.com".into()),
            block_number: Some(18441649)
        }
    );
}

#[test]
fn forking_untagged_matches_tagged() {
    fn fields() -> Vec<(&'static str, JsonValue)> {
        vec![
            ("jsonRpcUrl", s("https://ethereumpublicnode.com")),
            ("blockNumber", s("18441649")),
        ]
    }
    let untagged = obj(fields());
    let tagged = obj(vec![("forking", obj(fields()))]);
    let a = Forking::decode_value(&untagged).unwrap();
    let b = Forking::decode_value(&tagged).unwrap();
    assert_eq!(a, b);
    assert_eq!(a.block_number, Some(18441649));
}

#[test]
fn forking_rejects_non_object() {
    let r = Forking::decode_value(&JsonValue::Arr(vec![]));
    assert!(matches!(r, Err(DecodeError::Shape { .. })));
}

#[test]
fn forking_bad_block_number_is_scalar_error() {
    let v = obj(vec![("blockNumber", s("0xzz"))]);
    let r = Forking::decode_value(&v);
    assert!(matches!(r, Err(DecodeError::HexParse { .. })));
    let v = obj(vec![("blockNumber", s("not-a-number"))]);
    let r = Forking::decode_value(&v);
    assert!(matches!(r, Err(DecodeError::DecParse { .. })));
}

#[test]
fn index_accepts_all_three_forms() {
    let a = Index::decode_value(&JsonValue::Num(26)).unwrap();
    let b = Index::decode_value(&s("26")).unwrap();
    let c = Index::decode_value(&s("0x1a")).unwrap();
    assert_eq!(usize::from(a), 26);
    assert_eq!(usize::from(b), 26);
    assert_eq!(usize::from(c), 26);
}

#[test]
fn index_rejects_bad_text() {
    assert!(matches!(
        Index::decode_value(&s("-5")),
        Err(DecodeError::DecParse { .. })
    ));
    assert!(matches!(
        Index::decode_value(&s("zz")),
        Err(DecodeError::DecParse { .. })
    ));
    assert!(matches!(
        Index::decode_value(&s("0xgg")),
        Err(DecodeError::HexParse { .. })
    ));
    assert!(matches!(
        Index::decode_value(&JsonValue::Bool(true)),
        Err(DecodeError::Shape { .. })
    ));
}

#[test]
fn scalar_text_round_trips() {
    for n in [0u64, 1, 9, 15, 16, 123, 1690000000, u64::MAX] {
        let dec = n.to_string();
        let idx = Index::decode_value(&s(&dec)).unwrap();
        assert_eq!(usize::from(idx), n as usize);
        let hex = u64_to_hex(n);
        let idx = Index::decode_value(&s(&hex)).unwrap();
        assert_eq!(usize::from(idx), n as usize);
    }
    assert_eq!(u64_to_hex(123), "0x7b");
    assert_eq!(u64_to_hex(0), "0x0");
}

#[test]
fn mine_options_absent_is_default() {
    let d = EvmMineOptions::decode_value(None).unwrap();
    assert_eq!(d, EvmMineOptions::default());
    assert_eq!(
        d,
        EvmMineOptions::Options {
            timestamp: None,
            blocks: None
        }
    );
}

#[test]
fn mine_options_bare_timestamp() {
    let t = EvmMineOptions::decode_value(Some(&s("1690000000"))).unwrap();
    assert_eq!(t, EvmMineOptions::Timestamp(Some(1690000000)));
    let t = EvmMineOptions::decode_value(Some(&JsonValue::Num(1690000000))).unwrap();
    assert_eq!(t, EvmMineOptions::Timestamp(Some(1690000000)));
    let t = EvmMineOptions::decode_value(Some(&JsonValue::Null)).unwrap();
    assert_eq!(t, EvmMineOptions::Timestamp(None));
}

#[test]
fn mine_options_object_form() {
    let v = obj(vec![("blocks", JsonValue::Num(3))]);
    let t = EvmMineOptions::decode_value(Some(&v)).unwrap();
    assert_eq!(
        t,
        EvmMineOptions::Options {
            timestamp: None,
            blocks: Some(3)
        }
    );
    let v = obj(vec![
        ("timestamp", s("1690000000")),
        ("blocks", JsonValue::Num(5)),
    ]);
    let t = EvmMineOptions::decode_value(Some(&v)).unwrap();
    assert_eq!(
        t,
        EvmMineOptions::Options {
            timestamp: Some(1690000000),
            blocks: Some(5)
        }
    );
}

#[test]
fn mine_options_rejects_array() {
    let r = EvmMineOptions::decode_value(Some(&JsonValue::Arr(vec![])));
    assert!(matches!(r, Err(DecodeError::Shape { .. })));
}

#[test]
fn work_encodes_three_or_four_elements() {
    let work = Work {
        pow_hash: b256_of(0x11),
        seed_hash: b256_of(0x22),
        target: b256_of(0x33),
        number: Some(123),
    };
    let with_number = work.encode_value();
    let without = Work {
        number: None,
        ..work
    }
    .encode_value();
    match (&with_number, &without) {
        (JsonValue::Arr(a), JsonValue::Arr(b)) => {
            assert_eq!(a.len(), 4);
            assert_eq!(b.len(), 3);
            assert_eq!(&a[..3], &b[..]);
            assert_eq!(a[3], s("0x7b"));
            let expected = format!("0x{}", "11".repeat(32));
            assert_eq!(a[0], s(&expected));
        }
        _ => panic!("work must encode as an array"),
    }
}

#[test]
fn bundle_round_trips() {
    let bundle = SBundle {
        block_number: Some(U256::from_u64(1)),
        max_block: Some(U256::from_u64(5)),
        transactions: vec![Bytes {
            data: vec![0xde, 0xad, 0xbe, 0xef],
        }],
        reverting_hashes: Some(vec![b256_of(0xaa)]),
    };
    let encoded = bundle.encode_value();
    let decoded = SBundle::decode_value(&encoded).unwrap();
    assert_eq!(decoded, bundle);
}

#[test]
fn bundle_decodes_wire_shape() {
    let v = obj(vec![
        ("txs", JsonValue::Arr(vec![s("0xdeadbeef")])),
        ("revertingHashes", JsonValue::Arr(vec![])),
        ("blockNumber", s("0x1")),
        ("maxBlock", s("0x5")),
    ]);
    let b = SBundle::decode_value(&v).unwrap();
    assert_eq!(b.block_number, Some(U256::from_u64(1)));
    assert_eq!(b.max_block, Some(U256::from_u64(5)));
    assert_eq!(b.transactions.len(), 1);
    assert_eq!(b.transactions[0].data, vec![0xde, 0xad, 0xbe, 0xef]);
    assert_eq!(b.reverting_hashes, Some(vec![]));
}

#[test]
fn bundle_omits_absent_fields() {
    let empty = SBundle::decode_value(&obj(vec![])).unwrap();
    assert_eq!(empty, SBundle::default());
    let encoded = SBundle::default().encode_value();
    assert_eq!(encoded, obj(vec![]));
}

#[test]
fn bundle_rejects_odd_hex() {
    let v = obj(vec![("txs", JsonValue::Arr(vec![s("0xabc")]))]);
    assert!(matches!(
        SBundle::decode_value(&v),
        Err(DecodeError::HexParse { .. })
    ));
}

#[test]
fn u256_decode_forms_agree() {
    let v = obj(vec![("blockNumber", s("26"))]);
    let a = SBundle::decode_value(&v).unwrap().block_number.unwrap();
    let v = obj(vec![("blockNumber", s("0x1a"))]);
    let b = SBundle::decode_value(&v).unwrap().block_number.unwrap();
    let v = obj(vec![("blockNumber", JsonValue::Num(26))]);
    let c = SBundle::decode_value(&v).unwrap().block_number.unwrap();
    assert_eq!(a, b);
    assert_eq!(b, c);
    assert_eq!(a, U256::from_u64(26));
    let v = obj(vec![("blockNumber", s("0x001a"))]);
    let stripped = SBundle::decode_value(&v).unwrap().block_number.unwrap();
    assert_eq!(stripped, U256::from_u64(26));
}

#[test]
fn node_fork_config_round_trips() {
    let config = NodeForkConfig {
        fork_url: Some("https://ethereumpublicnode.com".into()),
        fork_block_number: Some(18441649),
        fork_retry_backoff: Some(1500),
    };
    let decoded = NodeForkConfig::decode_value(&config.encode_value()).unwrap();
    assert_eq!(decoded, config);
    let empty = NodeForkConfig::default();
    assert_eq!(empty.encode_value(), obj(vec![]));
    assert_eq!(
        NodeForkConfig::decode_value(&empty.encode_value()).unwrap(),
        empty
    );
}

#[test]
fn node_environment_round_trips() {
    let env = NodeEnvironment {
        base_fee: U256::from_u64(875000000),
        chain_id: 31337,
        gas_limit: U256::from_u64(30000000),
        gas_price: U256::from_u64(1250000000),
    };
    let encoded = env.encode_value();
    let decoded = NodeEnvironment::decode_value(&encoded).unwrap();
    assert_eq!(decoded, env);
    assert!(matches!(
        NodeEnvironment::decode_value(&obj(vec![])),
        Err(DecodeError::Field { .. })
    ));
}

#[test]
fn node_info_round_trips() {
    let info = NodeInfo {
        current_block_number: 18441649,
        current_block_timestamp: 1690000000,
        current_block_hash: b256_of(0x42),
        hard_fork: "shanghai".into(),
        transaction_order: "fees".into(),
        environment: NodeEnvironment {
            base_fee: U256::from_u64(7),
            chain_id: 31337,
            gas_limit: U256::from_u64(30000000),
            gas_price: U256::from_u64(0),
        },
        fork_config: NodeForkConfig::default(),
    };
    let decoded = NodeInfo::decode_value(&info.encode_value()).unwrap();
    assert_eq!(decoded, info);
}

#[test]
fn forked_network_round_trips() {
    let net = ForkedNetwork {
        chain_id: 1,
        fork_block_number: 18441649,
        fork_block_hash: b256_of(0x99),
    };
    let decoded = ForkedNetwork::decode_value(&net.encode_value()).unwrap();
    assert_eq!(decoded, net);
}

#[test]
fn metadata_round_trips_with_ordered_snapshots() {
    let meta = AnvilMetadata {
        client_version: "anvil/v0.2.0".into(),
        chain_id: 31337,
        instance_id: b256_of(0x01),
        latest_block_number: 7,
        latest_block_hash: b256_of(0x02),
        forked_network: Some(ForkedNetwork {
            chain_id: 1,
            fork_block_number: 18441649,
            fork_block_hash: b256_of(0x03),
        }),
        snapshots: vec![
            Snapshot {
                id: U256::from_u64(1),
                block_number: 5,
                block_hash: b256_of(0x04),
            },
            Snapshot {
                id: U256::from_u64(26),
                block_number: 6,
                block_hash: b256_of(0x05),
            },
        ],
    };
    let decoded = AnvilMetadata::decode_value(&meta.encode_value()).unwrap();
    assert_eq!(decoded, meta);
}

#[test]
fn metadata_rejects_unordered_snapshots() {
    let meta = AnvilMetadata {
        client_version: "anvil/v0.2.0".into(),
        chain_id: 31337,
        instance_id: b256_of(0x01),
        latest_block_number: 7,
        latest_block_hash: b256_of(0x02),
        forked_network: None,
        snapshots: vec![
            Snapshot {
                id: U256::from_u64(26),
                block_number: 6,
                block_hash: b256_of(0x05),
            },
            Snapshot {
                id: U256::from_u64(1),
                block_number: 5,
                block_hash: b256_of(0x04),
            },
        ],
    };
    // encode in stored order, then decoding rejects the descending keys
    let encoded = meta.encode_value();
    assert!(matches!(
        AnvilMetadata::decode_value(&encoded),
        Err(DecodeError::Field { .. })
    ));
}

#[test]
fn forking_null_fields_are_absent() {
    let v = obj(vec![
        ("jsonRpcUrl", JsonValue::Null),
        ("blockNumber", JsonValue::Null),
    ]);
    let f = Forking::decode_value(&v).unwrap();
    assert_eq!(f, Forking::default());
    let f = Forking::decode_value(&obj(vec![])).unwrap();
    assert_eq!(f, Forking::default());
}

#[test]
fn forking_tag_must_hold_an_object() {
    // a non-object under the tag key falls back to the untagged form,
    // where the stray key is simply ignored
    let v = obj(vec![
        ("forking", s("not-an-object")),
        ("blockNumber", s("0x1a")),
    ]);
    let f = Forking::decode_value(&v).unwrap();
    assert_eq!(f.block_number, Some(26));
}

#[test]
fn mine_options_hex_timestamp() {
    let v = obj(vec![("timestamp", s("0x64"))]);
    let t = EvmMineOptions::decode_value(Some(&v)).unwrap();
    assert_eq!(
        t,
        EvmMineOptions::Options {
            timestamp: Some(100),
            blocks: None
        }
    );
    // blocks takes only a plain number, as the wire format has it
    let v = obj(vec![("blocks", s("3"))]);
    assert!(matches!(
        EvmMineOptions::decode_value(Some(&v)),
        Err(DecodeError::Field { .. })
    ));
}

#[test]
fn fork_config_backoff_at_number_width() {
    let config = NodeForkConfig {
        fork_url: None,
        fork_block_number: None,
        fork_retry_backoff: Some(u64::MAX as u128),
    };
    let decoded = NodeForkConfig::decode_value(&config.encode_value()).unwrap();
    assert_eq!(decoded, config);
}

#[test]
fn metadata_minimal_round_trips() {
    let meta = AnvilMetadata {
        client_version: "anvil/v0.2.0".into(),
        chain_id: 31337,
        instance_id: b256_of(0x01),
        latest_block_number: 0,
        latest_block_hash: b256_of(0x00),
        forked_network: None,
        snapshots: vec![],
    };
    let decoded = AnvilMetadata::decode_value(&meta.encode_value()).unwrap();
    assert_eq!(decoded, meta);
}

#[test]
fn bundle_rejects_short_hash() {
    let v = obj(vec![(
        "revertingHashes",
        JsonValue::Arr(vec![s("0x1234")]),
    )]);
    assert!(matches!(
        SBundle::decode_value(&v),
        Err(DecodeError::HexParse { .. })
    ));
}

#[test]
fn extra_fields_are_captured_verbatim() {
    let members = vec![
        JsonMember {
            key: "hash".to_string(),
            value: s("0xabc"),
        },
        JsonMember {
            key: "l1BlockNumber".to_string(),
            value: s("0x1a"),
        },
        JsonMember {
            key: "nonce".to_string(),
            value: JsonValue::Num(7),
        },
        JsonMember {
            key: "queueOrigin".to_string(),
            value: s("sequencer"),
        },
    ];
    let (named, extra) = capture_extra_fields(members);
    assert_eq!(
        named.iter().map(|m| m.key.as_str()).collect::<Vec<_>>(),
        vec!["hash", "nonce"]
    );
    assert_eq!(
        extra.iter().map(|m| m.key.as_str()).collect::<Vec<_>>(),
        vec!["l1BlockNumber", "queueOrigin"]
    );
    assert_eq!(extra[0].value, s("0x1a"));
    assert_eq!(extra[1].value, s("sequencer"));
}

#[test]
fn address_text_is_twenty_bytes() {
    let text = s(&format!("0x{}", "ab".repeat(20)));
    let a = decode_address(Some(&text), "from").unwrap();
    assert_eq!(a.bytes, vec![0xab; 20]);
    let short = s("0xabcd");
    assert!(matches!(
        decode_address(Some(&short), "from"),
        Err(DecodeError::HexParse { .. })
    ));
    assert!(matches!(
        decode_address(None, "from"),
        Err(DecodeError::Field { .. })
    ));
}

#[test]
fn signature_keys_belong_to_named_fields() {
    for key in ["r", "s", "v", "yParity", "type", "accessList"] {
        assert!(named_tx_key(key));
    }
    for key in ["l1BlockNumber", "mint", "sourceHash"] {
        assert!(!named_tx_key(key));
    }
}

#[test]
fn b256_text_must_be_full_width() {
    let v = obj(vec![("currentBlockHash", s("0x1234"))]);
    // shape probing through NodeInfo: the hash field rejects short text
    let v = match v {
        JsonValue::Obj(mut members) => {
            members.insert(
                0,
                JsonMember {
                    key: "currentBlockNumber".to_string(),
                    value: JsonValue::Num(1),
                },
            );
            members.insert(
                1,
                JsonMember {
                    key: "currentBlockTimestamp".to_string(),
                    value: JsonValue::Num(1),
                },
            );
            JsonValue::Obj(members)
        }
        _ => unreachable!(),
    };
    assert!(matches!(
        NodeInfo::decode_value(&v),
        Err(DecodeError::HexParse { .. })
    ));
}
