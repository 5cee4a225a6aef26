//! The variant parameter decoders and the typed values they produce:
//! forking directives, mining options and positional indexes, each of
//! which may legally arrive in more than one JSON shape. The accepted
//! shapes are tried in a fixed priority order and the first structural
//! match commits; a value that matches no shape fails with an error
//! naming the parameter kind.

use vstd::prelude::*;
use crate::json::{jobj_lookup, jval_of, members_view, obj_get, JVal, JsonMember, JsonValue};
use crate::scalar::{scalar_u64_result, scalar_usize_result, ScalarErrorKind};

verus! {

/// The parameter kinds a decode error can name.
#[derive(Clone, Copy, Debug, PartialEq, Eq, Structural)]
pub enum ParamKind {
    Forking,
    MineOptions,
    Index,
    Work,
    NodeInfo,
    NodeEnvironment,
    NodeForkConfig,
    Metadata,
    ForkedNetwork,
    Bundle,
    Transaction,
}

/// Why a decode failed: the top-level shape matched no candidate, a
/// stringified integer was bad hex or bad decimal, or a sub-field of a
/// matched shape had the wrong JSON type.
#[derive(Clone, Debug, PartialEq, Eq)]
pub enum DecodeError {
    /// the value's top-level type matches no accepted shape of the kind
    Shape { kind: ParamKind },
    /// the text after a `0x` prefix failed to parse as hex
    HexParse { text: String },
    /// the text failed to parse as decimal
    DecParse { text: String },
    /// the named sub-field is missing or of the wrong JSON type
    Field { key: String },
}

/// The mathematical shape of a decode error.
pub enum ErrV {
    Shape(ParamKind),
    Hex(Seq<char>),
    Dec(Seq<char>),
    Field(Seq<char>),
}

impl DeepView for DecodeError {
    type V = ErrV;

    open spec fn deep_view(&self) -> ErrV {
        match self {
            DecodeError::Shape { kind } => ErrV::Shape(*kind),
            DecodeError::HexParse { text } => ErrV::Hex(text@),
            DecodeError::DecParse { text } => ErrV::Dec(text@),
            DecodeError::Field { key } => ErrV::Field(key@),
        }
    }
}

/// What an optional stringified-integer field must decode to: absent or
/// null is no value; a number stands as it is; a string is read as
/// `0x`-prefixed hex or as decimal; anything else is a field error.
pub open spec fn spec_u64_stringified(f: Option<JVal>, key: Seq<char>) -> Result<
    Option<u64>,
    ErrV,
> {
    match f {
        Option::None => Ok(Option::None),
        Option::Some(JVal::Null) => Ok(Option::None),
        Option::Some(JVal::Num(n)) => Ok(Option::Some(n)),
        Option::Some(JVal::Str(s)) => match scalar_u64_result(s) {
            Ok(n) => Ok(Option::Some(n)),
            Err(ScalarErrorKind::Hex) => Err(ErrV::Hex(s)),
            Err(ScalarErrorKind::Dec) => Err(ErrV::Dec(s)),
        },
        Option::Some(_) => Err(ErrV::Field(key)),
    }
}

/// What an optional plain-number field must decode to: absent or null is
/// no value; only a JSON number is accepted otherwise.
pub open spec fn spec_u64_plain(f: Option<JVal>, key: Seq<char>) -> Result<Option<u64>, ErrV> {
    match f {
        Option::None => Ok(Option::None),
        Option::Some(JVal::Null) => Ok(Option::None),
        Option::Some(JVal::Num(n)) => Ok(Option::Some(n)),
        Option::Some(_) => Err(ErrV::Field(key)),
    }
}

/// What an optional string field must decode to.
pub open spec fn spec_string_field(f: Option<JVal>, key: Seq<char>) -> Result<
    Option<Seq<char>>,
    ErrV,
> {
    match f {
        Option::None => Ok(Option::None),
        Option::Some(JVal::Null) => Ok(Option::None),
        Option::Some(JVal::Str(s)) => Ok(Option::Some(s)),
        Option::Some(_) => Err(ErrV::Field(key)),
    }
}

/// Decodes an optional stringified-integer field, as
/// `spec_u64_stringified` describes.
pub fn u64_stringified_field(f: Option<&JsonValue>, key: &str) -> (r: Result<
    Option<u64>,
    DecodeError,
>)
    ensures
        match r {
            Ok(v) => spec_u64_stringified(f.deep_view(), key@) == Ok::<Option<u64>, ErrV>(v),
            Err(e) => spec_u64_stringified(f.deep_view(), key@) == Err::<Option<u64>, ErrV>(
                e.deep_view(),
            ),
        },
{
    match f {
        Option::None => Ok(Option::None),
        Option::Some(JsonValue::Null) => Ok(Option::None),
        Option::Some(JsonValue::Num(n)) => Ok(Option::Some(*n)),
        Option::Some(JsonValue::Str(s)) => match crate::scalar::parse_scalar_u64(s.as_str()) {
            Ok(n) => Ok(Option::Some(n)),
            Err(ScalarErrorKind::Hex) => Err(DecodeError::HexParse { text: s.clone() }),
            Err(ScalarErrorKind::Dec) => Err(DecodeError::DecParse { text: s.clone() }),
        },
        Option::Some(_) => Err(DecodeError::Field { key: String::from_str(key) }),
    }
}

/// Decodes an optional plain-number field, as `spec_u64_plain` describes.
pub fn u64_plain_field(f: Option<&JsonValue>, key: &str) -> (r: Result<Option<u64>, DecodeError>)
    ensures
        match r {
            Ok(v) => spec_u64_plain(f.deep_view(), key@) == Ok::<Option<u64>, ErrV>(v),
            Err(e) => spec_u64_plain(f.deep_view(), key@) == Err::<Option<u64>, ErrV>(
                e.deep_view(),
            ),
        },
{
    match f {
        Option::None => Ok(Option::None),
        Option::Some(JsonValue::Null) => Ok(Option::None),
        Option::Some(JsonValue::Num(n)) => Ok(Option::Some(*n)),
        Option::Some(_) => Err(DecodeError::Field { key: String::from_str(key) }),
    }
}

/// Decodes an optional string field, as `spec_string_field` describes.
pub fn string_field(f: Option<&JsonValue>, key: &str) -> (r: Result<Option<String>, DecodeError>)
    ensures
        match r {
            Ok(v) => spec_string_field(f.deep_view(), key@) == Ok::<Option<Seq<char>>, ErrV>(
                v.deep_view(),
            ),
            Err(e) => spec_string_field(f.deep_view(), key@) == Err::<Option<Seq<char>>, ErrV>(
                e.deep_view(),
            ),
        },
{
    match f {
        Option::None => Ok(Option::None),
        Option::Some(JsonValue::Null) => Ok(Option::None),
        Option::Some(JsonValue::Str(s)) => Ok(Option::Some(s.clone())),
        Option::Some(_) => Err(DecodeError::Field { key: String::from_str(key) }),
    }
}

/// What a required plain-number field must decode to: only a present
/// JSON number is accepted.
pub open spec fn spec_u64_required(f: Option<JVal>, key: Seq<char>) -> Result<u64, ErrV> {
    match f {
        Option::Some(JVal::Num(n)) => Ok(n),
        _ => Err(ErrV::Field(key)),
    }
}

/// What a required quantity field must decode to: a JSON number, or a
/// stringified integer in hex or decimal.
pub open spec fn spec_u64_quantity(f: Option<JVal>, key: Seq<char>) -> Result<u64, ErrV> {
    match f {
        Option::Some(JVal::Num(n)) => Ok(n),
        Option::Some(JVal::Str(s)) => match scalar_u64_result(s) {
            Ok(n) => Ok(n),
            Err(ScalarErrorKind::Hex) => Err(ErrV::Hex(s)),
            Err(ScalarErrorKind::Dec) => Err(ErrV::Dec(s)),
        },
        _ => Err(ErrV::Field(key)),
    }
}

/// What a required string field must decode to.
pub open spec fn spec_string_required(f: Option<JVal>, key: Seq<char>) -> Result<Seq<char>, ErrV> {
    match f {
        Option::Some(JVal::Str(s)) => Ok(s),
        _ => Err(ErrV::Field(key)),
    }
}

/// Decodes a required plain-number field, as `spec_u64_required`
/// describes.
pub fn u64_required_field(f: Option<&JsonValue>, key: &str) -> (r: Result<u64, DecodeError>)
    ensures
        match r {
            Ok(n) => spec_u64_required(f.deep_view(), key@) == Ok::<u64, ErrV>(n),
            Err(e) => spec_u64_required(f.deep_view(), key@) == Err::<u64, ErrV>(e.deep_view()),
        },
{
    match f {
        Option::Some(JsonValue::Num(n)) => Ok(*n),
        _ => Err(DecodeError::Field { key: String::from_str(key) }),
    }
}

/// Decodes a required quantity field, as `spec_u64_quantity` describes.
pub fn u64_quantity_field(f: Option<&JsonValue>, key: &str) -> (r: Result<u64, DecodeError>)
    ensures
        match r {
            Ok(n) => spec_u64_quantity(f.deep_view(), key@) == Ok::<u64, ErrV>(n),
            Err(e) => spec_u64_quantity(f.deep_view(), key@) == Err::<u64, ErrV>(e.deep_view()),
        },
{
    match f {
        Option::Some(JsonValue::Num(n)) => Ok(*n),
        Option::Some(JsonValue::Str(s)) => match crate::scalar::parse_scalar_u64(s.as_str()) {
            Ok(n) => Ok(n),
            Err(ScalarErrorKind::Hex) => Err(DecodeError::HexParse { text: s.clone() }),
            Err(ScalarErrorKind::Dec) => Err(DecodeError::DecParse { text: s.clone() }),
        },
        _ => Err(DecodeError::Field { key: String::from_str(key) }),
    }
}

/// Decodes a required string field, as `spec_string_required` describes.
pub fn string_required_field(f: Option<&JsonValue>, key: &str) -> (r: Result<String, DecodeError>)
    ensures
        match r {
            Ok(s) => spec_string_required(f.deep_view(), key@) == Ok::<Seq<char>, ErrV>(s@),
            Err(e) => spec_string_required(f.deep_view(), key@) == Err::<Seq<char>, ErrV>(
                e.deep_view(),
            ),
        },
{
    match f {
        Option::Some(JsonValue::Str(s)) => Ok(s.clone()),
        _ => Err(DecodeError::Field { key: String::from_str(key) }),
    }
}

/// A request to fork chain state from a remote endpoint; both the bare
/// field object and the form wrapped under a `forking` key decode to it.
#[derive(Clone, Debug, Default, PartialEq, Eq)]
pub struct Forking {
    pub json_rpc_url: Option<String>,
    pub block_number: Option<u64>,
}

/// The mathematical shape of a `Forking`.
pub struct ForkingV {
    pub json_rpc_url: Option<Seq<char>>,
    pub block_number: Option<u64>,
}

impl DeepView for Forking {
    type V = ForkingV;

    open spec fn deep_view(&self) -> ForkingV {
        ForkingV {
            json_rpc_url: self.json_rpc_url.deep_view(),
            block_number: self.block_number,
        }
    }
}

/// What the fields of a forking object must decode to: an optional
/// `jsonRpcUrl` string and an optional stringified `blockNumber`.
pub open spec fn spec_decode_fork_fields(o: Seq<(Seq<char>, JVal)>) -> Result<ForkingV, ErrV> {
    match spec_string_field(jobj_lookup(o, "jsonRpcUrl"@), "jsonRpcUrl"@) {
        Err(e) => Err(e),
        Ok(url) => match spec_u64_stringified(jobj_lookup(o, "blockNumber"@), "blockNumber"@) {
            Err(e) => Err(e),
            Ok(block) => Ok(ForkingV { json_rpc_url: url, block_number: block }),
        },
    }
}

/// What decoding a forking parameter must return. A JSON object whose
/// `forking` key holds an object commits to that nested object (the
/// tagged form); any other object is read bare (the untagged form);
/// anything but an object is a shape error.
pub open spec fn spec_decode_forking(v: JVal) -> Result<ForkingV, ErrV> {
    match v {
        JVal::Obj(o) => match jobj_lookup(o, "forking"@) {
            Option::Some(JVal::Obj(inner)) => spec_decode_fork_fields(inner),
            _ => spec_decode_fork_fields(o),
        },
        _ => Err(ErrV::Shape(ParamKind::Forking)),
    }
}

impl Forking {
    /// Decodes a forking parameter, as `spec_decode_forking` describes.
    pub fn decode_value(v: &JsonValue) -> (r: Result<Forking, DecodeError>)
        ensures
            match r {
                Ok(f) => spec_decode_forking(jval_of(*v)) == Ok::<ForkingV, ErrV>(f.deep_view()),
                Err(e) => spec_decode_forking(jval_of(*v)) == Err::<ForkingV, ErrV>(e.deep_view()),
            },
    {
        match v {
            JsonValue::Obj(members) => match obj_get(members, "forking") {
                Option::Some(JsonValue::Obj(inner)) => Self::decode_fields(inner),
                _ => Self::decode_fields(members),
            },
            _ => Err(DecodeError::Shape { kind: ParamKind::Forking }),
        }
    }

    /// Decodes the field object of a forking parameter, as
    /// `spec_decode_fork_fields` describes.
    pub fn decode_fields(members: &Vec<JsonMember>) -> (r: Result<Forking, DecodeError>)
        ensures
            match r {
                Ok(f) => spec_decode_fork_fields(members_view(members@)) == Ok::<ForkingV, ErrV>(
                    f.deep_view(),
                ),
                Err(e) => spec_decode_fork_fields(members_view(members@)) == Err::<
                    ForkingV,
                    ErrV,
                >(e.deep_view()),
            },
    {
        let url = match string_field(obj_get(members, "jsonRpcUrl"), "jsonRpcUrl") {
            Ok(u) => u,
            Err(e) => {
                return Err(e);
            },
        };
        let block = match u64_stringified_field(obj_get(members, "blockNumber"), "blockNumber") {
            Ok(b) => b,
            Err(e) => {
                return Err(e);
            },
        };
        Ok(Forking { json_rpc_url: url, block_number: block })
    }
}

/// Wrapping a forking field object under a `forking` key decodes exactly
/// as the bare object does, whenever the bare object does not itself
/// carry an object under `forking`.
pub proof fn lemma_forking_tagged_equals_untagged(o: Seq<(Seq<char>, JVal)>)
    requires
        !(jobj_lookup(o, "forking"@) matches Option::Some(JVal::Obj(_))),
    ensures
        spec_decode_forking(JVal::Obj(seq![("forking"@, JVal::Obj(o))])) == spec_decode_forking(
            JVal::Obj(o),
        ),
{
    let tagged = seq![("forking"@, JVal::Obj(o))];
    assert(jobj_lookup(tagged, "forking"@) == Option::Some(JVal::Obj(o)));
}

/// Options for how blocks are mined: either an options object with an
/// optional timestamp and block count, or a bare stringified timestamp.
#[derive(Clone, Debug, PartialEq, Eq)]
pub enum EvmMineOptions {
    Options { timestamp: Option<u64>, blocks: Option<u64> },
    /// the timestamp the block should be mined with
    Timestamp(Option<u64>),
}

impl Default for EvmMineOptions {
    fn default() -> (r: EvmMineOptions)
        ensures
            r == (EvmMineOptions::Options {
                timestamp: Option::<u64>::None,
                blocks: Option::<u64>::None,
            }),
    {
        EvmMineOptions::Options { timestamp: Option::None, blocks: Option::None }
    }
}

/// What decoding a mining-options parameter must return. An absent input
/// is the default options object; a JSON object commits to the options
/// form with optional `timestamp` and `blocks` fields; a bare null,
/// number or string is read as a stringified timestamp; anything else is
/// a shape error.
pub open spec fn spec_decode_mine(v: Option<JVal>) -> Result<EvmMineOptions, ErrV> {
    match v {
        Option::None => Ok(
            EvmMineOptions::Options { timestamp: Option::None, blocks: Option::None },
        ),
        Option::Some(JVal::Obj(o)) => match spec_u64_stringified(
            jobj_lookup(o, "timestamp"@),
            "timestamp"@,
        ) {
            Err(e) => Err(e),
            Ok(ts) => match spec_u64_plain(jobj_lookup(o, "blocks"@), "blocks"@) {
                Err(e) => Err(e),
                Ok(blocks) => Ok(EvmMineOptions::Options { timestamp: ts, blocks }),
            },
        },
        Option::Some(other) => match spec_u64_stringified(Option::Some(other), "timestamp"@) {
            Ok(ts) => Ok(EvmMineOptions::Timestamp(ts)),
            Err(ErrV::Field(_)) => Err(ErrV::Shape(ParamKind::MineOptions)),
            Err(e) => Err(e),
        },
    }
}

impl EvmMineOptions {
    /// Decodes a mining-options parameter, possibly absent, as
    /// `spec_decode_mine` describes.
    pub fn decode_value(v: Option<&JsonValue>) -> (r: Result<EvmMineOptions, DecodeError>)
        ensures
            match r {
                Ok(m) => spec_decode_mine(v.deep_view()) == Ok::<EvmMineOptions, ErrV>(m),
                Err(e) => spec_decode_mine(v.deep_view()) == Err::<EvmMineOptions, ErrV>(
                    e.deep_view(),
                ),
            },
    {
        match v {
            Option::None => Ok(
                EvmMineOptions::Options { timestamp: Option::None, blocks: Option::None },
            ),
            Option::Some(JsonValue::Obj(members)) => {
                let ts = match u64_stringified_field(obj_get(members, "timestamp"), "timestamp") {
                    Ok(t) => t,
                    Err(e) => {
                        return Err(e);
                    },
                };
                let blocks = match u64_plain_field(obj_get(members, "blocks"), "blocks") {
                    Ok(b) => b,
                    Err(e) => {
                        return Err(e);
                    },
                };
                Ok(EvmMineOptions::Options { timestamp: ts, blocks })
            },
            Option::Some(other) => match u64_stringified_field(Option::Some(other), "timestamp") {
                Ok(ts) => Ok(EvmMineOptions::Timestamp(ts)),
                Err(DecodeError::Field { key: _ }) => Err(
                    DecodeError::Shape { kind: ParamKind::MineOptions },
                ),
                Err(e) => Err(e),
            },
        }
    }
}

/// The result of a proof-of-work request: three 32-byte words, and the
/// block number when one is known.
#[derive(Debug, Default, PartialEq, Eq)]
pub struct Work {
    pub pow_hash: crate::words::B256,
    pub seed_hash: crate::words::B256,
    pub target: crate::words::B256,
    pub number: Option<u64>,
}

/// The mathematical shape of a `Work`.
pub struct WorkV {
    pub pow_hash: Seq<u8>,
    pub seed_hash: Seq<u8>,
    pub target: Seq<u8>,
    pub number: Option<u64>,
}

impl DeepView for Work {
    type V = WorkV;

    open spec fn deep_view(&self) -> WorkV {
        WorkV {
            pow_hash: self.pow_hash.deep_view(),
            seed_hash: self.seed_hash.deep_view(),
            target: self.target.deep_view(),
            number: self.number,
        }
    }
}

/// What encoding a `Work` must emit: the hex texts of the three words,
/// as a 3-element sequence when the block number is absent and a
/// 4-element sequence ending in the number's hex text when present. The
/// length itself tells consumers whether a number follows.
pub open spec fn spec_encode_work(w: WorkV) -> JVal {
    match w.number {
        Option::Some(n) => JVal::Arr(
            seq![
                JVal::Str(crate::render::bytes_hex_text(w.pow_hash)),
                JVal::Str(crate::render::bytes_hex_text(w.seed_hash)),
                JVal::Str(crate::render::bytes_hex_text(w.target)),
                JVal::Str(crate::render::hex_text_of(n as nat)),
            ],
        ),
        Option::None => JVal::Arr(
            seq![
                JVal::Str(crate::render::bytes_hex_text(w.pow_hash)),
                JVal::Str(crate::render::bytes_hex_text(w.seed_hash)),
                JVal::Str(crate::render::bytes_hex_text(w.target)),
            ],
        ),
    }
}

impl Work {
    /// Encodes this value for the wire, as `spec_encode_work` describes.
    pub fn encode_value(&self) -> (r: JsonValue)
        ensures
            jval_of(r) == spec_encode_work(self.deep_view()),
    {
        let mut elems: Vec<JsonValue> = Vec::new();
        elems.push(JsonValue::Str(crate::render::bytes_to_hex(&self.pow_hash.bytes)));
        elems.push(JsonValue::Str(crate::render::bytes_to_hex(&self.seed_hash.bytes)));
        elems.push(JsonValue::Str(crate::render::bytes_to_hex(&self.target.bytes)));
        if let Option::Some(n) = self.number {
            elems.push(JsonValue::Str(crate::render::u64_to_hex(n)));
        }
        proof {
            broadcast use crate::json::lemma_jvals_of_len, crate::json::lemma_jvals_of_index;

            match self.number {
                Option::Some(n) => {
                    assert(crate::json::jvals_of(elems@) =~= seq![
                        JVal::Str(crate::render::bytes_hex_text(self.pow_hash.bytes@)),
                        JVal::Str(crate::render::bytes_hex_text(self.seed_hash.bytes@)),
                        JVal::Str(crate::render::bytes_hex_text(self.target.bytes@)),
                        JVal::Str(crate::render::hex_text_of(n as nat)),
                    ]);
                },
                Option::None => {
                    assert(crate::json::jvals_of(elems@) =~= seq![
                        JVal::Str(crate::render::bytes_hex_text(self.pow_hash.bytes@)),
                        JVal::Str(crate::render::bytes_hex_text(self.seed_hash.bytes@)),
                        JVal::Str(crate::render::bytes_hex_text(self.target.bytes@)),
                    ]);
                },
            }
        }
        JsonValue::Arr(elems)
    }
}

/// Presence-conditional encoding of `Work`: with a block number the wire
/// form is the 4-element sequence ending in the number's hex text; without
/// one it is the 3-element sequence of the same first three elements.
pub proof fn lemma_work_presence_conditional(w: WorkV, n: u64)
    ensures
        spec_encode_work(WorkV { number: Option::Some(n), ..w }) == JVal::Arr(
            seq![
                JVal::Str(crate::render::bytes_hex_text(w.pow_hash)),
                JVal::Str(crate::render::bytes_hex_text(w.seed_hash)),
                JVal::Str(crate::render::bytes_hex_text(w.target)),
                JVal::Str(crate::render::hex_text_of(n as nat)),
            ],
        ),
        spec_encode_work(WorkV { number: Option::None, ..w }) == JVal::Arr(
            seq![
                JVal::Str(crate::render::bytes_hex_text(w.pow_hash)),
                JVal::Str(crate::render::bytes_hex_text(w.seed_hash)),
                JVal::Str(crate::render::bytes_hex_text(w.target)),
            ],
        ),
{
}

/// A hex encoded or decimal index.
#[derive(Clone, Copy, Debug, PartialEq, Eq, Hash, Structural)]
pub struct Index(pub usize);

impl From<Index> for usize {
    fn from(idx: Index) -> (r: usize) {
        idx.0
    }
}

impl vstd::std_specs::convert::FromSpecImpl<Index> for usize {
    open spec fn obeys_from_spec() -> bool {
        true
    }

    open spec fn from_spec(idx: Index) -> usize {
        idx.0
    }
}

/// What decoding an index must return: a JSON number stands as it is
/// (truncated to the machine word, as positions are); a string is read
/// as `0x`-prefixed hex or as decimal; anything else is a shape error.
pub open spec fn spec_decode_index(v: JVal) -> Result<Index, ErrV> {
    match v {
        JVal::Num(n) => Ok(Index(n as usize)),
        JVal::Str(s) => match scalar_usize_result(s) {
            Ok(n) => Ok(Index(n)),
            Err(ScalarErrorKind::Hex) => Err(ErrV::Hex(s)),
            Err(ScalarErrorKind::Dec) => Err(ErrV::Dec(s)),
        },
        _ => Err(ErrV::Shape(ParamKind::Index)),
    }
}

impl Index {
    /// Decodes an index parameter, as `spec_decode_index` describes.
    pub fn decode_value(v: &JsonValue) -> (r: Result<Index, DecodeError>)
        ensures
            match r {
                Ok(idx) => spec_decode_index(jval_of(*v)) == Ok::<Index, ErrV>(idx),
                Err(e) => spec_decode_index(jval_of(*v)) == Err::<Index, ErrV>(e.deep_view()),
            },
    {
        match v {
            JsonValue::Num(n) => Ok(Index(*n as usize)),
            JsonValue::Str(s) => match crate::scalar::parse_scalar_usize(s.as_str()) {
                Ok(n) => Ok(Index(n)),
                Err(ScalarErrorKind::Hex) => Err(DecodeError::HexParse { text: s.clone() }),
                Err(ScalarErrorKind::Dec) => Err(DecodeError::DecParse { text: s.clone() }),
            },
            _ => Err(DecodeError::Shape { kind: ParamKind::Index }),
        }
    }
}

} // verus!
