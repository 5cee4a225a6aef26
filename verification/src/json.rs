//! A small model of JSON values, the input and output alphabet of the
//! codec. Numbers are unsigned 64-bit: every integer this protocol carries
//! as a JSON number fits that width, and wider quantities travel as
//! `0x`-prefixed hex strings.

use vstd::prelude::*;

verus! {

broadcast use vstd::std_specs::vec::axiom_vec_index_decreases, vstd::seq::axiom_seq_index_decreases;

/// One key/value entry of a JSON object. Entries keep their order; keys
/// are expected to be unique, as they are in any JSON text.
#[derive(Debug, PartialEq, Eq)]
pub struct JsonMember {
    pub key: String,
    pub value: JsonValue,
}

/// A JSON value.
#[derive(Debug, PartialEq, Eq)]
pub enum JsonValue {
    Null,
    Bool(bool),
    Num(u64),
    Str(String),
    Arr(Vec<JsonValue>),
    Obj(Vec<JsonMember>),
}

/// The mathematical shape of a JSON value: what contracts speak of.
pub enum JVal {
    Null,
    Bool(bool),
    Num(u64),
    Str(Seq<char>),
    Arr(Seq<JVal>),
    Obj(Seq<(Seq<char>, JVal)>),
}

/// The mathematical shape of a JSON value.
pub open spec fn jval_of(v: JsonValue) -> JVal
    decreases v,
{
    match v {
        JsonValue::Null => JVal::Null,
        JsonValue::Bool(b) => JVal::Bool(b),
        JsonValue::Num(n) => JVal::Num(n),
        JsonValue::Str(s) => JVal::Str(s@),
        JsonValue::Arr(a) => JVal::Arr(jvals_of(a@)),
        JsonValue::Obj(o) => JVal::Obj(members_view(o@)),
    }
}

/// The mathematical shapes of a list of JSON values, elementwise.
pub open spec fn jvals_of(elems: Seq<JsonValue>) -> Seq<JVal>
    decreases elems, elems.len(),
{
    if elems.len() == 0 {
        Seq::empty()
    } else {
        jvals_of(elems.drop_last()).push(jval_of(elems.last()))
    }
}

/// The mathematical shape of a member list, elementwise.
pub open spec fn members_view(members: Seq<JsonMember>) -> Seq<(Seq<char>, JVal)>
    decreases members, members.len(),
{
    if members.len() == 0 {
        Seq::empty()
    } else {
        members_view(members.drop_last()).push(
            (members.last().key@, jval_of(members.last().value)),
        )
    }
}

pub broadcast proof fn lemma_jvals_of_len(elems: Seq<JsonValue>)
    ensures
        (#[trigger] jvals_of(elems)).len() == elems.len(),
    decreases elems.len(),
{
    if elems.len() > 0 {
        lemma_jvals_of_len(elems.drop_last());
    }
}

pub broadcast proof fn lemma_jvals_of_index(elems: Seq<JsonValue>, i: int)
    requires
        0 <= i < elems.len(),
    ensures
        #[trigger] jvals_of(elems)[i] == jval_of(elems[i]),
    decreases elems.len(),
{
    lemma_jvals_of_len(elems);
    if i < elems.len() - 1 {
        lemma_jvals_of_index(elems.drop_last(), i);
    } else {
        lemma_jvals_of_len(elems.drop_last());
    }
}

pub broadcast proof fn lemma_members_view_len(members: Seq<JsonMember>)
    ensures
        (#[trigger] members_view(members)).len() == members.len(),
    decreases members.len(),
{
    if members.len() > 0 {
        lemma_members_view_len(members.drop_last());
    }
}

pub broadcast proof fn lemma_members_view_index(members: Seq<JsonMember>, i: int)
    requires
        0 <= i < members.len(),
    ensures
        #[trigger] members_view(members)[i] == (members[i].key@, jval_of(members[i].value)),
    decreases members.len(),
{
    lemma_members_view_len(members);
    if i < members.len() - 1 {
        lemma_members_view_index(members.drop_last(), i);
    } else {
        lemma_members_view_len(members.drop_last());
    }
}

impl DeepView for JsonValue {
    type V = JVal;

    open spec fn deep_view(&self) -> JVal {
        jval_of(*self)
    }
}

pub broadcast proof fn lemma_members_view_push(members: Seq<JsonMember>, m: JsonMember)
    ensures
        #[trigger] members_view(members.push(m)) =~= members_view(members).push(
            (m.key@, jval_of(m.value)),
        ),
{
    assert(members.push(m).drop_last() =~= members);
    assert(members.push(m).last() == m);
}

pub broadcast proof fn lemma_jvals_of_push(elems: Seq<JsonValue>, e: JsonValue)
    ensures
        #[trigger] jvals_of(elems.push(e)) =~= jvals_of(elems).push(jval_of(e)),
{
    assert(elems.push(e).drop_last() =~= elems);
    assert(elems.push(e).last() == e);
}

/// An object entry for an optional field: absent fields are omitted from
/// the encoded object entirely, never written as null.
pub open spec fn opt_member(key: Seq<char>, v: Option<JVal>) -> Seq<(Seq<char>, JVal)> {
    match v {
        Option::Some(j) => seq![(key, j)],
        Option::None => Seq::empty(),
    }
}

/// A lookup over concatenated entries reads the left part first.
pub proof fn lemma_jobj_lookup_concat(
    a: Seq<(Seq<char>, JVal)>,
    b: Seq<(Seq<char>, JVal)>,
    key: Seq<char>,
)
    ensures
        jobj_lookup(a + b, key) == match jobj_lookup(a, key) {
            Option::Some(v) => Option::Some(v),
            Option::None => jobj_lookup(b, key),
        },
    decreases a.len(),
{
    if a.len() == 0 {
        assert(a + b =~= b);
    } else {
        assert((a + b)[0] == a[0]);
        assert((a + b).len() > 0);
        if a[0].0 != key {
            assert((a + b).skip(1) =~= a.skip(1) + b);
            lemma_jobj_lookup_concat(a.skip(1), b, key);
        }
    }
}

/// Looking an optional field's own key up gives the field back.
pub proof fn lemma_lookup_opt_member_same(key: Seq<char>, v: Option<JVal>)
    ensures
        jobj_lookup(opt_member(key, v), key) == v,
{
    match v {
        Option::Some(j) => {
            assert(opt_member(key, v)[0].0 == key);
        },
        Option::None => {},
    }
}

/// An optional field's entry answers no other key.
pub proof fn lemma_lookup_opt_member_other(key: Seq<char>, v: Option<JVal>, other: Seq<char>)
    requires
        other != key,
    ensures
        jobj_lookup(opt_member(key, v), other) is None,
{
    match v {
        Option::Some(j) => {
            let m = opt_member(key, v);
            assert(m[0].0 != other);
            assert(m.skip(1) =~= Seq::empty());
            assert(jobj_lookup(Seq::<(Seq<char>, JVal)>::empty(), other) is None);
        },
        Option::None => {},
    }
}

/// The value under the first entry with the given key, or `None` when no
/// entry has it.
pub open spec fn jobj_lookup(o: Seq<(Seq<char>, JVal)>, key: Seq<char>) -> Option<JVal>
    decreases o.len(),
{
    if o.len() == 0 {
        None
    } else if o[0].0 == key {
        Some(o[0].1)
    } else {
        jobj_lookup(o.skip(1), key)
    }
}

/// Skipping entries whose keys all differ from `key` leaves the lookup
/// result unchanged.
proof fn lemma_jobj_lookup_skip(o: Seq<(Seq<char>, JVal)>, key: Seq<char>, i: int)
    requires
        0 <= i <= o.len(),
        forall|j: int| 0 <= j < i ==> o[j].0 != key,
    ensures
        jobj_lookup(o, key) == jobj_lookup(o.skip(i), key),
    decreases i,
{
    if i > 0 {
        lemma_jobj_lookup_skip(o.skip(1), key, i - 1);
        assert(o.skip(1).skip(i - 1) =~= o.skip(i));
    } else {
        assert(o.skip(0) =~= o);
    }
}

/// Character-for-character equality of two string slices.
pub fn str_eq(a: &str, b: &str) -> (r: bool)
    ensures
        r == (a@ == b@),
{
    let n = a.unicode_len();
    if n != b.unicode_len() {
        proof {
            assert(a@ != b@);
        }
        return false;
    }
    let mut i: usize = 0;
    while i < n
        invariant
            0 <= i <= n == a@.len(),
            a@.len() == b@.len(),
            forall|j: int| 0 <= j < i ==> a@[j] == b@[j],
        decreases n - i,
    {
        if a.get_char(i) != b.get_char(i) {
            return false;
        }
        i = i + 1;
    }
    proof {
        assert(a@ =~= b@);
    }
    true
}

/// Finds the first entry with the given key in a member list, as
/// `jobj_lookup` describes.
pub fn obj_get<'a>(members: &'a Vec<JsonMember>, key: &str) -> (r: Option<&'a JsonValue>)
    ensures
        match r {
            Some(v) => jobj_lookup(members_view(members@), key@) == Some(v.deep_view()),
            None => jobj_lookup(members_view(members@), key@) is None,
        },
{
    proof {
        broadcast use lemma_members_view_len;

    }
    let n = members.len();
    let mut i: usize = 0;
    while i < n
        invariant
            0 <= i <= n == members@.len(),
            members_view(members@).len() == members@.len(),
            forall|j: int| 0 <= j < i ==> members_view(members@)[j].0 != key@,
        decreases n - i,
    {
        let m = &members[i];
        let eq = str_eq(m.key.as_str(), key);
        proof {
            broadcast use lemma_members_view_index;

            assert(members_view(members@)[i as int].0 == m.key@);
        }
        if eq {
            proof {
                lemma_jobj_lookup_skip(members_view(members@), key@, i as int);
            }
            return Some(&m.value);
        }
        i = i + 1;
    }
    proof {
        lemma_jobj_lookup_skip(members_view(members@), key@, n as int);
        assert(members_view(members@).skip(n as int) =~= Seq::empty());
    }
    None
}

} // verus!
