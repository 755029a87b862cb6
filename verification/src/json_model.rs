//! A JSON document as plain values, and the parse of `meta.json` text.

use vstd::prelude::*;
use crate::text::text_eq;
use json::JsonValue;

verus! {

/// A JSON number as the `json` crate holds it: a sign, an integer mantissa
/// and a decimal exponent.
pub struct JsonNumber {
    pub positive: bool,
    pub mantissa: u64,
    pub exponent: i16,
}

/// One `"key": value` member of a JSON object.
pub struct JsonMember {
    pub key: String,
    pub value: Json,
}

/// A JSON value. Objects keep their members in document order.
pub enum Json {
    Null,
    Bool(bool),
    Number(JsonNumber),
    Str(String),
    Array(Vec<Json>),
    Object(Vec<JsonMember>),
}

/// The `json` crate's parsed value, which only the parse below handles.
#[verifier::external_type_specification]
#[verifier::external_body]
pub struct ExJsonValue(JsonValue);

/// What `json::parse` makes of the text `text`, as a `Json` value, or `None`
/// where it refuses the text.
pub uninterp spec fn parsed_json(text: Seq<char>) -> Option<Json>;

/// Whether no two of `members` have the same key.
pub open spec fn keys_distinct(members: Seq<JsonMember>) -> bool {
    forall|i: int, j: int|
        0 <= i < j < members.len() ==> (#[trigger] members[i]).key@ != (#[trigger] members[j]).key@
}

/// Whether the keys of an object are distinct, and so are those of each
/// object among its member values.
pub open spec fn keys_distinct_two_levels(v: Json) -> bool {
    &&& keys_distinct(v.members())
    &&& forall|i: int|
        0 <= i < v.members().len() ==> keys_distinct(#[trigger] v.members()[i].value.members())
}

/// Calls `json::parse` on `text` and hands the document back as a `Json`
/// value, or `None` where `json::parse` returns an error. Claimed: the result
/// is `parsed_json(text@)`, a function of the text alone (the parser reads
/// nothing else); and the keys of an object are distinct, since the crate's
/// `Object` overwrites the value of a repeated key in place (stated here for
/// the document and the objects directly in it). What `parsed_json` is on a
/// given text is not stated.
#[verifier::external_body]
fn json_parse(text: &str) -> (res: Option<Json>)
    ensures
        res == parsed_json(text@),
        res matches Some(v) ==> keys_distinct_two_levels(v),
{
    match json::parse(text) {
        Ok(value) => Some(json_tree(&value)),
        Err(_) => None,
    }
}

/// Turns a `json::JsonValue` into a `Json`, variant for variant (both string
/// variants of the crate become `Str`; object members keep their order).
/// Only `json_parse` calls it, on the value that `json::parse` returned.
#[verifier::external_body]
fn json_tree(value: &JsonValue) -> Json {
    match value {
        JsonValue::Null => Json::Null,
        JsonValue::Short(s) => Json::Str(s.to_string()),
        JsonValue::String(s) => Json::Str(s.clone()),
        JsonValue::Number(n) => {
            let (positive, mantissa, exponent) = n.as_parts();
            Json::Number(JsonNumber { positive, mantissa, exponent })
        },
        JsonValue::Boolean(b) => Json::Bool(*b),
        JsonValue::Object(o) => Json::Object(o.iter().map(|(k, v)| JsonMember { key: k.to_string(), value: json_tree(v) }).collect()),
        JsonValue::Array(a) => Json::Array(a.iter().map(json_tree).collect()),
    }
}

/// Parses the text of a `meta.json` file.
pub fn parse_meta(text: &str) -> (res: Option<Json>)
    ensures
        res == parsed_json(text@),
        res matches Some(v) ==> keys_distinct_two_levels(v),
{
    json_parse(text)
}

/// Whether some member of `members` has the key `key`.
pub open spec fn members_have(members: Seq<JsonMember>, key: Seq<char>) -> bool {
    exists|i: int| 0 <= i < members.len() && (#[trigger] members[i]).key@ == key
}

/// The index of the first member of `members` with key `key`, where there is one.
pub open spec fn first_index(members: Seq<JsonMember>, key: Seq<char>) -> int
    decreases members.len(),
{
    if members.len() == 0 {
        0
    } else if members[0].key@ == key {
        0
    } else {
        1 + first_index(members.drop_first(), key)
    }
}

impl Json {
    /// Whether the value is an object with a member `key`.
    pub open spec fn has_key(self, key: Seq<char>) -> bool {
        match self {
            Json::Object(members) => members_have(members@, key),
            _ => false,
        }
    }

    /// The value of member `key` of an object, and `null` where there is none.
    pub open spec fn get(self, key: Seq<char>) -> Json {
        match self {
            Json::Object(members) => if members_have(members@, key) {
                members@[first_index(members@, key)].value
            } else {
                Json::Null
            },
            _ => Json::Null,
        }
    }

    /// The members of an object, and none for other values.
    pub open spec fn members(self) -> Seq<JsonMember> {
        match self {
            Json::Object(members) => members@,
            _ => Seq::empty(),
        }
    }
}

/// Where some member has the key, the first such member is within range.
pub proof fn lemma_first_index_in_range(members: Seq<JsonMember>, key: Seq<char>)
    requires
        members_have(members, key),
    ensures
        0 <= first_index(members, key) < members.len(),
        members[first_index(members, key)].key@ == key,
    decreases members.len(),
{
    if members[0].key@ != key {
        let rest = members.drop_first();
        let i = choose|i: int| 0 <= i < members.len() && (#[trigger] members[i]).key@ == key;
        assert(rest[i - 1] == members[i]);
        lemma_first_index_in_range(rest, key);
    }
}

proof fn lemma_first_index(members: Seq<JsonMember>, key: Seq<char>, i: int)
    requires
        0 <= i < members.len(),
        members[i].key@ == key,
        forall|j: int| 0 <= j < i ==> members[j].key@ != key,
    ensures
        first_index(members, key) == i,
    decreases i,
{
    if i > 0 {
        let rest = members.drop_first();
        assert forall|j: int| 0 <= j < i - 1 implies rest[j].key@ != key by {
            assert(rest[j] == members[j + 1]);
        }
        lemma_first_index(rest, key, i - 1);
    }
}

impl Json {
    /// The value of member `key`, where the value is an object that has one.
    pub fn lookup(&self, key: &str) -> (res: Option<&Json>)
        ensures
            res is Some <==> self.has_key(key@),
            res matches Some(v) ==> *v == self.get(key@),
    {
        match self {
            Json::Object(members) => {
                let n = members.len();
                let mut i: usize = 0;
                while i < n
                    invariant
                        n == members@.len(),
                        *self == Json::Object(*members),
                        i <= n,
                        forall|j: int| 0 <= j < i ==> members@[j].key@ != key@,
                    decreases n - i,
                {
                    if text_eq(members[i].key.as_str(), key) {
                        proof {
                            lemma_first_index(members@, key@, i as int);
                            assert(members_have(members@, key@));
                        }
                        return Some(&members[i].value);
                    }
                    i += 1;
                }
                assert(!members_have(members@, key@));
                None
            },
            _ => None,
        }
    }
}

} // verus!
