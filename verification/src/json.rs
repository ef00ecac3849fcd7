//! JSON values as the translation reads and builds them.
//!
//! `Json` is a plain tree. `serde_json` reads and prints its text: a tree is turned into a
//! `serde_json::Value` node by node, and a parsed value is taken apart the same way.
use crate::entries::{
    distinct_keys, has_key, key_index, lemma_finite_keys, lemma_members_after_insert,
    lemma_members_after_remove, lemma_same_members,
};
use crate::text::{is_text_before, text_before};
use vstd::prelude::*;

verus! {

/// A JSON value.
#[derive(Debug)]
pub enum Json {
    Null,
    Bool(bool),
    /// A number, carried as `serde_json` holds it.
    Number(serde_json::Number),
    String(String),
    Array(Vec<Json>),
    Object(JsonMap),
}

/// The members of a JSON object. No key occurs twice.
#[derive(Debug)]
pub struct JsonMap {
    entries: Vec<(String, Json)>,
}

/// What a JSON value is: the model that contracts speak of.
#[verifier::ext_equal]
pub ghost enum JsonSpec {
    Null,
    Bool(bool),
    Number(serde_json::Number),
    String(Seq<char>),
    Array(Seq<JsonSpec>),
    Object(Map<Seq<char>, JsonSpec>),
}

impl JsonSpec {
    /// The member `key` of an object; `None` for a missing key and for any other value.
    pub open spec fn get(self, key: Seq<char>) -> Option<JsonSpec> {
        match self {
            JsonSpec::Object(members) => if members.contains_key(key) {
                Some(members[key])
            } else {
                None
            },
            _ => None,
        }
    }

    pub open spec fn as_str(self) -> Option<Seq<char>> {
        match self {
            JsonSpec::String(s) => Some(s),
            _ => None,
        }
    }

    pub open spec fn as_bool(self) -> Option<bool> {
        match self {
            JsonSpec::Bool(b) => Some(b),
            _ => None,
        }
    }

    pub open spec fn as_u64(self) -> Option<u64> {
        match self {
            JsonSpec::Number(n) => number_u64(n),
            _ => None,
        }
    }

    /// The string at `key`, if this is an object that holds one there.
    pub open spec fn str_at(self, key: Seq<char>) -> Option<Seq<char>> {
        match self.get(key) {
            Some(value) => value.as_str(),
            None => None,
        }
    }
}

/// Every object in the value has finitely many members. So it is of every value that is ever
/// held.
pub open spec fn finite_json(json: JsonSpec) -> bool
    decreases json,
{
    match json {
        JsonSpec::Array(items) => forall|i: int|
            0 <= i < items.len() ==> finite_json(#[trigger] items[i]),
        JsonSpec::Object(members) => if members.dom().finite() {
            forall|key: Seq<char>|
                members.contains_key(key) ==> finite_json(#[trigger] members[key])
        } else {
            false
        },
        _ => true,
    }
}

/// How deep arrays and objects may be nested in a text that is to be parsed.
pub const MAX_DEPTH: usize = 127;

/// The key under which `serde_json` hides text that it is to take over unread. It counts as such
/// only where it is the first of an object.
pub open spec fn raw_key() -> Seq<char> {
    "$serde_json::private::RawValue"@
}

/// Members are written in the order of their keys; this key comes first.
pub open spec fn comes_first(members: Map<Seq<char>, JsonSpec>, key: Seq<char>) -> bool {
    members.contains_key(key) && forall|other: Seq<char>| #[trigger]
        members.contains_key(other) ==> !text_before(other, key)
}

/// The value is nested no deeper than that, its objects are finite and start with no key that is
/// the parser's own, and its numbers are integers. The text of such a value reads back as the
/// value.
pub open spec fn plain_json(json: JsonSpec, depth: nat) -> bool
    decreases json,
{
    match json {
        JsonSpec::Number(n) => !number_is_f64(n),
        JsonSpec::Array(items) => depth > 0 && forall|i: int|
            0 <= i < items.len() ==> plain_json(#[trigger] items[i], (depth - 1) as nat),
        JsonSpec::Object(members) => if members.dom().finite() {
            depth > 0 && !comes_first(members, raw_key()) && forall|key: Seq<char>|
                members.contains_key(key) ==> plain_json(
                    #[trigger] members[key],
                    (depth - 1) as nat,
                )
        } else {
            false
        },
        _ => true,
    }
}

// ---------------------------------------------------------------------------------------------
// What is taken from `serde_json` without proof.

/// `serde_json::Number`, carried through unread but for `as_u64`.
#[verifier::external_type_specification]
#[verifier::external_body]
pub struct ExNumber(serde_json::Number);

/// `serde_json::Value`, a JSON value as `serde_json` parses and prints it.
#[verifier::external_type_specification]
#[verifier::external_body]
pub struct ExValue(serde_json::Value);

/// `serde_json::Error`.
#[verifier::external_type_specification]
#[verifier::external_body]
pub struct ExError(serde_json::Error);

/// What a `serde_json::Value` holds.
pub uninterp spec fn value_json(value: serde_json::Value) -> JsonSpec;

/// What `serde_json::Number::is_f64` returns for a number.
pub uninterp spec fn number_is_f64(number: serde_json::Number) -> bool;

/// What `serde_json::Number::as_u64` returns for a number.
pub uninterp spec fn number_u64(number: serde_json::Number) -> Option<u64>;

/// The number that `serde_json::Number::from` makes of an unsigned integer.
pub uninterp spec fn unsigned_number(n: u64) -> serde_json::Number;

/// The compact text that `serde_json::to_string` prints for a JSON value. It depends on nothing
/// but the value, as the members of an object are kept and printed in the order of their keys:
/// the `preserve_order` feature is not in use.
pub uninterp spec fn json_text(json: JsonSpec) -> Seq<char>;

/// What `serde_json::from_str` reads from a text: `None` where the text is not JSON.
pub uninterp spec fn parsed_json(text: Seq<char>) -> Option<JsonSpec>;

/// One node of a `serde_json::Value`, its children still whole values.
pub enum ValueNode {
    Null,
    Bool(bool),
    Number(serde_json::Number),
    String(String),
    Array(Vec<serde_json::Value>),
    Object(Vec<(String, serde_json::Value)>),
}

/// What a value made of this node holds.
pub open spec fn node_json(node: ValueNode) -> JsonSpec {
    match node {
        ValueNode::Null => JsonSpec::Null,
        ValueNode::Bool(b) => JsonSpec::Bool(b),
        ValueNode::Number(n) => JsonSpec::Number(n),
        ValueNode::String(s) => JsonSpec::String(s@),
        ValueNode::Array(items) => JsonSpec::Array(
            items@.map_values(|item: serde_json::Value| value_json(item)),
        ),
        ValueNode::Object(entries) => JsonSpec::Object(
            Map::new(
                |key: Seq<char>| has_key(entries@, key),
                |key: Seq<char>| value_json(entries@[key_index(entries@, key)].1),
            ),
        ),
    }
}

/// Takes a `serde_json::Value` apart, variant by variant. The members of an object come out as
/// `serde_json::Map::into_iter` hands them out, each key once.
#[verifier::external_body]
fn open_value(value: serde_json::Value) -> (node: ValueNode)
    ensures
        node_json(node) == value_json(value),
        node matches ValueNode::Object(entries) ==> distinct_keys(entries@),
{
    match value {
        serde_json::Value::Null => ValueNode::Null,
        serde_json::Value::Bool(b) => ValueNode::Bool(b),
        serde_json::Value::Number(n) => ValueNode::Number(n),
        serde_json::Value::String(s) => ValueNode::String(s),
        serde_json::Value::Array(items) => ValueNode::Array(items),
        serde_json::Value::Object(members) => ValueNode::Object(members.into_iter().collect()),
    }
}

/// Builds a `serde_json::Value` from one node, its variant by that name. Of members with distinct
/// keys `serde_json::Map::from_iter` takes all into the object.
#[verifier::external_body]
fn make_value(node: ValueNode) -> (value: serde_json::Value)
    requires
        node matches ValueNode::Object(entries) ==> distinct_keys(entries@),
    ensures
        value_json(value) == node_json(node),
{
    match node {
        ValueNode::Null => serde_json::Value::Null,
        ValueNode::Bool(b) => serde_json::Value::Bool(b),
        ValueNode::Number(n) => serde_json::Value::Number(n),
        ValueNode::String(s) => serde_json::Value::String(s),
        ValueNode::Array(items) => serde_json::Value::Array(items),
        ValueNode::Object(entries) => serde_json::Value::Object(entries.into_iter().collect()),
    }
}

/// `serde_json::Number::as_u64`: the number, where it is an integer from 0 to `u64::MAX`.
#[verifier::external_body]
fn number_as_u64(number: &serde_json::Number) -> (n: Option<u64>)
    ensures
        n == number_u64(*number),
{
    number.as_u64()
}

/// `serde_json::Number::is_f64`: the number is held as floating point.
#[verifier::external_body]
fn number_is_float(number: &serde_json::Number) -> (r: bool)
    ensures
        r == number_is_f64(*number),
{
    number.is_f64()
}

/// `serde_json::Number::from` on an unsigned integer, which `as_u64` gives back and which is not
/// held as floating point.
#[verifier::external_body]
pub(crate) fn number_from_u64(n: u64) -> (number: serde_json::Number)
    ensures
        number == unsigned_number(n),
        number_u64(number) == Some(n),
        !number_is_f64(number),
{
    serde_json::Number::from(n)
}

/// `serde_json::Number::clone`: the same number.
#[verifier::external_body]
fn clone_number(number: &serde_json::Number) -> (copy: serde_json::Number)
    ensures
        copy == *number,
{
    number.clone()
}

/// `serde_json::to_string` on a `Value`: its compact text. A `Value` has string keys only and
/// its serialisation reports no error of its own, so the call succeeds.
#[verifier::external_body]
fn value_to_string(value: &serde_json::Value) -> (text: Result<String, serde_json::Error>)
    ensures
        text is Ok,
        text->Ok_0@ == json_text(value_json(*value)),
{
    serde_json::to_string(value)
}

/// `serde_json::from_str` into a `Value`. The compact text of a value reads back as that value
/// where all its numbers are integers, it is not nested too deeply for the parser and no object
/// starts with the key that the parser keeps for itself: the text has the members in the order of
/// their keys, and the parser looks for that key in the first place only. Of floating point, which
/// may lose its last digit on the way, nothing is said.
#[verifier::external_body]
fn value_from_str(text: &str) -> (value: Result<serde_json::Value, serde_json::Error>)
    ensures
        value is Ok <==> parsed_json(text@) is Some,
        value is Ok ==> parsed_json(text@) == Some(value_json(value->Ok_0)),
        forall|json: JsonSpec|
            #![trigger json_text(json)]
            json_text(json) == text@ && plain_json(json, MAX_DEPTH as nat) ==> value is Ok
                && value_json(value->Ok_0) == json,
{
    serde_json::from_str(text)
}

// ---------------------------------------------------------------------------------------------

impl Json {
    /// The modelled value.
    pub open spec fn view(&self) -> JsonSpec
        decreases self,
    {
        match self {
            Json::Null => JsonSpec::Null,
            Json::Bool(b) => JsonSpec::Bool(*b),
            Json::Number(n) => JsonSpec::Number(*n),
            Json::String(s) => JsonSpec::String(s@),
            Json::Array(items) => JsonSpec::Array(
                Seq::new(
                    items@.len(),
                    |i: int|
                        if 0 <= i < items@.len() {
                            items@[i].view()
                        } else {
                            JsonSpec::Null
                        },
                ),
            ),
            Json::Object(members) => JsonSpec::Object(members.view()),
        }
    }

    /// The member `key`, where this is an object that has it.
    pub fn get(&self, key: &str) -> (r: Option<&Json>)
        ensures
            match r {
                Some(value) => self@.get(key@) == Some(value@),
                None => self@.get(key@) is None,
            },
    {
        match self {
            Json::Object(members) => members.get(key),
            _ => None,
        }
    }

    pub fn as_str(&self) -> (r: Option<&str>)
        ensures
            match r {
                Some(s) => self@.as_str() == Some(s@),
                None => self@.as_str() is None,
            },
    {
        match self {
            Json::String(s) => Some(s.as_str()),
            _ => None,
        }
    }

    pub fn as_bool(&self) -> (r: Option<bool>)
        ensures
            r == self@.as_bool(),
    {
        match self {
            Json::Bool(b) => Some(*b),
            _ => None,
        }
    }

    /// The number, where it is an integer from 0 to `u64::MAX`.
    pub fn as_u64(&self) -> (r: Option<u64>)
        ensures
            r == self@.as_u64(),
    {
        match self {
            Json::Number(n) => number_as_u64(n),
            _ => None,
        }
    }

    /// The string at `key`, where this is an object that holds one there.
    pub fn str_at(&self, key: &str) -> (r: Option<&str>)
        ensures
            match r {
                Some(s) => self@.str_at(key@) == Some(s@),
                None => self@.str_at(key@) is None,
            },
    {
        match self.get(key) {
            Some(value) => value.as_str(),
            None => None,
        }
    }

    /// A JSON string.
    pub fn from_text(text: &str) -> (json: Json)
        ensures
            json@ == JsonSpec::String(text@),
    {
        Json::String(text.to_owned())
    }

    /// An unsigned JSON number.
    pub fn from_u64(n: u64) -> (json: Json)
        ensures
            json@ == JsonSpec::Number(unsigned_number(n)),
            json@.as_u64() == Some(n),
            !number_is_f64(unsigned_number(n)),
    {
        Json::Number(number_from_u64(n))
    }

    /// The same value again.
    pub fn duplicate(&self) -> (copy: Json)
        ensures
            copy@ == self@,
        decreases self,
    {
        match self {
            Json::Null => Json::Null,
            Json::Bool(b) => Json::Bool(*b),
            Json::Number(n) => Json::Number(clone_number(n)),
            Json::String(s) => Json::String(s.clone()),
            Json::Array(items) => {
                let mut copies: Vec<Json> = Vec::new();
                let mut i: usize = 0;
                while i < items.len()
                    invariant
                        i <= items@.len(),
                        copies@.len() == i,
                        forall|j: int| 0 <= j < i ==> (#[trigger] copies@[j])@ == items@[j]@,
                        decreases_to!(self => items),
                    decreases items@.len() - i,
                {
                    copies.push(items[i].duplicate());
                    i += 1;
                }
                let copy = Json::Array(copies);
                assert(copy@->Array_0 =~= self@->Array_0);
                copy
            },
            Json::Object(members) => Json::Object(members.duplicate()),
        }
    }

    /// The value in `serde_json`'s form.
    pub fn to_value(&self) -> (value: serde_json::Value)
        ensures
            value_json(value) == self@,
        decreases self,
    {
        match self {
            Json::Null => make_value(ValueNode::Null),
            Json::Bool(b) => make_value(ValueNode::Bool(*b)),
            Json::Number(n) => make_value(ValueNode::Number(clone_number(n))),
            Json::String(s) => make_value(ValueNode::String(s.clone())),
            Json::Array(items) => {
                let mut values: Vec<serde_json::Value> = Vec::new();
                let mut i: usize = 0;
                while i < items.len()
                    invariant
                        i <= items@.len(),
                        values@.len() == i,
                        forall|j: int|
                            0 <= j < i ==> value_json(#[trigger] values@[j]) == items@[j]@,
                        decreases_to!(self => items),
                    decreases items@.len() - i,
                {
                    values.push(items[i].to_value());
                    i += 1;
                }
                let node = ValueNode::Array(values);
                assert(node_json(node)->Array_0 =~= self@->Array_0);
                make_value(node)
            },
            Json::Object(members) => members.to_value(),
        }
    }

    /// Reads a value from `serde_json`'s form.
    pub fn from_value(value: serde_json::Value) -> (json: Json)
        ensures
            json@ == value_json(value),
        decreases value_json(value),
    {
        let ghost whole = value_json(value);
        match open_value(value) {
            ValueNode::Null => Json::Null,
            ValueNode::Bool(b) => Json::Bool(b),
            ValueNode::Number(n) => Json::Number(n),
            ValueNode::String(s) => Json::String(s),
            ValueNode::Array(items) => {
                let ghost source = items@;
                let mut jsons: Vec<Json> = Vec::new();
                for item in it: items
                    invariant
                        it.seq() == source,
                        jsons@.len() == it.index(),
                        whole == JsonSpec::Array(
                            source.map_values(|item: serde_json::Value| value_json(item)),
                        ),
                        whole == value_json(value),
                        forall|j: int|
                            0 <= j < jsons@.len() ==> (#[trigger] jsons@[j])@ == value_json(
                                source[j],
                            ),
                {
                    proof {
                        let children = source.map_values(
                            |item: serde_json::Value| value_json(item),
                        );
                        assert(children[jsons@.len() as int] == value_json(item));
                        assert(decreases_to!(whole => whole->Array_0));
                        assert(decreases_to!(children => children[jsons@.len() as int]));
                    }
                    jsons.push(Json::from_value(item));
                }
                let json = Json::Array(jsons);
                assert(json@->Array_0 =~= whole->Array_0);
                json
            },
            ValueNode::Object(entries) => {
                let ghost source = entries@;
                let mut jsons: Vec<(String, Json)> = Vec::new();
                let ghost node = ValueNode::Object(entries);
                assert(whole == node_json(node));
                let ghost members = Map::new(
                    |key: Seq<char>| has_key(source, key),
                    |key: Seq<char>| value_json(source[key_index(source, key)].1),
                );
                assert(whole == JsonSpec::Object(members));
                for entry in it: entries
                    invariant
                        it.seq() == source,
                        jsons@.len() == it.index(),
                        distinct_keys(source),
                        members == Map::new(
                            |key: Seq<char>| has_key(source, key),
                            |key: Seq<char>| value_json(source[key_index(source, key)].1),
                        ),
                        whole == JsonSpec::Object(members),
                        whole == value_json(value),
                        forall|j: int|
                            0 <= j < jsons@.len() ==> (#[trigger] jsons@[j]).0@ == source[j].0@
                                && jsons@[j].1@ == value_json(source[j].1),
                {
                    let (key, child) = entry;
                    proof {
                        let i = jsons@.len() as int;
                        assert(source[i] == (key, child));
                        assert(has_key(source, key@));
                        assert(key_index(source, key@) == i);
                        assert(members.contains_key(key@));
                        assert(members[key@] == value_json(child));
                        lemma_finite_keys(source);
                        assert(members.dom() =~= Set::new(|key: Seq<char>| has_key(source, key)));
                        assert(decreases_to!(whole => whole->Object_0));
                        assert(decreases_to!(members => members[key@]));
                    }
                    jsons.push((key, Json::from_value(child)));
                }
                let json = Json::Object(JsonMap { entries: jsons });
                proof {
                    let made = json->Object_0;
                    lemma_same_members(source, made.entries@);
                    assert(made@ =~= members);
                }
                json
            },
        }
    }

    /// Whether the value is plain, so that its text reads back as the value.
    pub fn is_plain(&self) -> (r: bool)
        ensures
            r == plain_json(self@, MAX_DEPTH as nat),
    {
        self.is_plain_to(MAX_DEPTH)
    }

    fn is_plain_to(&self, depth: usize) -> (r: bool)
        ensures
            r == plain_json(self@, depth as nat),
        decreases self,
    {
        match self {
            Json::Number(n) => !number_is_float(n),
            Json::Array(items) => {
                if depth == 0 {
                    return false;
                }
                let mut i: usize = 0;
                while i < items.len()
                    invariant
                        i <= items@.len(),
                        depth > 0,
                        *self == Json::Array(*items),
                        forall|j: int|
                            0 <= j < i ==> plain_json(
                                #[trigger] self@->Array_0[j],
                                (depth - 1) as nat,
                            ),
                        decreases_to!(self => items),
                    decreases items@.len() - i,
                {
                    assert(self@->Array_0[i as int] == items@[i as int]@);
                    if !items[i].is_plain_to(depth - 1) {
                        return false;
                    }
                    i += 1;
                }
                true
            },
            Json::Object(members) => {
                if depth == 0 {
                    return false;
                }
                proof {
                    lemma_finite_members(members);
                }
                !members.has_first("$serde_json::private::RawValue") && members.is_plain_below(depth)
            },
            _ => true,
        }
    }

    /// The compact text of the value.
    pub fn to_text(&self) -> (text: Result<String, serde_json::Error>)
        ensures
            text is Ok,
            text->Ok_0@ == json_text(self@),
    {
        value_to_string(&self.to_value())
    }

    /// Parses a JSON text. What was written of a plain value is read back as that value.
    pub fn parse(text: &str) -> (json: Option<Json>)
        ensures
            match json {
                Some(value) => parsed_json(text@) == Some(value@),
                None => parsed_json(text@) is None,
            },
            forall|source: JsonSpec|
                #![trigger json_text(source)]
                json_text(source) == text@ && plain_json(source, MAX_DEPTH as nat) ==> parsed_json(
                    text@,
                ) == Some(source),
    {
        match value_from_str(text) {
            Ok(value) => Some(Json::from_value(value)),
            Err(_) => None,
        }
    }
}

/// The compact text of a value.
pub fn json_string(json: &Json) -> (text: String)
    ensures
        text@ == json_text(json@),
{
    match json.to_text() {
        Ok(text) => text,
        Err(_) => String::new(),
    }
}

impl Clone for Json {
    fn clone(&self) -> (copy: Self)
        ensures
            copy@ == self@,
    {
        self.duplicate()
    }
}

impl Clone for JsonMap {
    fn clone(&self) -> (copy: Self)
        ensures
            copy@ == self@,
    {
        self.duplicate()
    }
}

impl JsonMap {
    /// The members, by key.
    pub closed spec fn view(&self) -> Map<Seq<char>, JsonSpec>
        decreases self,
    {
        Map::new(
            |key: Seq<char>| has_key(self.entries@, key),
            |key: Seq<char>|
                {
                    let i = key_index(self.entries@, key);
                    if 0 <= i < self.entries@.len() {
                        self.entries@[i].1.view()
                    } else {
                        JsonSpec::Null
                    }
                },
        )
    }

    /// The keys in the order in which the members are held.
    pub closed spec fn keys(&self) -> Seq<Seq<char>> {
        self.entries@.map_values(|entry: (String, Json)| entry.0@)
    }

    #[verifier::type_invariant]
    spec fn keys_distinct(self) -> bool {
        distinct_keys(self.entries@)
    }

    /// No members.
    pub fn new() -> (map: JsonMap)
        ensures
            map@ == Map::<Seq<char>, JsonSpec>::empty(),
    {
        JsonMap { entries: Vec::new() }
    }

    /// The number of members.
    pub fn len(&self) -> (n: usize)
        ensures
            n == self.keys().len(),
            self.keys().no_duplicates(),
            forall|key: Seq<char>| #[trigger]
                self@.contains_key(key) <==> self.keys().contains(key),
    {
        proof {
            use_type_invariant(self);
            let keys = self.keys();
            assert forall|key: Seq<char>| #[trigger]
                self@.contains_key(key) implies keys.contains(key) by {
                let i = key_index(self.entries@, key);
                assert(keys[i] == key);
            }
            assert forall|key: Seq<char>| keys.contains(key) implies #[trigger] self@.contains_key(
                key,
            ) by {
                let i = choose|i: int| 0 <= i < keys.len() && keys[i] == key;
                assert(self.entries@[i].0@ == key);
            }
        }
        self.entries.len()
    }

    /// The member at a position.
    pub fn entry(&self, i: usize) -> (entry: (&String, &Json))
        requires
            i < self.keys().len(),
        ensures
            entry.0@ == self.keys()[i as int],
            self@.contains_key(entry.0@),
            self@[entry.0@] == entry.1@,
    {
        proof {
            use_type_invariant(self);
            let key = self.entries@[i as int].0@;
            assert(has_key(self.entries@, key));
            let k = key_index(self.entries@, key);
            assert(k == i);
        }
        (&self.entries[i].0, &self.entries[i].1)
    }

    fn position(&self, key: &str) -> (r: Option<usize>)
        ensures
            match r {
                Some(i) => i < self.entries@.len() && self.entries@[i as int].0@ == key@,
                None => !has_key(self.entries@, key@),
            },
    {
        let wanted = key.to_owned();
        let mut i: usize = 0;
        while i < self.entries.len()
            invariant
                i <= self.entries@.len(),
                wanted@ == key@,
                forall|j: int| 0 <= j < i ==> (#[trigger] self.entries@[j]).0@ != key@,
            decreases self.entries@.len() - i,
        {
            if self.entries[i].0 == wanted {
                return Some(i);
            }
            i += 1;
        }
        None
    }

    /// The value at `key`.
    pub fn get(&self, key: &str) -> (r: Option<&Json>)
        ensures
            match r {
                Some(value) => self@.contains_key(key@) && self@[key@] == value@,
                None => !self@.contains_key(key@),
            },
    {
        match self.position(key) {
            Some(i) => {
                proof {
                    use_type_invariant(self);
                    assert(has_key(self.entries@, key@));
                    let k = key_index(self.entries@, key@);
                    assert(k == i);
                }
                Some(&self.entries[i].1)
            },
            None => None,
        }
    }

    /// Sets the value at `key`.
    pub fn insert(self, key: String, value: Json) -> (map: JsonMap)
        ensures
            map@ == self@.insert(key@, value@),
    {
        proof {
            use_type_invariant(&self);
        }
        let found = self.position(key.as_str());
        let ghost before = self;
        let mut entries = self.entries;
        match found {
            Some(i) => {
                entries.set(i, (key, value));
            },
            None => {
                entries.push((key, value));
            },
        }
        proof {
            let at = match found {
                Some(i) => i as int,
                None => before.entries@.len() as int,
            };
            assert(entries@[at] == (key, value));
            assert(forall|j: int| 0 <= j < before.entries@.len() && j != at ==> entries@[j] == before.entries@[j]);
            assert forall|i: int, j: int|
                #![trigger entries@[i], entries@[j]]
                0 <= i < j < entries@.len() implies entries@[i].0@ != entries@[j].0@ by {
                if i != at {
                    assert(entries@[i] == before.entries@[i]);
                }
                if j != at {
                    assert(entries@[j] == before.entries@[j]);
                }
            }
        }
        let map = JsonMap { entries };
        proof {
            lemma_members_after_insert(before.entries@, map.entries@, key@, value);
            assert(map@ =~= before@.insert(key@, value@));
        }
        map
    }

    /// The same members again.
    pub fn duplicate(&self) -> (copy: JsonMap)
        ensures
            copy@ == self@,
        decreases self,
    {
        proof {
            use_type_invariant(self);
        }
        let mut copies: Vec<(String, Json)> = Vec::new();
        let mut i: usize = 0;
        while i < self.entries.len()
            invariant
                i <= self.entries@.len(),
                copies@.len() == i,
                forall|j: int|
                    0 <= j < i ==> (#[trigger] copies@[j]).0@ == self.entries@[j].0@ && copies@[j].1@
                        == self.entries@[j].1@,
            decreases self.entries@.len() - i,
        {
            let key = self.entries[i].0.clone();
            copies.push((key, self.entries[i].1.duplicate()));
            i += 1;
        }
        let copy = JsonMap { entries: copies };
        proof {
            lemma_same_members(self.entries@, copy.entries@);
            assert(copy@ =~= self@);
        }
        copy
    }

    /// Whether the key comes first.
    fn has_first(&self, key: &str) -> (r: bool)
        ensures
            r == comes_first(self@, key@),
    {
        if self.get(key).is_none() {
            return false;
        }
        let n = self.len();
        let ghost keys = self.keys();
        let mut i: usize = 0;
        while i < n
            invariant
                i <= n,
                n == keys.len(),
                keys == self.keys(),
                forall|j: int| 0 <= j < i ==> !text_before(#[trigger] keys[j], key@),
            decreases n - i,
        {
            let (other, _) = self.entry(i);
            if is_text_before(other.as_str(), key) {
                return false;
            }
            i += 1;
        }
        assert forall|other: Seq<char>| #[trigger] self@.contains_key(other) implies !text_before(
            other,
            key@,
        ) by {
            assert(keys.contains(other));
            let j = choose|j: int| 0 <= j < keys.len() && keys[j] == other;
            assert(!text_before(keys[j], key@));
        }
        true
    }

    fn is_plain_below(&self, depth: usize) -> (r: bool)
        requires
            depth > 0,
        ensures
            r == forall|key: Seq<char>|
                self@.contains_key(key) ==> plain_json(#[trigger] self@[key], (depth - 1) as nat),
        decreases self,
    {
        proof {
            use_type_invariant(self);
        }
        let mut i: usize = 0;
        while i < self.entries.len()
            invariant
                i <= self.entries@.len(),
                depth > 0,
                distinct_keys(self.entries@),
                forall|j: int|
                    0 <= j < i ==> plain_json(
                        (#[trigger] self.entries@[j]).1@,
                        (depth - 1) as nat,
                    ),
            decreases self.entries@.len() - i,
        {
            if !self.entries[i].1.is_plain_to(depth - 1) {
                proof {
                    let key = self.entries@[i as int].0@;
                    assert(has_key(self.entries@, key));
                    assert(key_index(self.entries@, key) == i);
                    assert(self@.contains_key(key));
                    assert(!plain_json(self@[key], (depth - 1) as nat));
                }
                return false;
            }
            i += 1;
        }
        assert forall|key: Seq<char>| self@.contains_key(key) implies plain_json(
            #[trigger] self@[key],
            (depth - 1) as nat,
        ) by {
            let k = key_index(self.entries@, key);
            assert(has_key(self.entries@, key));
            assert(plain_json(self.entries@[k].1@, (depth - 1) as nat));
        }
        true
    }

    fn to_value(&self) -> (value: serde_json::Value)
        ensures
            value_json(value) == JsonSpec::Object(self@),
        decreases self,
    {
        proof {
            use_type_invariant(self);
        }
        let mut values: Vec<(String, serde_json::Value)> = Vec::new();
        let mut i: usize = 0;
        while i < self.entries.len()
            invariant
                i <= self.entries@.len(),
                values@.len() == i,
                forall|j: int|
                    0 <= j < i ==> (#[trigger] values@[j]).0@ == self.entries@[j].0@ && value_json(
                        values@[j].1,
                    ) == self.entries@[j].1@,
            decreases self.entries@.len() - i,
        {
            let key = self.entries[i].0.clone();
            values.push((key, self.entries[i].1.to_value()));
            i += 1;
        }
        let ghost source = values@;
        proof {
            lemma_same_members(self.entries@, source);
        }
        let node = ValueNode::Object(values);
        assert(node_json(node)->Object_0 =~= self@);
        make_value(node)
    }

    /// Drops the value at `key`, if there is one.
    pub fn remove(self, key: &str) -> (map: JsonMap)
        ensures
            map@ == self@.remove(key@),
    {
        proof {
            use_type_invariant(&self);
        }
        let ghost before = self.entries@;
        match self.position(key) {
            Some(at) => {
                let ghost view_before = self@;
                let mut entries = self.entries;
                entries.remove(at);
                proof {
                    assert(forall|j: int|
                        0 <= j < entries@.len() ==> #[trigger] entries@[j] == before[if j < at {
                            j
                        } else {
                            j + 1
                        }]);
                }
                let map = JsonMap { entries };
                proof {
                    lemma_members_after_remove(before, map.entries@, at as int);
                    assert(map@ =~= view_before.remove(key@));
                }
                map
            },
            None => {
                assert(self@.remove(key@) =~= self@);
                self
            },
        }
    }
}

/// An object has finitely many members.
pub proof fn lemma_finite_members(map: &JsonMap)
    ensures
        map@.dom().finite(),
{
    lemma_finite_keys(map.entries@);
    assert(map@.dom() =~= Set::new(|key: Seq<char>| has_key(map.entries@, key)));
}

/// The model of a value that is held is finite.
pub proof fn lemma_finite_json(json: &Json)
    ensures
        finite_json(json@),
    decreases json,
{
    match json {
        Json::Array(items) => {
            assert forall|i: int| 0 <= i < items@.len() implies finite_json(
                #[trigger] json@->Array_0[i],
            ) by {
                lemma_finite_json(&items@[i]);
            }
        },
        Json::Object(map) => {
            lemma_finite_members(map);
            assert forall|key: Seq<char>| map@.contains_key(key) implies finite_json(
                #[trigger] map@[key],
            ) by {
                let i = key_index(map.entries@, key);
                lemma_finite_json(&map.entries@[i].1);
            }
        },
        _ => {},
    }
}

} // verus!
