//! Tool schemas in the form that strict upstreams accept.
use crate::json::{finite_json, lemma_finite_members, Json, JsonMap, JsonSpec};
use crate::text::same_text;
use vstd::prelude::*;

verus! {

/// Keys whose value is a schema.
pub open spec fn subschema_key(key: Seq<char>) -> bool {
    ||| key == "items"@
    ||| key == "additionalProperties"@
    ||| key == "contains"@
    ||| key == "not"@
    ||| key == "if"@
    ||| key == "then"@
    ||| key == "else"@
}

/// Keys whose value is a list of schemas.
pub open spec fn schema_list_key(key: Seq<char>) -> bool {
    ||| key == "allOf"@
    ||| key == "anyOf"@
    ||| key == "oneOf"@
    ||| key == "prefixItems"@
}

/// A member that stays: not null, and not the format "uri".
pub open spec fn kept(members: Map<Seq<char>, JsonSpec>, key: Seq<char>) -> bool {
    &&& members.contains_key(key)
    &&& members[key] !is Null
    &&& !(key == "format"@ && members[key] == JsonSpec::String("uri"@))
}

/// The schema of an object.
pub open spec fn object_schema(members: Map<Seq<char>, JsonSpec>) -> bool {
    members.contains_key("type"@) && members["type"@] == JsonSpec::String("object"@)
}

/// A schema in normal form, at every level: no null members, no "uri" format, and `required` an
/// array wherever it stands and always there in an object's schema.
pub open spec fn normal_schema(schema: JsonSpec) -> JsonSpec
    decreases schema, 0nat,
{
    match schema {
        JsonSpec::Object(members) => JsonSpec::Object(
            Map::new(
                |key: Seq<char>|
                    kept(members, key) || key == "required"@ && object_schema(members),
                |key: Seq<char>|
                    if members.dom().finite() && kept(members, key) {
                        normal_member(key, members[key])
                    } else {
                        JsonSpec::Array(Seq::empty())
                    },
            ),
        ),
        JsonSpec::Array(items) => JsonSpec::Array(normal_items(items)),
        other => other,
    }
}

/// A member of a schema in normal form.
pub open spec fn normal_member(key: Seq<char>, value: JsonSpec) -> JsonSpec
    decreases value, 1nat,
{
    if key == "properties"@ && value is Object {
        JsonSpec::Object(
            Map::new(
                |name: Seq<char>| value->Object_0.contains_key(name),
                |name: Seq<char>|
                    if value->Object_0.dom().finite() && value->Object_0.contains_key(name) {
                        normal_schema(value->Object_0[name])
                    } else {
                        JsonSpec::Null
                    },
            ),
        )
    } else if subschema_key(key) {
        normal_schema(value)
    } else if schema_list_key(key) && value is Array {
        JsonSpec::Array(normal_items(value->Array_0))
    } else if key == "required"@ && value !is Array {
        JsonSpec::Array(Seq::empty())
    } else {
        value
    }
}

/// Each schema of a list in normal form.
pub open spec fn normal_items(items: Seq<JsonSpec>) -> Seq<JsonSpec>
    decreases items, 0nat,
{
    Seq::new(
        items.len(),
        |i: int|
            if 0 <= i < items.len() {
                normal_schema(items[i])
            } else {
                JsonSpec::Null
            },
    )
}

/// Brings a tool schema into the normal form.
pub fn normalize_schema(schema: Json) -> (r: Json)
    ensures
        r@ == normal_schema(schema@),
{
    normal_form(&schema)
}

fn normal_form(schema: &Json) -> (r: Json)
    ensures
        r@ == normal_schema(schema@),
    decreases schema@, 1nat,
{
    match schema {
        Json::Object(members) => Json::Object(normal_object(members)),
        Json::Array(items) => Json::Array(normal_list(schema, items)),
        _ => schema.clone(),
    }
}

fn normal_list(whole: &Json, items: &Vec<Json>) -> (r: Vec<Json>)
    requires
        *whole == Json::Array(*items),
    ensures
        Json::Array(r)@ == JsonSpec::Array(normal_items(whole@->Array_0)),
    decreases whole@, 0nat,
{
    let mut list: Vec<Json> = Vec::new();
    let mut i: usize = 0;
    while i < items.len()
        invariant
            *whole == Json::Array(*items),
            i <= items@.len(),
            list@.len() == i,
            forall|j: int| 0 <= j < i ==> (#[trigger] list@[j])@ == normal_schema(items@[j]@),
        decreases items@.len() - i,
    {
        proof {
            let view = whole@;
            assert(view->Array_0[i as int] == items@[i as int]@);
            assert(decreases_to!(view => view->Array_0));
            assert(decreases_to!(view->Array_0 => view->Array_0[i as int]));
        }
        list.push(normal_form(&items[i]));
        i += 1;
    }
    assert(Json::Array(list)@->Array_0 =~= normal_items(whole@->Array_0));
    list
}

fn normal_object(members: &JsonMap) -> (r: JsonMap)
    ensures
        JsonSpec::Object(r@) == normal_schema(JsonSpec::Object(members@)),
    decreases JsonSpec::Object(members@), 0nat,
{
    let n = members.len();
    proof {
        lemma_finite_members(members);
    }
    let ghost keys = members.keys();
    let mut out = JsonMap::new();
    let mut i: usize = 0;
    while i < n
        invariant
            keys == members.keys(),
            n == keys.len(),
            i <= n,
            keys.no_duplicates(),
            members@.dom().finite(),
            forall|key: Seq<char>| #[trigger]
                out@.contains_key(key) <==> kept(members@, key) && keys.take(i as int).contains(key),
            forall|key: Seq<char>| #[trigger]
                out@.contains_key(key) ==> out@[key] == normal_member(key, members@[key]),
        decreases n - i,
    {
        let (key, value) = members.entry(i);
        let ghost before = out@;
        let uri = match value.as_str() {
            Some(s) => same_text(s, "uri"),
            None => false,
        };
        let null = match value {
            Json::Null => true,
            _ => false,
        };
        if !null && !(uri && same_text(key.as_str(), "format")) {
            proof {
                let view = JsonSpec::Object(members@);
                assert(decreases_to!(view => view->Object_0));
                assert(decreases_to!(members@ => members@[key@]));
            }
            let normal = normal_value(key.as_str(), value);
            out = out.insert(key.clone(), normal);
        }
        proof {
            let next = keys.take(i + 1);
            assert(next =~= keys.take(i as int).push(key@));
            assert forall|k: Seq<char>| next.contains(k) <==> keys.take(i as int).contains(k) || k
                == key@ by {
                if next.contains(k) {
                    let j = choose|j: int| 0 <= j < next.len() && next[j] == k;
                    if j < i {
                        assert(keys.take(i as int)[j] == k);
                    }
                }
                if keys.take(i as int).contains(k) {
                    let j = choose|j: int| 0 <= j < i && keys.take(i as int)[j] == k;
                    assert(next[j] == k);
                }
                if k == key@ {
                    assert(next[i as int] == k);
                }
            }
        }
        i += 1;
    }
    let is_object = match members.get("type") {
        Some(value) => match value.as_str() {
            Some(s) => same_text(s, "object"),
            None => false,
        },
        None => false,
    };
    assert(keys.take(n as int) =~= keys);
    let missing = match out.get("required") {
        Some(_) => false,
        None => true,
    };
    if is_object && missing {
        let empty: Vec<Json> = Vec::new();
        let none = Json::Array(empty);
        assert(none@->Array_0 =~= Seq::<JsonSpec>::empty());
        out = out.insert("required".to_owned(), none);
    }
    assert(out@ =~= normal_schema(JsonSpec::Object(members@))->Object_0);
    out
}

fn normal_value(key: &str, value: &Json) -> (r: Json)
    ensures
        r@ == normal_member(key@, value@),
    decreases value@, 2nat,
{
    if same_text(key, "properties") {
        match value {
            Json::Object(members) => {
                return Json::Object(normal_properties(members));
            },
            _ => {},
        }
    }
    if is_subschema_key(key) {
        return normal_form(value);
    }
    if is_schema_list_key(key) {
        match value {
            Json::Array(items) => {
                return Json::Array(normal_list(value, items));
            },
            _ => {},
        }
    }
    if same_text(key, "required") {
        match value {
            Json::Array(_) => {},
            _ => {
                let empty: Vec<Json> = Vec::new();
                let none = Json::Array(empty);
                assert(none@->Array_0 =~= Seq::<JsonSpec>::empty());
                return none;
            },
        }
    }
    value.clone()
}

fn normal_properties(members: &JsonMap) -> (r: JsonMap)
    ensures
        JsonSpec::Object(r@) == normal_member("properties"@, JsonSpec::Object(members@)),
    decreases JsonSpec::Object(members@), 0nat,
{
    let n = members.len();
    proof {
        lemma_finite_members(members);
    }
    let ghost keys = members.keys();
    let mut out = JsonMap::new();
    let mut i: usize = 0;
    while i < n
        invariant
            keys == members.keys(),
            n == keys.len(),
            i <= n,
            members@.dom().finite(),
            forall|key: Seq<char>| #[trigger]
                out@.contains_key(key) ==> members@.contains_key(key) && out@[key] == normal_schema(
                    members@[key],
                ),
            forall|j: int| 0 <= j < i ==> out@.contains_key(#[trigger] keys[j]),
        decreases n - i,
    {
        let (key, value) = members.entry(i);
        proof {
            let view = JsonSpec::Object(members@);
            assert(decreases_to!(view => view->Object_0));
            assert(decreases_to!(members@ => members@[key@]));
        }
        out = out.insert(key.clone(), normal_form(value));
        i += 1;
    }
    assert(out@ =~= normal_member("properties"@, JsonSpec::Object(members@))->Object_0);
    out
}

fn is_subschema_key(key: &str) -> (r: bool)
    ensures
        r == subschema_key(key@),
{
    same_text(key, "items") || same_text(key, "additionalProperties") || same_text(key, "contains")
        || same_text(key, "not") || same_text(key, "if") || same_text(key, "then") || same_text(
        key,
        "else",
    )
}

fn is_schema_list_key(key: &str) -> (r: bool)
    ensures
        r == schema_list_key(key@),
{
    same_text(key, "allOf") || same_text(key, "anyOf") || same_text(key, "oneOf") || same_text(
        key,
        "prefixItems",
    )
}

// ---------------------------------------------------------------------------------------------
// Laws.

/// What strict upstreams ask of the members of one schema: none is null, none is the format
/// "uri", and `required` is an array, which an object's schema always has.
pub open spec fn strict_members(members: Map<Seq<char>, JsonSpec>) -> bool {
    &&& forall|key: Seq<char>| #[trigger] members.contains_key(key) ==> members[key] !is Null
    &&& !(members.contains_key("format"@) && members["format"@] == JsonSpec::String("uri"@))
    &&& members.contains_key("required"@) ==> members["required"@] is Array
    &&& object_schema(members) ==> members.contains_key("required"@)
}

/// A schema that strict upstreams accept: so are its members, and so is every schema inside it.
pub open spec fn strict_schema(schema: JsonSpec) -> bool
    decreases schema, 0nat,
{
    match schema {
        JsonSpec::Object(members) => if members.dom().finite() {
            strict_members(members) && forall|key: Seq<char>|
                members.contains_key(key) ==> strict_member(key, #[trigger] members[key])
        } else {
            false
        },
        JsonSpec::Array(items) => forall|i: int|
            0 <= i < items.len() ==> strict_schema(#[trigger] items[i]),
        _ => true,
    }
}

/// The schemas in a member are strict.
pub open spec fn strict_member(key: Seq<char>, value: JsonSpec) -> bool
    decreases value, 1nat,
{
    if key == "properties"@ && value is Object {
        let properties = value->Object_0;
        if properties.dom().finite() {
            forall|name: Seq<char>|
                properties.contains_key(name) ==> strict_schema(#[trigger] properties[name])
        } else {
            false
        }
    } else if subschema_key(key) {
        strict_schema(value)
    } else if schema_list_key(key) && value is Array {
        let items = value->Array_0;
        forall|i: int| 0 <= i < items.len() ==> strict_schema(#[trigger] items[i])
    } else {
        true
    }
}

/// A schema that normalising leaves as it is is strict.
proof fn lemma_normal_is_strict(schema: JsonSpec)
    requires
        finite_json(schema),
        normal_schema(schema) == schema,
    ensures
        strict_schema(schema),
    decreases schema, 0nat,
{
    match schema {
        JsonSpec::Object(members) => {
            reveal_keys();
            let same = normal_schema(schema)->Object_0;
            assert forall|key: Seq<char>| #[trigger] members.contains_key(key) implies kept(
                members,
                key,
            ) && normal_member(key, members[key]) == members[key] by {
                assert(same.contains_key(key));
                if !kept(members, key) {
                    assert(same[key] == JsonSpec::Array(Seq::empty()));
                }
            }
            assert(object_schema(members) ==> same.contains_key("required"@));
            assert(strict_members(members));
            assert forall|key: Seq<char>| members.contains_key(key) implies strict_member(
                key,
                #[trigger] members[key],
            ) by {
                assert(finite_json(members[key]));
                assert(decreases_to!(schema => schema->Object_0));
                assert(decreases_to!(members => members[key]));
                lemma_normal_member_is_strict(key, members[key]);
            }
        },
        JsonSpec::Array(items) => {
            assert(decreases_to!(schema => schema->Array_0));
            lemma_normal_items_are_strict(items);
        },
        _ => {},
    }
}

proof fn lemma_normal_items_are_strict(items: Seq<JsonSpec>)
    requires
        forall|i: int| 0 <= i < items.len() ==> finite_json(#[trigger] items[i]),
        normal_items(items) == items,
    ensures
        forall|i: int| 0 <= i < items.len() ==> strict_schema(#[trigger] items[i]),
    decreases items, 0nat,
{
    let same = normal_items(items);
    assert forall|i: int| 0 <= i < items.len() implies strict_schema(#[trigger] items[i]) by {
        assert(same[i] == normal_schema(items[i]));
        assert(decreases_to!(items => items[i]));
        lemma_normal_is_strict(items[i]);
    }
}

proof fn lemma_normal_member_is_strict(key: Seq<char>, value: JsonSpec)
    requires
        finite_json(value),
        normal_member(key, value) == value,
    ensures
        strict_member(key, value),
    decreases value, 1nat,
{
    if key == "properties"@ && value is Object {
        let properties = value->Object_0;
        let same = normal_member(key, value)->Object_0;
        assert forall|name: Seq<char>| properties.contains_key(name) implies strict_schema(
            #[trigger] properties[name],
        ) by {
            assert(finite_json(properties[name]));
            assert(same[name] == normal_schema(properties[name]));
            assert(decreases_to!(value => value->Object_0));
            assert(decreases_to!(properties => properties[name]));
            lemma_normal_is_strict(properties[name]);
        }
    } else if subschema_key(key) {
        lemma_normal_is_strict(value);
    } else if schema_list_key(key) && value is Array {
        assert(decreases_to!(value => value->Array_0));
        lemma_normal_items_are_strict(value->Array_0);
    }
}

/// The normal form is strict at every level, and an object's schema stays one.
pub proof fn law_normal_schema_is_strict(schema: JsonSpec)
    requires
        finite_json(schema),
    ensures
        strict_schema(normal_schema(schema)),
        schema matches JsonSpec::Object(members) ==> (normal_schema(schema) matches
            JsonSpec::Object(normal) && object_schema(normal) == object_schema(members)),
{
    law_normal_schema_is_idempotent(schema);
    lemma_normal_is_strict(normal_schema(schema));
    if schema is Object {
        reveal_keys();
        let source = schema->Object_0;
        let once = normal_schema(schema)->Object_0;
        if source.contains_key("type"@) && source["type"@] !is Null {
            assert(kept(source, "type"@));
            assert(once["type"@] == source["type"@]);
        }
    }
}

/// Normalising again changes nothing.
pub proof fn law_normal_schema_is_idempotent(schema: JsonSpec)
    requires
        finite_json(schema),
    ensures
        normal_schema(normal_schema(schema)) == normal_schema(schema),
        finite_json(normal_schema(schema)),
    decreases schema, 0nat,
{
    match schema {
        JsonSpec::Object(source) => {
            reveal_keys();
            let once = normal_schema(schema)->Object_0;
            assert forall|key: Seq<char>| kept(source, key) implies {
                &&& #[trigger] once.contains_key(key)
                &&& kept(once, key)
                &&& normal_member(key, once[key]) == once[key]
                &&& finite_json(once[key])
            } by {
                lemma_normal_not_null(key, source[key]);
                assert(finite_json(source[key]));
                assert(decreases_to!(schema => schema->Object_0));
                assert(decreases_to!(source => source[key]));
                lemma_normal_member_idempotent(key, source[key]);
            }
            assert(once.dom().subset_of(source.dom().insert("required"@)));
            vstd::set_lib::lemma_set_subset_finite(source.dom().insert("required"@), once.dom());
            assert forall|key: Seq<char>| #[trigger] once.contains_key(key) implies kept(once, key)
                && normal_member(key, once[key]) == once[key] && finite_json(once[key]) by {
                if !kept(source, key) {
                    assert(once[key] == JsonSpec::Array(Seq::empty()));
                }
            }
            assert(object_schema(once) == object_schema(source)) by {
                if source.contains_key("type"@) && source["type"@] !is Null {
                    assert(kept(source, "type"@));
                    assert(once["type"@] == source["type"@]);
                }
            }
            let twice = normal_schema(JsonSpec::Object(once))->Object_0;
            assert(twice =~= once);
        },
        JsonSpec::Array(items) => {
            assert(decreases_to!(schema => schema->Array_0));
            lemma_normal_items_idempotent(items);
        },
        _ => {},
    }
}

proof fn lemma_normal_items_idempotent(items: Seq<JsonSpec>)
    requires
        forall|i: int| 0 <= i < items.len() ==> finite_json(#[trigger] items[i]),
    ensures
        normal_items(normal_items(items)) == normal_items(items),
        finite_json(JsonSpec::Array(normal_items(items))),
    decreases items, 0nat,
{
    let once = normal_items(items);
    assert forall|i: int| 0 <= i < items.len() implies normal_schema(#[trigger] once[i]) == once[i]
        && finite_json(once[i]) by {
        assert(decreases_to!(items => items[i]));
        law_normal_schema_is_idempotent(items[i]);
    }
    assert(normal_items(once) =~= once);
}

proof fn lemma_normal_member_idempotent(key: Seq<char>, value: JsonSpec)
    requires
        finite_json(value),
    ensures
        normal_member(key, normal_member(key, value)) == normal_member(key, value),
        finite_json(normal_member(key, value)),
    decreases value, 1nat,
{
    reveal_keys();
    if key == "properties"@ && value is Object {
        let source = value->Object_0;
        let once = normal_member(key, value)->Object_0;
        assert forall|name: Seq<char>| source.contains_key(name) implies normal_schema(
            #[trigger] once[name],
        ) == once[name] && finite_json(once[name]) by {
            assert(finite_json(source[name]));
            assert(decreases_to!(value => value->Object_0));
            assert(decreases_to!(source => source[name]));
            law_normal_schema_is_idempotent(source[name]);
        }
        assert(once.dom() =~= source.dom());
        let twice = normal_member(key, JsonSpec::Object(once))->Object_0;
        assert(twice =~= once);
    } else if subschema_key(key) {
        law_normal_schema_is_idempotent(value);
    } else if schema_list_key(key) && value is Array {
        assert(decreases_to!(value => value->Array_0));
        lemma_normal_items_idempotent(value->Array_0);
    }
}

proof fn lemma_normal_not_null(key: Seq<char>, value: JsonSpec)
    requires
        value !is Null,
    ensures
        normal_member(key, value) !is Null,
{
}

/// The keys that the rules name are all different.
proof fn reveal_keys()
    ensures
        !subschema_key("format"@) && !schema_list_key("format"@) && "format"@ != "properties"@
            && "format"@ != "required"@,
        !subschema_key("type"@) && !schema_list_key("type"@) && "type"@ != "properties"@ && "type"@
            != "required"@ && "type"@ != "format"@,
        !subschema_key("required"@) && !schema_list_key("required"@) && "required"@
            != "properties"@,
        !subschema_key("properties"@) && !schema_list_key("properties"@),
{
    reveal_strlit("format");
    reveal_strlit("type");
    reveal_strlit("required");
    reveal_strlit("properties");
    reveal_strlit("items");
    reveal_strlit("additionalProperties");
    reveal_strlit("contains");
    reveal_strlit("not");
    reveal_strlit("if");
    reveal_strlit("then");
    reveal_strlit("else");
    reveal_strlit("allOf");
    reveal_strlit("anyOf");
    reveal_strlit("oneOf");
    reveal_strlit("prefixItems");
    assert("type"@[1] == 'y' && "then"@[1] == 'h' && "else"@[1] == 'l');
    assert("required"@[0] == 'r' && "contains"@[0] == 'c');
    assert("properties"@.len() == 10 && "prefixItems"@.len() == 11);
    assert("format"@.len() == 6);
}

} // verus!
