//! What becomes of tools, of their schemas and of the choice among them.
use crate::json::{finite_json, JsonSpec};
use crate::models::anthropic::Tool;
use crate::models::opt_text;
use crate::translate::schema::{
    kept, law_normal_schema_is_strict, normal_items, normal_member, normal_schema, object_schema,
    schema_list_key, strict_member, strict_schema, subschema_key,
};
use crate::translate::tools::{batch_tool, parallel_calls, translated_choice, translated_tool};
use vstd::prelude::*;

verus! {

/// The keys whose value is a schema.
pub open spec fn holds_schema(key: Seq<char>) -> bool {
    key == "items"@ || key == "additionalProperties"@ || key == "contains"@ || key == "not"@ || key
        == "if"@ || key == "then"@ || key == "else"@
}

/// The keys whose value is a list of schemas.
pub open spec fn holds_schemas(key: Seq<char>) -> bool {
    key == "allOf"@ || key == "anyOf"@ || key == "oneOf"@ || key == "prefixItems"@
}

/// The keys that the rules speak of are all different.
proof fn lemma_keys_differ()
    ensures
        !holds_schema("format"@) && !holds_schemas("format"@),
        !holds_schema("required"@) && !holds_schemas("required"@),
        !holds_schema("properties"@) && !holds_schemas("properties"@),
        !holds_schema("type"@) && !holds_schemas("type"@),
        "format"@ != "required"@ && "format"@ != "properties"@ && "required"@ != "properties"@,
        "type"@ != "required"@ && "type"@ != "properties"@ && "type"@ != "format"@,
        forall|key: Seq<char>| #[trigger] holds_schema(key) ==> !holds_schemas(key),
{
    reveal_strlit("format");
    reveal_strlit("type");
    reveal_strlit("required");
    reveal_strlit("properties");
    reveal_strlit("items");
    reveal_strlit("additionalProperties");
    reveal_strlit("contains");
    reveal_strlit("not");
    reveal_strlit("if");
    reveal_strlit("then");
    reveal_strlit("else");
    reveal_strlit("allOf");
    reveal_strlit("anyOf");
    reveal_strlit("oneOf");
    reveal_strlit("prefixItems");
    assert("type"@[1] == 'y' && "then"@[1] == 'h' && "else"@[1] == 'l');
    assert("required"@[0] == 'r' && "contains"@[0] == 'c');
    assert("properties"@.len() == 10 && "prefixItems"@.len() == 11);
    assert("format"@.len() == 6);
    assert("items"@[0] == 'i' && "allOf"@[0] == 'a' && "anyOf"@[0] == 'a' && "oneOf"@[0] == 'o');
    assert("items"@.len() == 5 && "allOf"@.len() == 5 && "anyOf"@.len() == 5 && "oneOf"@.len() == 5);
    assert("additionalProperties"@.len() == 20 && "contains"@.len() == 8 && "not"@.len() == 3
        && "if"@.len() == 2 && "then"@.len() == 4 && "else"@.len() == 4 && "required"@.len() == 8
        && "type"@.len() == 4);
}

/// A list of required names stays as it is.
pub proof fn law_required_list_is_kept(schema: JsonSpec)
    requires
        finite_json(schema),
        schema.get("required"@) is Some,
        schema.get("required"@)->0 is Array,
    ensures
        normal_schema(schema).get("required"@) == schema.get("required"@),
{
    lemma_keys_differ();
    let members = schema->Object_0;
    assert(kept(members, "required"@));
}

/// Which members a schema has in normal form: those that are not null, without the format "uri",
/// and `required` in any object's schema.
pub proof fn law_members_that_stay(schema: JsonSpec, key: Seq<char>)
    requires
        schema is Object,
    ensures
        ({
            let given = schema.get(key);
            let stays = given is Some && given != Some(JsonSpec::Null) && !(key == "format"@
                && given == Some(JsonSpec::String("uri"@)));
            let added = key == "required"@ && schema.get("type"@) == Some(
                JsonSpec::String("object"@),
            );
            &&& normal_schema(schema).get(key) is Some <==> stays || added
            &&& added && !stays ==> normal_schema(schema).get(key) == Some(
                JsonSpec::Array(Seq::empty()),
            )
        }),
{
    let members = schema->Object_0;
    if added_only(schema, key) {
        assert(!kept(members, key));
    }
}

spec fn added_only(schema: JsonSpec, key: Seq<char>) -> bool {
    key == "required"@ && object_schema(schema->Object_0) && !kept(schema->Object_0, key)
}

/// What a member becomes: a schema is brought into normal form itself, in a list and among the
/// properties each one; `required` becomes an empty list where it is none; everything else stays
/// as it is.
pub proof fn law_members_become(schema: JsonSpec, key: Seq<char>)
    requires
        schema is Object,
        finite_json(schema),
        schema.get(key) is Some,
        normal_schema(schema).get(key) is Some,
        schema.get(key) != Some(JsonSpec::Null),
    ensures
        ({
            let given = schema.get(key)->0;
            let made = normal_schema(schema).get(key)->0;
            &&& holds_schema(key) ==> made == normal_schema(given)
            &&& holds_schemas(key) && given is Array ==> {
                &&& made is Array
                &&& made->Array_0.len() == given->Array_0.len()
                &&& forall|i: int|
                    0 <= i < given->Array_0.len() ==> #[trigger] made->Array_0[i] == normal_schema(
                        given->Array_0[i],
                    )
            }
            &&& key == "properties"@ && given is Object ==> {
                &&& made is Object
                &&& forall|name: Seq<char>| #[trigger]
                    made->Object_0.contains_key(name) <==> given->Object_0.contains_key(name)
                &&& forall|name: Seq<char>|
                    given->Object_0.contains_key(name) ==> #[trigger] made->Object_0[name]
                        == normal_schema(given->Object_0[name])
            }
            &&& key == "required"@ && !(given is Array) ==> made == JsonSpec::Array(Seq::empty())
            &&& (!holds_schema(key) && !(holds_schemas(key) && given is Array) && !(key
                == "properties"@ && given is Object) && !(key == "required"@ && !(given
                is Array))) ==> made == given
        }),
{
    lemma_keys_differ();
    let members = schema->Object_0;
    let given = members[key];
    let made = normal_schema(schema)->Object_0[key];
    assert(finite_json(given));
    assert(kept(members, key)) by {
        if !kept(members, key) {
            assert(key == "required"@);
        }
    }
    assert(made == normal_member(key, given));
    if key == "properties"@ && given is Object {
        let names = made->Object_0;
        assert forall|name: Seq<char>| given->Object_0.contains_key(name) implies
            #[trigger] names[name] == normal_schema(given->Object_0[name]) by {
            assert(given->Object_0.dom().finite());
        }
    }
}

/// What is no object and no list stays; of a list each item is brought into normal form.
pub proof fn law_other_values_stay(schema: JsonSpec)
    ensures
        !(schema is Object) && !(schema is Array) ==> normal_schema(schema) == schema,
        schema is Array ==> {
            let made = normal_schema(schema);
            &&& made is Array
            &&& made->Array_0.len() == schema->Array_0.len()
            &&& forall|i: int|
                0 <= i < schema->Array_0.len() ==> #[trigger] made->Array_0[i] == normal_schema(
                    schema->Array_0[i],
                )
        },
{
}

/// A schema that strict upstreams accept already is sent as it is.
pub proof fn law_strict_schema_is_sent_as_given(schema: JsonSpec)
    requires
        finite_json(schema),
        strict_schema(schema),
    ensures
        normal_schema(schema) == schema,
    decreases schema, 0nat,
{
    match schema {
        JsonSpec::Object(members) => {
            lemma_keys_differ();
            let made = normal_schema(schema)->Object_0;
            assert forall|key: Seq<char>| #[trigger] members.contains_key(key) implies kept(
                members,
                key,
            ) && normal_member(key, members[key]) == members[key] by {
                assert(finite_json(members[key]));
                assert(strict_member(key, members[key]));
                assert(decreases_to!(schema => schema->Object_0));
                assert(decreases_to!(members => members[key]));
                lemma_strict_member(key, members[key]);
            }
            assert(made =~= members);
        },
        JsonSpec::Array(items) => {
            assert(decreases_to!(schema => schema->Array_0));
            lemma_strict_items(items);
        },
        _ => {},
    }
}

proof fn lemma_strict_items(items: Seq<JsonSpec>)
    requires
        forall|i: int| 0 <= i < items.len() ==> finite_json(#[trigger] items[i]),
        forall|i: int| 0 <= i < items.len() ==> strict_schema(#[trigger] items[i]),
    ensures
        normal_items(items) == items,
    decreases items, 0nat,
{
    let made = normal_items(items);
    assert forall|i: int| 0 <= i < items.len() implies #[trigger] made[i] == items[i] by {
        assert(decreases_to!(items => items[i]));
        law_strict_schema_is_sent_as_given(items[i]);
    }
    assert(made =~= items);
}

proof fn lemma_strict_member(key: Seq<char>, value: JsonSpec)
    requires
        finite_json(value),
        strict_member(key, value),
        key == "required"@ ==> value is Array,
    ensures
        normal_member(key, value) == value,
    decreases value, 1nat,
{
    if key == "properties"@ && value is Object {
        let properties = value->Object_0;
        let made = normal_member(key, value)->Object_0;
        assert forall|name: Seq<char>| properties.contains_key(name) implies #[trigger] made[name]
            == properties[name] by {
            assert(finite_json(properties[name]));
            assert(strict_schema(properties[name]));
            assert(decreases_to!(value => value->Object_0));
            assert(decreases_to!(properties => properties[name]));
            law_strict_schema_is_sent_as_given(properties[name]);
        }
        assert(made =~= properties);
    } else if subschema_key(key) {
        law_strict_schema_is_sent_as_given(value);
    } else if schema_list_key(key) && value is Array {
        assert(decreases_to!(value => value->Array_0));
        lemma_strict_items(value->Array_0);
    }
}

/// A tool goes out as a function with its name and its description; a schema that strict upstreams
/// accept is its parameters as it is, and any other schema is made one that they accept.
pub proof fn law_tool_is_a_function(tool: Tool)
    requires
        finite_json(tool.input_schema@),
    ensures
        ({
            let function = translated_tool(tool);
            &&& function.tool_type == "function"@
            &&& function.name == tool.name@
            &&& function.description == opt_text(tool.description)
            &&& strict_schema(function.parameters)
            &&& strict_schema(tool.input_schema@) ==> function.parameters == tool.input_schema@
            &&& function.parameters == normal_schema(tool.input_schema@)
        }),
{
    law_normal_schema_is_strict(tool.input_schema@);
    if strict_schema(tool.input_schema@) {
        law_strict_schema_is_sent_as_given(tool.input_schema@);
    }
}

/// A tool is a batch tool by its type alone.
pub proof fn law_batch_tool_by_its_type(tool: Tool)
    ensures
        batch_tool(tool) <==> tool.tool_type is Some && tool.tool_type->0@ == "BatchTool"@,
{
}

/// A choice among tools by its type: "auto" and "none" stay, "any" is "required", and "tool"
/// names the function. Nothing else is a choice.
pub proof fn law_choice_by_its_type(choice: JsonSpec)
    ensures
        ({
            let kind = choice.get("type"@);
            let made = translated_choice(choice);
            &&& kind == Some(JsonSpec::String("auto"@)) ==> made == Some(JsonSpec::String("auto"@))
            &&& kind == Some(JsonSpec::String("any"@)) ==> made == Some(
                JsonSpec::String("required"@),
            )
            &&& kind == Some(JsonSpec::String("none"@)) ==> made == Some(JsonSpec::String("none"@))
            &&& kind == Some(JsonSpec::String("tool"@)) ==> match choice.get("name"@) {
                Some(JsonSpec::String(name)) => {
                    &&& made is Some
                    &&& made->0.get("type"@) == Some(JsonSpec::String("function"@))
                    &&& made->0.get("function"@) is Some
                    &&& made->0.get("function"@)->0.get("name"@) == Some(JsonSpec::String(name))
                    &&& made->0->Object_0.dom() =~= set!["type"@, "function"@]
                    &&& made->0.get("function"@)->0->Object_0.dom() =~= set!["name"@]
                },
                _ => made is None,
            }
            &&& kind != Some(JsonSpec::String("auto"@)) && kind != Some(JsonSpec::String("any"@))
                && kind != Some(JsonSpec::String("none"@)) && kind != Some(
                JsonSpec::String("tool"@),
            ) ==> made is None
        }),
{
    reveal_strlit("auto");
    reveal_strlit("any");
    reveal_strlit("none");
    reveal_strlit("tool");
    reveal_strlit("type");
    reveal_strlit("function");
    assert("auto"@[0] == 'a' && "none"@[0] == 'n' && "tool"@[0] == 't' && "any"@.len() == 3
        && "auto"@.len() == 4 && "none"@.len() == 4 && "tool"@.len() == 4);
    assert("type"@.len() == 4 && "function"@.len() == 8);
}

/// Calls may run in parallel exactly where the choice says that this is not disabled, and nothing
/// is said where it says nothing.
pub proof fn law_parallel_calls_unless_disabled(choice: JsonSpec)
    ensures
        ({
            let disabled = choice.get("disable_parallel_tool_use"@);
            &&& disabled == Some(JsonSpec::Bool(true)) ==> parallel_calls(choice) == Some(false)
            &&& disabled == Some(JsonSpec::Bool(false)) ==> parallel_calls(choice) == Some(true)
            &&& !(disabled matches Some(JsonSpec::Bool(_))) ==> parallel_calls(choice) is None
        }),
{
}

} // verus!
