//! Tools and the choice among them.
use crate::json::{Json, JsonMap, JsonSpec};
use crate::models::anthropic::Tool;
use crate::models::openai;
use crate::models::openai::{opt_json, ToolSpec};
use crate::models::opt_text;
use crate::text::same_text;
use crate::translate::schema::{normal_schema, normalize_schema};
use vstd::prelude::*;

verus! {

/// What a tool becomes: a function whose parameters are its schema in normal form.
pub open spec fn translated_tool(tool: Tool) -> ToolSpec {
    ToolSpec {
        tool_type: "function"@,
        name: tool.name@,
        description: opt_text(tool.description),
        parameters: normal_schema(tool.input_schema@),
    }
}

pub fn translate_tool(tool: Tool) -> (r: openai::Tool)
    ensures
        r@ == translated_tool(tool),
{
    openai::Tool {
        tool_type: "function".to_owned(),
        function: openai::Function {
            name: tool.name,
            description: tool.description,
            parameters: normalize_schema(tool.input_schema),
        },
    }
}

/// The tool is of the type that upstreams know nothing of.
pub open spec fn batch_tool(tool: Tool) -> bool {
    opt_text(tool.tool_type) == Some("BatchTool"@)
}

pub fn is_batch_tool(tool: &Tool) -> (r: bool)
    ensures
        r == batch_tool(*tool),
{
    match &tool.tool_type {
        Some(tool_type) => same_text(tool_type.as_str(), "BatchTool"),
        None => false,
    }
}

/// The choice of one function by its name.
pub open spec fn function_choice(name: Seq<char>) -> JsonSpec {
    JsonSpec::Object(
        map![
            "type"@ => JsonSpec::String("function"@),
            "function"@ => JsonSpec::Object(map!["name"@ => JsonSpec::String(name)]),
        ],
    )
}

/// What a `tool_choice` becomes. Any other type, and a tool without a name, give nothing.
pub open spec fn translated_choice(choice: JsonSpec) -> Option<JsonSpec> {
    if choice.str_at("type"@) == Some("auto"@) {
        Some(JsonSpec::String("auto"@))
    } else if choice.str_at("type"@) == Some("any"@) {
        Some(JsonSpec::String("required"@))
    } else if choice.str_at("type"@) == Some("none"@) {
        Some(JsonSpec::String("none"@))
    } else if choice.str_at("type"@) == Some("tool"@) {
        match choice.str_at("name"@) {
            Some(name) => Some(function_choice(name)),
            None => None,
        }
    } else {
        None
    }
}

/// Whether calls may run in parallel, where the choice says so.
pub open spec fn parallel_calls(choice: JsonSpec) -> Option<bool> {
    match choice.get("disable_parallel_tool_use"@) {
        Some(value) => match value.as_bool() {
            Some(disabled) => Some(!disabled),
            None => None,
        },
        None => None,
    }
}

fn choice_of_function(name: &str) -> (r: Json)
    ensures
        r@ == function_choice(name@),
{
    let function = JsonMap::new().insert("name".to_owned(), Json::from_text(name));
    assert(function@ =~= map!["name"@ => JsonSpec::String(name@)]);
    let choice = JsonMap::new().insert("type".to_owned(), Json::from_text("function")).insert(
        "function".to_owned(),
        Json::Object(function),
    );
    assert(choice@ =~= function_choice(name@)->Object_0);
    Json::Object(choice)
}

/// Translates a `tool_choice`. Returns the choice and whether calls may run in parallel.
pub fn translate_tool_choice(choice: &Json) -> (r: (Option<Json>, Option<bool>))
    ensures
        opt_json(r.0) == translated_choice(choice@),
        r.1 == parallel_calls(choice@),
{
    let parallel = match choice.get("disable_parallel_tool_use") {
        Some(value) => match value.as_bool() {
            Some(disabled) => Some(!disabled),
            None => None,
        },
        None => None,
    };
    let translated = match choice.str_at("type") {
        Some(kind) => if same_text(kind, "auto") {
            Some(Json::from_text("auto"))
        } else if same_text(kind, "any") {
            Some(Json::from_text("required"))
        } else if same_text(kind, "none") {
            Some(Json::from_text("none"))
        } else if same_text(kind, "tool") {
            match choice.str_at("name") {
                Some(name) => Some(choice_of_function(name)),
                None => None,
            }
        } else {
            None
        },
        None => None,
    };
    (translated, parallel)
}

} // verus!
