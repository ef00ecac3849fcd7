//! What is logged of a request.
use crate::json::{unsigned_number, JsonSpec};
use crate::proxy::requests::fields_summary;
use vstd::prelude::*;

verus! {

/// A request is logged with its fields as they are, but for the bulky ones: of those only how many
/// messages, tools and system blocks there are, and what the tools are called.
pub proof fn law_fields_are_logged(request: JsonSpec, key: Seq<char>)
    requires
        request is Object,
    ensures
        ({
            let line = fields_summary(request);
            let counted = |value: Option<JsonSpec>|
                match value {
                    Some(JsonSpec::Array(items)) => items.len(),
                    _ => 0nat,
                };
            &&& line is Object
            &&& line.get("messages"@) is None
            &&& line.get("system"@) is None
            &&& line.get("messages_count"@) == Some(
                JsonSpec::Number(unsigned_number(counted(request.get("messages"@)) as u64)),
            )
            &&& line.get("tools_count"@) == Some(
                JsonSpec::Number(unsigned_number(counted(request.get("tools"@)) as u64)),
            )
            &&& line.get("system_blocks"@) == Some(
                JsonSpec::Number(
                    unsigned_number(
                        (if request.get("system"@) matches Some(JsonSpec::String(_)) {
                            1
                        } else {
                            counted(request.get("system"@))
                        }) as u64,
                    ),
                ),
            )
            &&& line.get("tools"@) is Some
            &&& line.get("tools"@)->0 is Array
            &&& line.get("tools"@)->0->Array_0.len() == counted(request.get("tools"@))
            &&& key != "messages"@ && key != "tools"@ && key != "system"@ && key
                != "messages_count"@ && key != "tools_count"@ && key != "system_blocks"@ ==> line.get(
                key,
            ) == request.get(key)
        }),
{
    lemma_names_differ();
}

proof fn lemma_names_differ()
    ensures
        "messages"@.len() == 8,
        "tools"@.len() == 5,
        "system"@.len() == 6,
        "messages_count"@.len() == 14,
        "tools_count"@.len() == 11,
        "system_blocks"@.len() == 13,
{
    reveal_strlit("messages");
    reveal_strlit("tools");
    reveal_strlit("system");
    reveal_strlit("messages_count");
    reveal_strlit("tools_count");
    reveal_strlit("system_blocks");
}

/// A tool is called by its type, or else by its name; a question mark stands for what is no text.
pub proof fn law_tools_are_called(request: JsonSpec, i: int)
    requires
        request.get("tools"@) matches Some(JsonSpec::Array(items)) && 0 <= i < items.len(),
    ensures
        ({
            let tool = request.get("tools"@)->0->Array_0[i];
            let label = fields_summary(request).get("tools"@)->0->Array_0[i];
            &&& tool.get("type"@) matches Some(JsonSpec::String(kind)) ==> label
                == JsonSpec::String(kind)
            &&& tool.get("type"@) is None ==> (tool.get("name"@) matches Some(
                JsonSpec::String(name),
            ) ==> label == JsonSpec::String(name))
            &&& tool.get("type"@) is None && tool.get("name"@) is None ==> label
                == JsonSpec::String("?"@)
            &&& tool.get("type"@) is Some && !(tool.get("type"@)->0 is String) ==> label
                == JsonSpec::String("?"@)
        }),
{
    lemma_names_differ();
}

} // verus!
