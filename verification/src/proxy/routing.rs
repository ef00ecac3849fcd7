//! Where a request goes.
use crate::config::Config;
use crate::error::{client_status, ErrorSpec, ProxyError};
use crate::models::anthropic::{AnthropicRequest, Tool};
use crate::proxy::upstream::{is_retriable_status, retriable_status};
use crate::text::{starts_with, starts_with_text};
use vstd::prelude::*;

verus! {

// ---------------------------------------------------------------------------------------------
// Web tools.

/// A tool that the service itself would run: web search or web fetch, in any version.
pub open spec fn web_tool(tool: Tool) -> bool {
    match tool.tool_type {
        Some(kind) => starts_with(kind@, "web_search_"@) || starts_with(kind@, "web_fetch_"@),
        None => false,
    }
}

pub open spec fn has_web_tool(tools: Option<Vec<Tool>>) -> bool {
    match tools {
        Some(tools) => exists|i: int| 0 <= i < tools@.len() && web_tool(#[trigger] tools@[i]),
        None => false,
    }
}

/// What becomes of the web tools of a request.
#[derive(Clone, Copy, Debug, PartialEq, Eq, Structural)]
pub enum WebRoute {
    /// There are none.
    Plain,
    /// A search agent runs them.
    Agent,
    /// There is no search agent, and they are left out.
    Strip,
}

/// The route of a request: without web tools the plain one, with them the agent's, where one is
/// configured.
pub open spec fn web_route_of(tools: Option<Vec<Tool>>, config: Config) -> WebRoute {
    if !has_web_tool(tools) {
        WebRoute::Plain
    } else if config.websearch_model is Some {
        WebRoute::Agent
    } else {
        WebRoute::Strip
    }
}

fn is_web_tool(tool: &Tool) -> (r: bool)
    ensures
        r == web_tool(*tool),
{
    match &tool.tool_type {
        Some(kind) => starts_with_text(kind.as_str(), "web_search_") || starts_with_text(
            kind.as_str(),
            "web_fetch_",
        ),
        None => false,
    }
}

/// Finds the route of a request.
pub fn web_route(req: &AnthropicRequest, config: &Config) -> (route: WebRoute)
    ensures
        route == web_route_of(req.tools, *config),
{
    match &req.tools {
        Some(tools) => {
            let mut i: usize = 0;
            while i < tools.len()
                invariant
                    i <= tools@.len(),
                    req.tools == Some(*tools),
                    forall|j: int| 0 <= j < i ==> !web_tool(#[trigger] tools@[j]),
                decreases tools@.len() - i,
            {
                if is_web_tool(&tools[i]) {
                    assert(web_tool(req.tools->0@[i as int]));
                    assert(has_web_tool(req.tools));
                    return if config.websearch_model.is_some() {
                        WebRoute::Agent
                    } else {
                        WebRoute::Strip
                    };
                }
                i += 1;
            }
            WebRoute::Plain
        },
        None => WebRoute::Plain,
    }
}

/// The tools without the web tools, in order.
pub open spec fn without_web_tools(tools: Seq<Tool>) -> Seq<Tool>
    decreases tools.len(),
{
    if tools.len() == 0 {
        Seq::empty()
    } else {
        let before = without_web_tools(tools.drop_last());
        if web_tool(tools.last()) {
            before
        } else {
            before.push(tools.last())
        }
    }
}

/// Leaves the web tools out.
pub fn strip_web_tools(tools: Option<Vec<Tool>>) -> (r: Option<Vec<Tool>>)
    ensures
        match tools {
            Some(all) => r is Some && r->0@ == without_web_tools(all@),
            None => r is None,
        },
{
    match tools {
        Some(tools) => {
            let ghost all = tools@;
            let mut left: Vec<Tool> = Vec::new();
            assert(all.take(0) =~= Seq::empty());
            for tool in it: tools
                invariant
                    it.seq() == all,
                    left@ == without_web_tools(all.take(it.index() as int)),
            {
                let ghost next = all.take(it.index() + 1);
                assert(next.drop_last() =~= all.take(it.index() as int));
                assert(next.last() == tool);
                if !is_web_tool(&tool) {
                    left.push(tool);
                }
            }
            assert(all.take(all.len() as int) =~= all);
            Some(left)
        },
        None => None,
    }
}

/// No web tool is left.
pub proof fn law_no_web_tool_is_left(tools: Seq<Tool>)
    ensures
        forall|i: int|
            0 <= i < without_web_tools(tools).len() ==> !web_tool(
                #[trigger] without_web_tools(tools)[i],
            ),
    decreases tools.len(),
{
    if tools.len() > 0 {
        law_no_web_tool_is_left(tools.drop_last());
        let before = without_web_tools(tools.drop_last());
        let all = without_web_tools(tools);
        assert forall|i: int| 0 <= i < all.len() implies !web_tool(#[trigger] all[i]) by {
            if i < before.len() {
                assert(all[i] == before[i]);
            }
        }
    }
}

// ---------------------------------------------------------------------------------------------
// The list of models.

/// What kept the list of models from coming from a URL.
#[derive(Debug)]
pub enum ListFailure {
    /// A status that is no success, the same in words, and the body.
    Status { status: u16, status_text: String, body: String },
    /// No answer: a transport failure, in words.
    Unreachable(String),
}

/// What to do about it.
#[derive(Debug)]
pub enum ListStep {
    /// Ask the next URL.
    Next,
    /// Give up.
    Fail(ProxyError),
}

/// The failure in words.
pub open spec fn failure_text(failure: ListFailure) -> Seq<char> {
    match failure {
        ListFailure::Status { status_text, body, .. } => "Upstream returned "@ + status_text@
            + ": "@ + body@,
        ListFailure::Unreachable(err) => "HTTP error: "@ + err@,
    }
}

/// The failure may be gone at another URL.
pub open spec fn worth_another(failure: ListFailure) -> bool {
    match failure {
        ListFailure::Status { status, .. } => retriable_status(status),
        ListFailure::Unreachable(_) => true,
    }
}

fn text_of_failure(failure: &ListFailure) -> (r: String)
    ensures
        r@ == failure_text(*failure),
{
    match failure {
        ListFailure::Status { status_text, body, .. } => {
            let mut text = "Upstream returned ".to_owned();
            text.append(status_text.as_str());
            text.append(": ");
            text.append(body.as_str());
            text
        },
        ListFailure::Unreachable(err) => {
            let mut text = "HTTP error: ".to_owned();
            text.append(err.as_str());
            text
        },
    }
}

/// The error that a client gets for a failure. A status is the upstream's own; only where no
/// answer came there is none.
pub open spec fn list_error(failure: ListFailure) -> ErrorSpec {
    match failure {
        ListFailure::Status { status, .. } => ErrorSpec::UpstreamStatus(
            status,
            failure_text(failure),
        ),
        ListFailure::Unreachable(_) => ErrorSpec::Upstream(failure_text(failure)),
    }
}

/// Decides what to do after a failure at one of the URLs, with that many left to ask.
pub fn after_list_failure(failure: &ListFailure, left: usize) -> (step: ListStep)
    ensures
        match step {
            ListStep::Next => worth_another(*failure) && left > 0,
            ListStep::Fail(err) => !(worth_another(*failure) && left > 0) && err@ == list_error(
                *failure,
            ),
        },
{
    let again = match failure {
        ListFailure::Status { status, .. } => is_retriable_status(*status),
        ListFailure::Unreachable(_) => true,
    };
    if again && left > 0 {
        ListStep::Next
    } else {
        let message = text_of_failure(failure);
        ListStep::Fail(
            match failure {
                ListFailure::Status { status, .. } => ProxyError::UpstreamStatus {
                    status: *status,
                    message,
                },
                ListFailure::Unreachable(_) => ProxyError::Upstream(message),
            },
        )
    }
}

/// A status from the models endpoint reaches the client as it is; that no answer came is a bad
/// gateway.
pub proof fn law_list_status_is_preserved(failure: ListFailure)
    ensures
        client_status(list_error(failure)) == match failure {
            ListFailure::Status { status, .. } => status,
            ListFailure::Unreachable(_) => 502,
        },
{
}

} // verus!
