//! Answers of the upstream that are no success.
use crate::json::{parsed_json, Json, JsonSpec};
use crate::text::{chars_of, string_from};
use crate::translate::elements::{
    fit_output_to_window, fitted_output, overflow_sizes, parse_context_overflow, window_margin,
    MIN_OUTPUT,
};
use vstd::prelude::*;

verus! {

/// A status that may be gone at the next attempt.
pub open spec fn retriable_status(status: u16) -> bool {
    status == 429 || 500 <= status <= 599
}

pub fn is_retriable_status(status: u16) -> (r: bool)
    ensures
        r == retriable_status(status),
{
    status == 429 || (500 <= status && status <= 599)
}

// ---------------------------------------------------------------------------------------------
// The message in an error body.

/// How much of a body is shown that holds no message.
pub const SHOWN_CHARS: usize = 500;

/// The message in an error body that is JSON: that of its `error`, or else its own.
pub open spec fn error_message(body: JsonSpec) -> Option<Seq<char>> {
    let inner = match body.get("error"@) {
        Some(error) => error.get("message"@),
        None => None,
    };
    let field = match inner {
        Some(message) => Some(message),
        None => body.get("message"@),
    };
    match field {
        Some(message) => message.as_str(),
        None => None,
    }
}

/// The message to show for a body, given what it holds as JSON: the one in it, or else its
/// beginning.
pub open spec fn shown_message(body: Seq<char>, parsed: Option<JsonSpec>) -> Seq<char> {
    let found = match parsed {
        Some(json) => error_message(json),
        None => None,
    };
    match found {
        Some(message) => message,
        None => if body.len() > SHOWN_CHARS {
            body.take(SHOWN_CHARS as int)
        } else {
            body
        },
    }
}

/// The message to show for a body that has been parsed.
pub fn message_of_body(body: &str, parsed: &Option<Json>) -> (r: String)
    ensures
        r@ == shown_message(
            body@,
            match *parsed {
                Some(json) => Some(json@),
                None => None,
            },
        ),
{
    match parsed {
        Some(json) => {
            let inner = match json.get("error") {
                Some(error) => error.get("message"),
                None => None,
            };
            let field = match inner {
                Some(message) => Some(message),
                None => json.get("message"),
            };
            match field {
                Some(message) => match message.as_str() {
                    Some(text) => {
                        return text.to_owned();
                    },
                    None => {},
                },
                None => {},
            }
        },
        None => {},
    }
    let chars = chars_of(body);
    let shown: usize = if chars.len() > SHOWN_CHARS {
        SHOWN_CHARS
    } else {
        chars.len()
    };
    let start = string_from(&chars, 0, shown);
    assert(start@ =~= if body@.len() > SHOWN_CHARS {
        body@.take(SHOWN_CHARS as int)
    } else {
        body@
    });
    start
}

/// The message to show for an error body.
pub fn upstream_message(body: &str) -> (r: String)
    ensures
        r@ == shown_message(body@, parsed_json(body@)),
{
    message_of_body(body, &Json::parse(body))
}

// ---------------------------------------------------------------------------------------------
// Context overflow.

/// The output that fits after an overflow, given the size of the input as the upstream counts it,
/// where it does. The larger of that and of the error's own figure counts.
pub open spec fn clamped_output(
    message: Seq<char>,
    tokenized: Option<u32>,
    current_max: Option<u32>,
) -> Option<u32> {
    match overflow_sizes(message) {
        Some((context, least)) => {
            let counted = match tokenized {
                Some(n) => n,
                None => 0,
            };
            let input = if counted > least {
                counted
            } else {
                least as u32
            };
            fitted_output(context as u32, input, current_max)
        },
        None => None,
    }
}

/// Computes a `max_tokens` that fits the window after an overflow; `None` where the message
/// tells of none, where the prompt alone fills the window, and where no less output is needed.
pub fn clamp_for_overflow(
    message: &str,
    tokenized: Option<u32>,
    current_max: Option<u32>,
) -> (r: Option<u32>)
    ensures
        r == clamped_output(message@, tokenized, current_max),
{
    match parse_context_overflow(message) {
        Some((context, least)) => {
            let counted: u32 = match tokenized {
                Some(n) => n,
                None => 0,
            };
            let input: u32 = if counted > least {
                counted
            } else {
                least
            };
            fit_output_to_window(context, input, current_max)
        },
        None => None,
    }
}

/// A clamp always leaves less output than before and enough of it, and input, output and margin
/// fit the window together, whichever of the two input sizes is right.
pub proof fn law_clamp_fits_and_shrinks(
    message: Seq<char>,
    tokenized: Option<u32>,
    current_max: Option<u32>,
)
    requires
        clamped_output(message, tokenized, current_max) is Some,
    ensures
        ({
            let output = clamped_output(message, tokenized, current_max)->0;
            let (context, least) = overflow_sizes(message)->0;
            &&& MIN_OUTPUT <= output
            &&& current_max is Some ==> output < current_max->0
            &&& least + output + window_margin(context as int) <= context
            &&& tokenized is Some ==> tokenized->0 + output + window_margin(context as int)
                <= context
        }),
{
    let (context, least) = overflow_sizes(message)->0;
    assert(context <= u32::MAX && least <= u32::MAX);
}

/// Where the error's figure is what the upstream makes of the window and the output asked for,
/// the largest input that it can rule out, each clamp takes off more than the whole margin.
pub proof fn law_each_clamp_moves_down(
    message: Seq<char>,
    tokenized: Option<u32>,
    current_max: u32,
)
    requires
        clamped_output(message, tokenized, Some(current_max)) is Some,
        ({
            let (context, least) = overflow_sizes(message)->0;
            least + current_max == context + 1
        }),
    ensures
        ({
            let (context, least) = overflow_sizes(message)->0;
            let output = clamped_output(message, tokenized, Some(current_max))->0;
            output + window_margin(context as int) < current_max
        }),
{
    law_clamp_fits_and_shrinks(message, tokenized, Some(current_max));
}

} // verus!
