//! What becomes of a request that is not answered at once.
use crate::error::{client_status, status_name, ErrorSpec};
use crate::json::JsonSpec;
use crate::models::openai::OpenAIRequestSpec;
use crate::proxy::compat::{canonical_text, canonicalized};
use crate::proxy::retry::{
    first_step, next_attempt, size_matters, step_after, transient, under_way, OutcomeSpec,
    RetrySpec, StepSpec, TransportFailure,
};
use crate::proxy::routing::{list_error, worth_another, ListFailure};
use crate::proxy::upstream::{clamped_output, retriable_status, shown_message};
use crate::text::{decimal, digit, first_at, lemma_find_is, occurs_at, split_once};
use crate::translate::elements::{
    fitted_output, leading_digits, leading_value, overflow_sizes, trailing_digits, trailing_value,
};
use vstd::prelude::*;

verus! {

// ---------------------------------------------------------------------------------------------
// Retries.

/// Requests are sent again after 429 and every 5xx, and after no other status for its own sake.
pub proof fn law_retriable_statuses(status: u16)
    ensures
        retriable_status(status) <==> status == 429 || status / 100 == 5,
{
}

/// A request starts at the first URL with its first attempt, as it is; without URLs it fails.
pub proof fn law_request_starts(request: OpenAIRequestSpec, urls: nat)
    ensures
        urls == 0 ==> first_step(request, urls) == StepSpec::Fail(
            ErrorSpec::Upstream("All upstreams failed"@),
        ),
        urls > 0 ==> {
            let step = first_step(request, urls);
            &&& step is Send
            &&& step->Send_0.request == request
            &&& step->Send_0.urls == urls
            &&& step->Send_0.url == 0
            &&& step->Send_0.attempt == 1
            &&& step->Send_0.clamps == 0
            &&& !step->Send_0.content_compat_attempted
            &&& step->Send_0.last_err is None
        },
{
}

/// Each URL gets three attempts, one after another, before the next URL gets any.
pub proof fn law_three_attempts_at_each_url(retry: RetrySpec)
    requires
        under_way(retry),
    ensures
        retry.attempt < 3 ==> next_attempt(retry) == StepSpec::Send(
            RetrySpec { attempt: retry.attempt + 1, ..retry },
        ),
        retry.attempt == 3 && retry.url + 1 < retry.urls ==> next_attempt(retry) == StepSpec::Send(
            RetrySpec { url: retry.url + 1, attempt: 1, ..retry },
        ),
        retry.attempt == 3 && retry.url + 1 == retry.urls && retry.last_err is Some ==> next_attempt(
            retry,
        ) == StepSpec::Fail(retry.last_err->0),
        retry.attempt <= 3,
{
}

/// An answer is accepted, for the request as it was sent.
pub proof fn law_answer_is_accepted(retry: RetrySpec, tokenized: Option<u32>)
    ensures
        step_after(retry, OutcomeSpec::Answered, tokenized) == StepSpec::Accept(retry.request),
{
}

/// A transport failure that a fresh connection may cure leads to the next attempt with the request
/// as it is, and is what is reported if there is none; any other fails the request at once.
pub proof fn law_transport_failures(retry: RetrySpec, err: ErrorSpec, tokenized: Option<u32>)
    ensures
        step_after(retry, OutcomeSpec::Fatal(err), tokenized) == StepSpec::Fail(err),
        step_after(retry, OutcomeSpec::Retriable(err), tokenized) == next_attempt(
            RetrySpec { last_err: Some(err), ..retry },
        ),
        retry.attempt == 3 && retry.url + 1 == retry.urls ==> step_after(
            retry,
            OutcomeSpec::Retriable(err),
            tokenized,
        ) == StepSpec::Fail(err),
{
}

/// A failure may be cured by a fresh connection where it came while connecting, sending, waiting
/// or reading.
pub proof fn law_transient_failures(failure: TransportFailure)
    ensures
        failure.connect ==> transient(failure),
        failure.timeout ==> transient(failure),
        failure.request ==> transient(failure),
        failure.body ==> transient(failure),
        failure.decode ==> transient(failure),
        !failure.connect && !failure.timeout && !failure.request && !failure.body
            && !failure.decode ==> !transient(failure),
{
}

/// A status that may be gone at the next attempt leads to it with the request as it is, and with
/// that status as the last error.
pub proof fn law_status_is_retried(
    retry: RetrySpec,
    status: u16,
    message: Seq<char>,
    tokenized: Option<u32>,
)
    requires
        status == 429 || 500 <= status <= 599,
    ensures
        step_after(retry, OutcomeSpec::Status(status, message), tokenized) == next_attempt(
            RetrySpec { last_err: Some(ErrorSpec::UpstreamStatus(status, message)), ..retry },
        ),
{
}

/// The output is clamped for a 400 only, and at most three times; the messages are changed for a
/// 422 only, and once. After any other status a request that is sent again is the same.
pub proof fn law_what_a_status_may_change(
    retry: RetrySpec,
    status: u16,
    message: Seq<char>,
    tokenized: Option<u32>,
)
    ensures
        step_after(retry, OutcomeSpec::Status(status, message), tokenized) matches StepSpec::Send(
            next,
        ) ==> {
            &&& next.request.max_tokens != retry.request.max_tokens ==> status == 400
                && retry.clamps < 3 && next.request.max_tokens == clamped_output(
                message,
                tokenized,
                retry.request.max_tokens,
            )
            &&& next.request.messages != retry.request.messages ==> status == 422
                && !retry.content_compat_attempted
            &&& status != 400 && status != 422 ==> next.request == retry.request
            &&& next.last_err == Some(ErrorSpec::UpstreamStatus(status, message))
        },
        status == 400 && retry.clamps < 3 && clamped_output(
            message,
            tokenized,
            retry.request.max_tokens,
        ) is Some && retry.attempt < 3 ==> {
            let step = step_after(retry, OutcomeSpec::Status(status, message), tokenized);
            &&& step is Send
            &&& step->Send_0.request.max_tokens == clamped_output(
                message,
                tokenized,
                retry.request.max_tokens,
            )
            &&& step->Send_0.clamps == retry.clamps + 1
            &&& step->Send_0.attempt == retry.attempt + 1
            &&& step->Send_0.url == retry.url
        },
{
}

/// An overflow is cured by less output: the next attempt asks for what fits, and for nothing else
/// than before. Content that an upstream rejects is cured, once, by plain text in the message that
/// the error names.
pub proof fn law_cures(
    retry: RetrySpec,
    message: Seq<char>,
    tokenized: Option<u32>,
    output: u32,
)
    ensures
        retry.clamps < 3 && clamped_output(message, tokenized, retry.request.max_tokens) == Some(
            output,
        ) ==> step_after(retry, OutcomeSpec::Status(400, message), tokenized) == next_attempt(
            RetrySpec {
                request: OpenAIRequestSpec { max_tokens: Some(output), ..retry.request },
                clamps: retry.clamps + 1,
                last_err: Some(ErrorSpec::UpstreamStatus(400, message)),
                ..retry
            },
        ),
        !retry.content_compat_attempted && canonical_text(retry.request.messages, message) is Some
            ==> step_after(retry, OutcomeSpec::Status(422, message), tokenized) == next_attempt(
            RetrySpec {
                request: OpenAIRequestSpec {
                    messages: canonicalized(retry.request.messages, message),
                    ..retry.request
                },
                content_compat_attempted: true,
                last_err: Some(ErrorSpec::UpstreamStatus(422, message)),
                ..retry
            },
        ),
        retry.content_compat_attempted || canonical_text(retry.request.messages, message) is None
            ==> step_after(retry, OutcomeSpec::Status(422, message), tokenized) == StepSpec::Fail(
            ErrorSpec::UpstreamStatus(422, message),
        ),
        retry.clamps >= 3 || clamped_output(message, tokenized, retry.request.max_tokens) is None
            ==> step_after(retry, OutcomeSpec::Status(400, message), tokenized) == StepSpec::Fail(
            ErrorSpec::UpstreamStatus(400, message),
        ),
{
}

/// The size of the input is asked for exactly where it may decide: for a 400 that tells of an
/// overflow, while clamping is in order.
pub proof fn law_size_is_asked_for_an_overflow(retry: RetrySpec, outcome: OutcomeSpec)
    ensures
        size_matters(retry, outcome) <==> (outcome matches OutcomeSpec::Status(status, message)
            && status == 400 && retry.clamps < 3 && overflow_sizes(message) is Some),
        !size_matters(retry, outcome) ==> forall|a: Option<u32>, b: Option<u32>|
            #![trigger step_after(retry, outcome, a), step_after(retry, outcome, b)]
            step_after(retry, outcome, a) == step_after(retry, outcome, b),
{
}

// ---------------------------------------------------------------------------------------------
// Overflow.

/// What fits a window: what input and margin leave of it, where that is 256 tokens or more and
/// less than what was asked for. The margin is a fiftieth of the window, and no less than 1024.
pub proof fn law_output_fits_the_window(context: u32, input: u32, current_max: Option<u32>)
    ensures
        ({
            let margin = if context / 50 >= 1024 {
                (context / 50) as int
            } else {
                1024
            };
            let left = context - input - margin;
            let asked = match current_max {
                Some(max) => max as int,
                None => u32::MAX as int,
            };
            match fitted_output(context, input, current_max) {
                Some(output) => {
                    &&& input + margin + output == context
                    &&& output >= 256
                    &&& output < asked
                },
                None => left < 256 || left >= asked,
            }
        }),
{
}

/// Of the two sizes of the input, the larger counts.
pub proof fn law_larger_input_counts(
    message: Seq<char>,
    tokenized: Option<u32>,
    current_max: Option<u32>,
)
    ensures
        overflow_sizes(message) is None ==> clamped_output(message, tokenized, current_max) is None,
        overflow_sizes(message) is Some ==> {
            let (context, least) = overflow_sizes(message)->0;
            let counted = match tokenized {
                Some(n) => n as nat,
                None => 0,
            };
            &&& context <= u32::MAX && least <= u32::MAX
            &&& counted >= least ==> clamped_output(message, tokenized, current_max)
                == fitted_output(context as u32, counted as u32, current_max)
            &&& counted <= least ==> clamped_output(message, tokenized, current_max)
                == fitted_output(context as u32, least as u32, current_max)
        },
{
}

proof fn lemma_leading(number: Seq<char>, rest: Seq<char>)
    requires
        forall|i: int| 0 <= i < number.len() ==> digit(#[trigger] number[i]),
        rest.len() == 0 || !digit(rest[0]),
    ensures
        leading_digits(number + rest) == number.len(),
    decreases number.len(),
{
    let whole = number + rest;
    if number.len() == 0 {
        assert(whole =~= rest);
    } else {
        assert(whole[0] == number[0]);
        assert(whole.drop_first() =~= number.drop_first() + rest);
        assert forall|i: int| 0 <= i < number.drop_first().len() implies digit(
            #[trigger] number.drop_first()[i],
        ) by {
            assert(number.drop_first()[i] == number[i + 1]);
        }
        lemma_leading(number.drop_first(), rest);
    }
}

proof fn lemma_trailing(before: Seq<char>, number: Seq<char>)
    requires
        forall|i: int| 0 <= i < number.len() ==> digit(#[trigger] number[i]),
        before.len() == 0 || !digit(before.last()),
    ensures
        trailing_digits(before + number) == number.len(),
    decreases number.len(),
{
    let whole = before + number;
    if number.len() == 0 {
        assert(whole =~= before);
    } else {
        assert(whole.last() == number[number.len() - 1]);
        assert(whole.drop_last() =~= before + number.drop_last());
        assert forall|i: int| 0 <= i < number.drop_last().len() implies digit(
            #[trigger] number.drop_last()[i],
        ) by {
            assert(number.drop_last()[i] == number[i]);
        }
        lemma_trailing(before, number.drop_last());
    }
}

/// The number that a text starts or ends with is all the digits there.
pub proof fn law_number_at_an_end(before: Seq<char>, number: Seq<char>, rest: Seq<char>)
    requires
        number.len() > 0,
        forall|i: int| 0 <= i < number.len() ==> digit(#[trigger] number[i]),
        rest.len() == 0 || !digit(rest[0]),
        before.len() == 0 || !digit(before.last()),
        decimal(number) <= u32::MAX,
    ensures
        leading_value(number + rest) == Some(decimal(number)),
        trailing_value(before + number) == Some(decimal(number)),
{
    lemma_leading(number, rest);
    lemma_trailing(before, number);
    assert((number + rest).take(number.len() as int) =~= number);
    assert((before + number).skip(before.len() as int) =~= number);
}

/// A message tells of an overflow by the window, the number behind "context length is ", and by
/// the input, the number behind "contains at least " or else before " input tokens"; of each
/// phrase the first place counts.
pub proof fn law_overflow_is_read(message: Seq<char>, i: int, j: int, window: nat, input: nat)
    requires
        first_at(message, "context length is "@, i),
        leading_value(message.skip(i + 18)) == Some(window),
    ensures
        first_at(message, "contains at least "@, j) && leading_value(message.skip(j + 18)) == Some(
            input,
        ) ==> overflow_sizes(message) == Some((window, input)),
        (forall|k: int| !#[trigger] occurs_at(message, "contains at least "@, k)) && first_at(
            message,
            " input tokens"@,
            j,
        ) && trailing_value(message.take(j)) == Some(input) ==> overflow_sizes(message) == Some(
            (window, input),
        ),
{
    reveal_strlit("context length is ");
    reveal_strlit("contains at least ");
    lemma_find_is(message, "context length is "@, i);
    if first_at(message, "contains at least "@, j) {
        lemma_find_is(message, "contains at least "@, j);
    }
    if first_at(message, " input tokens"@, j) {
        lemma_find_is(message, " input tokens"@, j);
    }
    if forall|k: int| !#[trigger] occurs_at(message, "contains at least "@, k) {
        assert(split_once(message, "contains at least "@) is None);
    }
}

/// Without the window no message tells of an overflow.
pub proof fn law_no_overflow_without_window(message: Seq<char>)
    requires
        forall|k: int| !#[trigger] occurs_at(message, "context length is "@, k),
    ensures
        overflow_sizes(message) is None,
{
    assert(split_once(message, "context length is "@) is None);
}

// ---------------------------------------------------------------------------------------------
// What a client is told.

/// The message in an error body: that of its error, or else its own; where there is none that is
/// text, the body itself, of which 500 characters are shown.
pub proof fn law_message_is_shown(body: Seq<char>, parsed: Option<JsonSpec>, message: Seq<char>)
    ensures
        ({
            let shown = shown_message(body, parsed);
            let start = if body.len() <= 500 {
                body
            } else {
                body.take(500)
            };
            &&& parsed is None ==> shown == start
            &&& parsed is Some ==> {
                let json = parsed->0;
                let inner = match json.get("error"@) {
                    Some(error) => error.get("message"@),
                    None => None,
                };
                &&& inner == Some(JsonSpec::String(message)) ==> shown == message
                &&& inner is None && json.get("message"@) == Some(JsonSpec::String(message))
                    ==> shown == message
                &&& inner is None && json.get("message"@) is None ==> shown == start
                &&& inner is Some && !(inner->0 is String) ==> shown == start
            }
        }),
{
}

/// The status that a client gets: the upstream's own, or else a bad gateway for what the upstream
/// owes, and an internal error for what the proxy does.
pub proof fn law_status_of_an_error(err: ErrorSpec)
    ensures
        err matches ErrorSpec::UpstreamStatus(status, _) ==> client_status(err) == status,
        err is Upstream || err is Http ==> client_status(err) == 502,
        err is Transform || err is Serialization ==> client_status(err) == 500,
{
}

/// What an error is called, by its status.
pub proof fn law_name_of_a_status(status: u16)
    ensures
        status == 401 ==> status_name(status) == "authentication_error"@,
        status == 403 ==> status_name(status) == "permission_error"@,
        status == 404 ==> status_name(status) == "not_found_error"@,
        status == 413 ==> status_name(status) == "request_too_large"@,
        status == 429 ==> status_name(status) == "rate_limit_error"@,
        status / 100 == 4 && status != 401 && status != 403 && status != 404 && status != 413
            && status != 429 ==> status_name(status) == "invalid_request_error"@,
        status / 100 != 4 ==> status_name(status) == "api_error"@,
{
}

/// Another URL is asked for the list of models where none answered or where the status may be gone
/// there; what is told of the last names the status and the body, or the failure.
pub proof fn law_list_failures(failure: ListFailure)
    ensures
        failure matches ListFailure::Status { status, status_text, body } ==> {
            &&& worth_another(failure) <==> status == 429 || status / 100 == 5
            &&& list_error(failure) == ErrorSpec::UpstreamStatus(
                status,
                "Upstream returned "@ + status_text@ + ": "@ + body@,
            )
        },
        failure matches ListFailure::Unreachable(err) ==> {
            &&& worth_another(failure)
            &&& list_error(failure) == ErrorSpec::Upstream("HTTP error: "@ + err@)
        },
{
}

} // verus!
