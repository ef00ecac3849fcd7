//! Sending a request until it is answered or given up.
//!
//! The upstream may have several URLs. Each gets a fixed number of attempts, and what came of an
//! attempt decides on the next: the same request again, the request with less output, the request
//! with one message made plain, or none.
use crate::error::{client_status, ErrorSpec, ProxyError};
use crate::models::openai::{OpenAIRequest, OpenAIRequestSpec};
use crate::proxy::compat::{
    canonical_text, canonicalize_rejected_message_content, canonicalized,
};
use crate::proxy::upstream::{
    clamp_for_overflow, clamped_output, is_retriable_status, law_clamp_fits_and_shrinks,
    retriable_status,
};
use crate::translate::elements::{overflow_sizes, parse_context_overflow};
use vstd::prelude::*;

verus! {

/// Attempts per URL.
pub const MAX_ATTEMPTS: usize = 3;

/// How often the output of one request is clamped.
pub const MAX_CLAMP_RETRIES: u32 = 3;

/// What came of an attempt.
#[derive(Debug)]
pub enum Outcome {
    /// A success, and where the whole body is needed that too.
    Answered,
    /// A transport failure that a fresh connection may cure.
    Retriable(ProxyError),
    /// An HTTP status that is no success, and the message of its body.
    Status { status: u16, message: String },
    /// Any other transport failure.
    Fatal(ProxyError),
}

/// A transport failure: where it happened, as far as that is known, and in words.
#[derive(Debug)]
pub struct TransportFailure {
    pub connect: bool,
    pub timeout: bool,
    pub request: bool,
    pub body: bool,
    pub decode: bool,
    pub message: String,
}

/// A request on its way: one attempt is under way.
#[derive(Debug)]
pub struct Retry {
    request: OpenAIRequest,
    urls: usize,
    url: usize,
    attempt: usize,
    clamps: u32,
    content_compat_attempted: bool,
    last_err: Option<ProxyError>,
}

/// What to do next.
#[derive(Debug)]
pub enum Step {
    /// Send the request of this state to its URL.
    Send(Retry),
    /// The request has its answer. This is the request as it was sent.
    Accept(OpenAIRequest),
    /// The request has failed.
    Fail(ProxyError),
}

pub ghost enum OutcomeSpec {
    Answered,
    Retriable(ErrorSpec),
    Status(u16, Seq<char>),
    Fatal(ErrorSpec),
}

pub ghost struct RetrySpec {
    pub request: OpenAIRequestSpec,
    pub urls: nat,
    /// The URL, counted from 0.
    pub url: nat,
    /// The attempt at the URL, counted from 1.
    pub attempt: nat,
    pub clamps: nat,
    pub content_compat_attempted: bool,
    pub last_err: Option<ErrorSpec>,
}

pub ghost enum StepSpec {
    Send(RetrySpec),
    Accept(OpenAIRequestSpec),
    Fail(ErrorSpec),
}

pub open spec fn opt_error(err: Option<ProxyError>) -> Option<ErrorSpec> {
    match err {
        Some(err) => Some(err@),
        None => None,
    }
}

impl Outcome {
    pub open spec fn view(&self) -> OutcomeSpec {
        match self {
            Outcome::Answered => OutcomeSpec::Answered,
            Outcome::Retriable(err) => OutcomeSpec::Retriable(err@),
            Outcome::Status { status, message } => OutcomeSpec::Status(*status, message@),
            Outcome::Fatal(err) => OutcomeSpec::Fatal(err@),
        }
    }
}

impl Step {
    pub open spec fn view(&self) -> StepSpec {
        match self {
            Step::Send(retry) => StepSpec::Send(retry@),
            Step::Accept(request) => StepSpec::Accept(request@),
            Step::Fail(err) => StepSpec::Fail(err@),
        }
    }
}

/// The failure may be one of the connection, which a fresh one may cure.
pub open spec fn transient(failure: TransportFailure) -> bool {
    failure.connect || failure.timeout || failure.request || failure.body || failure.decode
}

/// What a transport failure means for an attempt.
pub fn transport_outcome(failure: TransportFailure) -> (o: Outcome)
    ensures
        o@ == (if transient(failure) {
            OutcomeSpec::Retriable(ErrorSpec::Http(failure.message@))
        } else {
            OutcomeSpec::Fatal(ErrorSpec::Http(failure.message@))
        }),
{
    let curable = failure.connect || failure.timeout || failure.request || failure.body
        || failure.decode;
    let err = ProxyError::Http(failure.message);
    if curable {
        Outcome::Retriable(err)
    } else {
        Outcome::Fatal(err)
    }
}

/// A state that a request can be in.
pub open spec fn under_way(retry: RetrySpec) -> bool {
    &&& retry.url < retry.urls
    &&& 1 <= retry.attempt <= MAX_ATTEMPTS
    &&& retry.clamps <= MAX_CLAMP_RETRIES
}

/// The first step for a request.
pub open spec fn first_step(request: OpenAIRequestSpec, urls: nat) -> StepSpec {
    if urls == 0 {
        StepSpec::Fail(ErrorSpec::Upstream("All upstreams failed"@))
    } else {
        StepSpec::Send(
            RetrySpec {
                request,
                urls,
                url: 0,
                attempt: 1,
                clamps: 0,
                content_compat_attempted: false,
                last_err: None,
            },
        )
    }
}

/// The next attempt, at the same URL or at the next, or else the last error.
pub open spec fn next_attempt(retry: RetrySpec) -> StepSpec {
    if retry.attempt < MAX_ATTEMPTS {
        StepSpec::Send(RetrySpec { attempt: retry.attempt + 1, ..retry })
    } else if retry.url + 1 < retry.urls {
        StepSpec::Send(RetrySpec { url: retry.url + 1, attempt: 1, ..retry })
    } else {
        StepSpec::Fail(
            match retry.last_err {
                Some(err) => err,
                None => ErrorSpec::Upstream("All upstreams failed"@),
            },
        )
    }
}

/// The attempt has failed because of content that can be made plain, which is done once.
pub open spec fn content_rejected(retry: RetrySpec, status: u16, message: Seq<char>) -> bool {
    status == 422 && !retry.content_compat_attempted && canonical_text(
        retry.request.messages,
        message,
    ) is Some
}

/// The output that a context overflow leaves, while clamping is still in order.
pub open spec fn overflow_clamp(
    retry: RetrySpec,
    status: u16,
    message: Seq<char>,
    tokenized: Option<u32>,
) -> Option<u32> {
    if status == 400 && retry.clamps < MAX_CLAMP_RETRIES {
        clamped_output(message, tokenized, retry.request.max_tokens)
    } else {
        None
    }
}

/// The step after a status that is no success.
pub open spec fn status_step(
    retry: RetrySpec,
    status: u16,
    message: Seq<char>,
    tokenized: Option<u32>,
) -> StepSpec {
    if content_rejected(retry, status, message) {
        next_attempt(
            RetrySpec {
                request: OpenAIRequestSpec {
                    messages: canonicalized(retry.request.messages, message),
                    ..retry.request
                },
                content_compat_attempted: true,
                last_err: Some(ErrorSpec::UpstreamStatus(status, message)),
                ..retry
            },
        )
    } else {
        match overflow_clamp(retry, status, message, tokenized) {
            Some(output) => next_attempt(
                RetrySpec {
                    request: OpenAIRequestSpec { max_tokens: Some(output), ..retry.request },
                    clamps: retry.clamps + 1,
                    last_err: Some(ErrorSpec::UpstreamStatus(status, message)),
                    ..retry
                },
            ),
            None => if retriable_status(status) {
                next_attempt(
                    RetrySpec {
                        last_err: Some(ErrorSpec::UpstreamStatus(status, message)),
                        ..retry
                    },
                )
            } else {
                StepSpec::Fail(ErrorSpec::UpstreamStatus(status, message))
            },
        }
    }
}

/// The step after an attempt. `tokenized` is the size of the input as the upstream counts it,
/// where it has been asked.
pub open spec fn step_after(
    retry: RetrySpec,
    outcome: OutcomeSpec,
    tokenized: Option<u32>,
) -> StepSpec {
    match outcome {
        OutcomeSpec::Answered => StepSpec::Accept(retry.request),
        OutcomeSpec::Retriable(err) => next_attempt(RetrySpec { last_err: Some(err), ..retry }),
        OutcomeSpec::Status(status, message) => status_step(retry, status, message, tokenized),
        OutcomeSpec::Fatal(err) => StepSpec::Fail(err),
    }
}

/// The size of the input decides on the step.
pub open spec fn size_matters(retry: RetrySpec, outcome: OutcomeSpec) -> bool {
    match outcome {
        OutcomeSpec::Status(status, message) => status == 400 && retry.clamps < MAX_CLAMP_RETRIES
            && overflow_sizes(message) is Some,
        _ => false,
    }
}

impl Retry {
    pub closed spec fn view(&self) -> RetrySpec {
        RetrySpec {
            request: self.request@,
            urls: self.urls as nat,
            url: self.url as nat,
            attempt: self.attempt as nat,
            clamps: self.clamps as nat,
            content_compat_attempted: self.content_compat_attempted,
            last_err: opt_error(self.last_err),
        }
    }

    #[verifier::type_invariant]
    spec fn is_under_way(self) -> bool {
        &&& self.url < self.urls
        &&& 1 <= self.attempt <= MAX_ATTEMPTS
        &&& self.clamps <= MAX_CLAMP_RETRIES
    }

    /// Starts on a request to an upstream with that many URLs.
    pub fn start(request: OpenAIRequest, urls: usize) -> (step: Step)
        ensures
            step@ == first_step(request@, urls as nat),
    {
        if urls == 0 {
            Step::Fail(ProxyError::Upstream("All upstreams failed".to_owned()))
        } else {
            Step::Send(
                Retry {
                    request,
                    urls,
                    url: 0,
                    attempt: 1,
                    clamps: 0,
                    content_compat_attempted: false,
                    last_err: None,
                },
            )
        }
    }

    /// The URL to send to.
    pub fn url(&self) -> (url: usize)
        ensures
            url == self@.url,
            under_way(self@),
    {
        proof {
            use_type_invariant(self);
        }
        self.url
    }

    /// The attempt at the URL, counted from 1.
    pub fn attempt(&self) -> (attempt: usize)
        ensures
            attempt == self@.attempt,
            under_way(self@),
    {
        proof {
            use_type_invariant(self);
        }
        self.attempt
    }

    /// The request to send.
    pub fn request(&self) -> (request: &OpenAIRequest)
        ensures
            request@ == self@.request,
    {
        &self.request
    }

    /// Whether the size of the input decides on the step, so that the upstream is to be asked.
    pub fn needs_input_size(&self, outcome: &Outcome) -> (r: bool)
        ensures
            r == size_matters(self@, outcome@),
    {
        match outcome {
            Outcome::Status { status, message } => {
                *status == 400 && self.clamps < MAX_CLAMP_RETRIES && parse_context_overflow(
                    message.as_str(),
                ).is_some()
            },
            _ => false,
        }
    }

    fn again(self) -> (step: Step)
        ensures
            step@ == next_attempt(self@),
    {
        proof {
            use_type_invariant(&self);
        }
        if self.attempt < MAX_ATTEMPTS {
            Step::Send(
                Retry {
                    request: self.request,
                    urls: self.urls,
                    url: self.url,
                    attempt: self.attempt + 1,
                    clamps: self.clamps,
                    content_compat_attempted: self.content_compat_attempted,
                    last_err: self.last_err,
                },
            )
        } else if self.url + 1 < self.urls {
            Step::Send(
                Retry {
                    request: self.request,
                    urls: self.urls,
                    url: self.url + 1,
                    attempt: 1,
                    clamps: self.clamps,
                    content_compat_attempted: self.content_compat_attempted,
                    last_err: self.last_err,
                },
            )
        } else {
            Step::Fail(
                match self.last_err {
                    Some(err) => err,
                    None => ProxyError::Upstream("All upstreams failed".to_owned()),
                },
            )
        }
    }

    fn again_after(self, err: ProxyError) -> (step: Step)
        ensures
            step@ == next_attempt(RetrySpec { last_err: Some(err@), ..self@ }),
    {
        proof {
            use_type_invariant(&self);
        }
        let retry = Retry {
            request: self.request,
            urls: self.urls,
            url: self.url,
            attempt: self.attempt,
            clamps: self.clamps,
            content_compat_attempted: self.content_compat_attempted,
            last_err: Some(err),
        };
        retry.again()
    }

    fn after_status(self, status: u16, message: String, tokenized: Option<u32>) -> (step: Step)
        ensures
            step@ == status_step(self@, status, message@, tokenized),
    {
        proof {
            use_type_invariant(&self);
        }
        let ghost before = self@;
        let mut request = self.request;
        if status == 422 && !self.content_compat_attempted {
            if canonicalize_rejected_message_content(&mut request.messages, message.as_str()) {
                let retry = Retry {
                    request,
                    urls: self.urls,
                    url: self.url,
                    attempt: self.attempt,
                    clamps: self.clamps,
                    content_compat_attempted: true,
                    last_err: self.last_err,
                };
                return retry.again_after(ProxyError::UpstreamStatus { status, message });
            }
        }
        assert(request@ == before.request);
        if status == 400 && self.clamps < MAX_CLAMP_RETRIES {
            match clamp_for_overflow(message.as_str(), tokenized, request.max_tokens) {
                Some(output) => {
                    request.max_tokens = Some(output);
                    let retry = Retry {
                        request,
                        urls: self.urls,
                        url: self.url,
                        attempt: self.attempt,
                        clamps: self.clamps + 1,
                        content_compat_attempted: self.content_compat_attempted,
                        last_err: self.last_err,
                    };
                    return retry.again_after(ProxyError::UpstreamStatus { status, message });
                },
                None => {},
            }
        }
        let err = ProxyError::UpstreamStatus { status, message };
        if is_retriable_status(status) {
            let retry = Retry {
                request,
                urls: self.urls,
                url: self.url,
                attempt: self.attempt,
                clamps: self.clamps,
                content_compat_attempted: self.content_compat_attempted,
                last_err: self.last_err,
            };
            retry.again_after(err)
        } else {
            Step::Fail(err)
        }
    }

    /// Decides what to do after an attempt.
    pub fn step(self, outcome: Outcome, tokenized: Option<u32>) -> (step: Step)
        ensures
            step@ == step_after(self@, outcome@, tokenized),
    {
        match outcome {
            Outcome::Answered => Step::Accept(self.request),
            Outcome::Retriable(err) => self.again_after(err),
            Outcome::Status { status, message } => self.after_status(status, message, tokenized),
            Outcome::Fatal(err) => Step::Fail(err),
        }
    }
}

// ---------------------------------------------------------------------------------------------
// Laws.

/// How many attempts are left after the one under way.
pub open spec fn attempts_left(retry: RetrySpec) -> int {
    (retry.urls - retry.url - 1) * MAX_ATTEMPTS + (MAX_ATTEMPTS - retry.attempt)
}

/// A request that starts has its full number of attempts at every URL, the first under way.
pub proof fn law_attempts_at_start(request: OpenAIRequestSpec, urls: nat)
    requires
        urls > 0,
    ensures
        first_step(request, urls) is Send,
        under_way(first_step(request, urls)->Send_0),
        attempts_left(first_step(request, urls)->Send_0) + 1 == urls * MAX_ATTEMPTS,
{
}

/// Every retry, whatever it is for, uses up an attempt, so that sending comes to an end.
pub proof fn law_every_retry_uses_an_attempt(
    retry: RetrySpec,
    outcome: OutcomeSpec,
    tokenized: Option<u32>,
)
    requires
        under_way(retry),
    ensures
        step_after(retry, outcome, tokenized) matches StepSpec::Send(next) ==> under_way(next)
            && attempts_left(next) == attempts_left(retry) - 1 && attempts_left(next) >= 0,
{
}

/// A request that fails with a status fails with that status and its message, whichever status
/// it is and whatever came before it.
pub proof fn law_failure_reports_the_status(
    retry: RetrySpec,
    status: u16,
    message: Seq<char>,
    tokenized: Option<u32>,
)
    ensures
        step_after(retry, OutcomeSpec::Status(status, message), tokenized) matches StepSpec::Fail(
            err,
        ) ==> err == ErrorSpec::UpstreamStatus(status, message) && client_status(err) == status,
{
}

/// A status that cannot be retried, clamped or cured by plain content reaches the client as it
/// is, at once.
pub proof fn law_status_is_preserved(
    retry: RetrySpec,
    status: u16,
    message: Seq<char>,
    tokenized: Option<u32>,
)
    requires
        !retriable_status(status),
        !content_rejected(retry, status, message),
        overflow_clamp(retry, status, message, tokenized) is None,
    ensures
        step_after(retry, OutcomeSpec::Status(status, message), tokenized) == StepSpec::Fail(
            ErrorSpec::UpstreamStatus(status, message),
        ),
{
}

/// At the last attempt, every status reaches the client as it is.
pub proof fn law_last_status_is_preserved(
    retry: RetrySpec,
    status: u16,
    message: Seq<char>,
    tokenized: Option<u32>,
)
    requires
        under_way(retry),
        attempts_left(retry) == 0,
    ensures
        step_after(retry, OutcomeSpec::Status(status, message), tokenized) == StepSpec::Fail(
            ErrorSpec::UpstreamStatus(status, message),
        ),
{
    assert(retry.url + 1 >= retry.urls) by (nonlinear_arith)
        requires
            (retry.urls - retry.url - 1) * 3 + (3 - retry.attempt) == 0,
            retry.attempt <= 3,
            retry.url < retry.urls,
    ;
}

/// A retry changes nothing of the request but the output limit, which only shrinks, and, once,
/// the messages.
pub proof fn law_retry_keeps_the_request(
    retry: RetrySpec,
    outcome: OutcomeSpec,
    tokenized: Option<u32>,
)
    ensures
        step_after(retry, outcome, tokenized) matches StepSpec::Send(next) ==> {
            &&& next.request == (OpenAIRequestSpec {
                messages: next.request.messages,
                max_tokens: next.request.max_tokens,
                ..retry.request
            })
            &&& next.request.max_tokens != retry.request.max_tokens ==> {
                &&& next.clamps == retry.clamps + 1
                &&& next.request.max_tokens is Some
                &&& retry.request.max_tokens is Some ==> next.request.max_tokens->0
                    < retry.request.max_tokens->0
            }
            &&& next.request.messages != retry.request.messages ==> {
                &&& !retry.content_compat_attempted
                &&& next.content_compat_attempted
            }
            &&& retry.content_compat_attempted ==> next.content_compat_attempted
        },
{
    match outcome {
        OutcomeSpec::Status(status, message) => {
            match overflow_clamp(retry, status, message, tokenized) {
                Some(_) => {
                    law_clamp_fits_and_shrinks(message, tokenized, retry.request.max_tokens);
                },
                None => {},
            }
        },
        _ => {},
    }
}

} // verus!
