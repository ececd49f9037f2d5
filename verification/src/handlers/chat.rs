//! Chat completions: validation, the stall, and the next programmed response.

use vstd::prelude::*;
use vstd::string::*;

use crate::behavior::{
    self, estimate_prompt_tokens, should_consume, validate_chat_request, Behavior, BehaviorModel,
};
use crate::codec;
use crate::handlers::{
    self, respond, Action, ActionModel, Handler, Stage, StageModel,
};
use crate::json::{self, Json, Members, Tree};
use crate::response::{
    self, HttpResponse, ParsedRequest, RequestModel, ResponseModel, SSE_RESPONSE,
};
use crate::responses::{self, SpecModel};
use crate::state::{self, State, StateModel};
use crate::text::{self, same};

verus! {

/// The endpoint family.
pub struct ChatCompletions;

/// The body of a rejection.
pub open spec fn rejection(message: Seq<char>, code: Tree) -> Tree {
    Tree::Obj(
        map![
            "error"@ => Tree::Obj(
                map![
                    "message"@ => Tree::Str(message),
                    "type"@ => Tree::Str("invalid_request_error"@),
                    "code"@ => code,
                ],
            ),
        ],
    )
}

/// The message of a request that does not fit the window.
pub const OVERFLOW_MESSAGE: &'static str = "the request exceeds the available context size";

/// The prompt tokens that are derived from a request: those of its messages, where a window is
/// configured.
pub open spec fn derived_prompt(b: BehaviorModel, body: Tree) -> Option<nat> {
    match b.context_window {
        Some(_) => Some(behavior::prompt_tokens(body, b.chars_per_token)),
        None => None,
    }
}

/// The request does not fit the window.
pub open spec fn overflows(b: BehaviorModel, body: Tree) -> bool {
    b.context_window matches Some(w) && behavior::prompt_tokens(body, b.chars_per_token) > w
}

/// Why a request is turned away, if it is, given whether it fits the window: the
/// validation, where it is on, comes first.
pub open spec fn turned_away(
    b: BehaviorModel,
    req: RequestModel,
    too_long: bool,
) -> Option<ResponseModel> {
    let invalid = if b.validate_chat {
        behavior::chat_refusal(req.headers, req.body)
    } else {
        None
    };
    match invalid {
        Some(e) => Some(response::json_reply(e.0, rejection(e.1, Tree::Null))),
        None => if too_long {
            Some(
                response::json_reply(
                    400,
                    rejection(OVERFLOW_MESSAGE@, Tree::Str("context_length_exceeded"@)),
                ),
            )
        } else {
            None
        },
    }
}

/// Why a request is turned away before anything is consumed, if it is.
pub open spec fn refusal(b: BehaviorModel, req: RequestModel) -> Option<ResponseModel> {
    turned_away(b, req, overflows(b, req.body))
}

/// A derived prompt lies beyond the window.
pub open spec fn beyond(window: Option<u64>, prompt: Option<u64>) -> bool {
    window matches Some(w) && prompt matches Some(n) && n > w
}

/// The state without its next response, and what a request is answered with: the next response,
/// where it may take one and there is one, else the fallback.
pub open spec fn taken(s: StateModel, req: RequestModel) -> (StateModel, Option<SpecModel>) {
    if behavior::consumes(s.behavior, req.path, req.body) && s.responses.len() > 0 {
        (StateModel { responses: s.responses.skip(1), ..s }, Some(s.responses[0]))
    } else {
        (s, s.default_response)
    }
}

/// The request wants a stream, as it does unless it says otherwise.
pub open spec fn wants_stream(body: Tree) -> bool {
    state::bool_or(body.bool_at("stream"@), true)
}

/// The spec, reporting a derived prompt where there is one.
pub open spec fn reporting(s: SpecModel, prompt: Option<u64>) -> SpecModel {
    match prompt {
        Some(p) => SpecModel { derived_prompt: Some(p), ..s },
        None => s,
    }
}

/// The action with a spec: its response after its delay, or the built-in stream where there is
/// none.
pub open spec fn served(spec: Option<SpecModel>, stream: bool, prompt: Option<u64>) -> ActionModel {
    match spec {
        Some(p) => {
            let q = reporting(p, prompt);
            if responses::reports_usage(q, stream) && !responses::usage_fits(q) {
                ActionModel::Fail
            } else {
                ActionModel::Respond {
                    delay_ms: p.delay_ms,
                    response: responses::rendered(q, stream),
                }
            }
        },
        None => handlers::at_once(
            response::sse_reply(200, vstd::utf8::encode_utf8(SSE_RESPONSE@)),
        ),
    }
}

/// The state and the action once a request is past validation and the stall.
pub open spec fn answered(s: StateModel, req: RequestModel, prompt: Option<u64>) -> (
    StateModel,
    ActionModel,
) {
    let (after, spec) = taken(s, req);
    (after, served(spec, wants_stream(req.body), prompt))
}

/// The derived prompt as a number of 64 bits.
pub open spec fn prompt_count(b: BehaviorModel, body: Tree) -> Option<u64> {
    match derived_prompt(b, body) {
        Some(n) => Some(n as u64),
        None => None,
    }
}

/// The state and the action after a chat request: it is turned away, it is stalled, or it is
/// answered.
pub open spec fn chat_step(s: StateModel, req: RequestModel) -> (StateModel, ActionModel) {
    let b = s.behavior;
    if refusal(b, req) is Some {
        (s, handlers::at_once(refusal(b, req)->0))
    } else if behavior::stalls(b, s.stalled_once, req.path, req.body) {
        (
            StateModel { stalled_once: true, ..s },
            ActionModel::Wait {
                line: None,
                seconds: b.stall_seconds,
                millis: 0,
                next: StageModel::Stalled { prompt: prompt_count(b, req.body) },
            },
        )
    } else {
        answered(s, req, prompt_count(b, req.body))
    }
}

/// The body of a rejection.
fn rejection_body(message: &str, code: Json) -> (r: Json)
    ensures
        r@ == rejection(message@, code@),
{
    let e = Members::new().with("message", Json::text(message)).with(
        "type",
        Json::text("invalid_request_error"),
    ).with("code", code).done();
    Members::new().with("error", e).done()
}

/// The prompt that is derived from a request, where a window is configured.
fn prompt_for(b: &Behavior, body: &Json) -> (r: Option<u64>)
    ensures
        r == prompt_count(b@, body@),
        r is Some == b@.context_window is Some,
        r matches Some(n) ==> n == behavior::prompt_tokens(body@, b@.chars_per_token),
{
    match b.context_window {
        Some(_) => Some(estimate_prompt_tokens(body, b.chars_per_token)),
        None => None,
    }
}

impl ChatCompletions {
    /// Why a request with a derived prompt is turned away, if it is.
    pub fn refuse(
        &self,
        b: &Behavior,
        req: &ParsedRequest,
        prompt: Option<u64>,
    ) -> (r: Option<HttpResponse>)
        ensures
            match r {
                Some(h) => turned_away(b@, req@, beyond(b@.context_window, prompt)) == Some(h@),
                None => turned_away(b@, req@, beyond(b@.context_window, prompt)) is None,
            },
    {
        if b.validate_chat {
            if let Some((status, message)) = validate_chat_request(&req.headers, &req.body) {
                return Some(HttpResponse::json(status, &rejection_body(message, Json::Null)));
            }
        }
        if let (Some(w), Some(n)) = (b.context_window, prompt) {
            if n > w {
                let body = rejection_body(
                    OVERFLOW_MESSAGE,
                    Json::text("context_length_exceeded"),
                );
                return Some(HttpResponse::json(400, &body));
            }
        }
        None
    }

    /// Answers a request that is past validation and the stall: with the next programmed response
    /// where it may take one, else with the fallback, else with the built-in stream.
    pub fn answer(
        &self,
        state: &mut State,
        req: &ParsedRequest,
        prompt: Option<u64>,
    ) -> (r: Action)
        requires
            old(state).wf(),
        ensures
            final(state).wf(),
            (final(state)@, r@) == answered(old(state)@, req@, prompt),
    {
        let consume = should_consume(state.behavior(), req.path.as_str(), &req.body);
        let next = if consume {
            state.next_response()
        } else {
            None
        };
        let spec = match next {
            Some(s) => Some(s),
            None => state.default_response(),
        };
        match spec {
            Some(s) => {
                let stream = match req.body.bool_at("stream") {
                    Some(b) => b,
                    None => true,
                };
                let delay_ms: u64 = s.delay_ms();
                let q = match prompt {
                    Some(p) => s.with_derived_prompt(p),
                    None => s,
                };
                if q.renders(stream) {
                    Action::Respond { delay_ms, response: q.render(stream) }
                } else {
                    Action::Fail
                }
            },
            None => respond(HttpResponse::sse(200, SSE_RESPONSE.as_bytes_vec())),
        }
    }
}

impl Handler for ChatCompletions {
    open spec fn serves(&self, method: Seq<char>, path: Seq<char>) -> bool {
        method == "POST"@ && text::occurs(path, "chat/completions"@)
    }

    open spec fn advertised(&self) -> Seq<Seq<char>> {
        seq!["POST /v1/chat/completions"@]
    }

    open spec fn handled(&self, s: StateModel, req: RequestModel, path: Seq<char>) -> (
        StateModel,
        ActionModel,
    ) {
        chat_step(s, req)
    }

    fn matches(&self, method: &str, path: &str) -> (r: bool) {
        same(method, "POST") && text::contains(path, "chat/completions")
    }

    fn handle(&self, state: &mut State, req: &ParsedRequest, path: &str) -> (r: Action) {
        let prompt = prompt_for(state.behavior(), &req.body);
        if let Some(refused) = self.refuse(state.behavior(), req, prompt) {
            return respond(refused);
        }
        match state.stall(req.path.as_str(), &req.body) {
            Some(seconds) => Action::Wait {
                line: None,
                seconds,
                millis: 0,
                next: Stage::Stalled { prompt },
            },
            None => self.answer(state, req, prompt),
        }
    }

    fn routes(&self) -> (r: &'static [&'static str]) {
        let r: &'static [&'static str] = &["POST /v1/chat/completions"];
        assert(handlers::line_texts(r@) =~= self.advertised());
        r
    }
}

/// A request that is turned away changes nothing: the programmed sequence stays as it was for the
/// next one.
pub proof fn law_a_refusal_consumes_nothing(s: StateModel, req: RequestModel)
    requires
        refusal(s.behavior, req) is Some,
    ensures
        chat_step(s, req) == (s, handlers::at_once(refusal(s.behavior, req)->0)),
{
}

/// What is left after a row of requests, and what each of them was answered with.
pub open spec fn taken_by(s: StateModel, reqs: Seq<RequestModel>) -> (
    StateModel,
    Seq<Option<SpecModel>>,
)
    decreases reqs.len(),
{
    if reqs.len() == 0 {
        (s, Seq::empty())
    } else {
        let (before, specs) = taken_by(s, reqs.drop_last());
        let (after, spec) = taken(before, reqs.last());
        (after, specs.push(spec))
    }
}

/// Programmed responses come in the order in which they were programmed, each once: requests
/// that may take one get the first, the second, and so on, and the rest stays in line.
pub proof fn law_responses_come_in_order(s: StateModel, reqs: Seq<RequestModel>)
    requires
        reqs.len() <= s.responses.len(),
        forall|i: int|
            0 <= i < reqs.len() ==> behavior::consumes(
                s.behavior,
                (#[trigger] reqs[i]).path,
                reqs[i].body,
            ),
    ensures
        taken_by(s, reqs).0 == (StateModel {
            responses: s.responses.skip(reqs.len() as int),
            ..s
        }),
        taken_by(s, reqs).1.len() == reqs.len(),
        forall|i: int|
            0 <= i < reqs.len() ==> #[trigger] taken_by(s, reqs).1[i] == Some(s.responses[i]),
    decreases reqs.len(),
{
    if reqs.len() == 0 {
        assert(s.responses.skip(0) =~= s.responses);
    } else {
        let n = reqs.len() - 1;
        let rest = reqs.drop_last();
        assert forall|i: int| 0 <= i < rest.len() implies behavior::consumes(
            s.behavior,
            (#[trigger] rest[i]).path,
            rest[i].body,
        ) by {
            assert(rest[i] == reqs[i]);
        }
        law_responses_come_in_order(s, rest);
        assert(reqs.last() == reqs[n]);
        let (before, specs) = taken_by(s, rest);
        assert(before.responses.skip(1) =~= s.responses.skip(reqs.len() as int));
        assert(before.responses[0] == s.responses[n]);
        let all = taken_by(s, reqs).1;
        assert forall|i: int| 0 <= i < reqs.len() implies #[trigger] all[i] == Some(
            s.responses[i],
        ) by {
            if i < n {
                assert(specs[i] == Some(s.responses[i]));
            }
        }
    }
}

/// With nothing programmed, or for a request that may not take from the queue, the fallback
/// answers, and the queue stays as it was.
pub proof fn law_the_fallback_answers(s: StateModel, req: RequestModel)
    requires
        s.responses.len() == 0 || (s.behavior.consume_only_with_tools && !behavior::tool_turn(
            s.behavior,
            req.path,
            req.body,
        )),
    ensures
        taken(s, req) == (s, s.default_response),
{
}

/// A request whose messages take up less room than another's is derived no larger a prompt, and
/// fits every window that the other fits.
pub proof fn law_smaller_requests_count_less(
    b: BehaviorModel,
    smaller: Tree,
    larger: Tree,
    few: Tree,
    many: Tree,
)
    requires
        smaller.get("messages"@) == Some(few),
        larger.get("messages"@) == Some(many),
        vstd::utf8::encode_utf8(codec::written(few)).len() <= vstd::utf8::encode_utf8(
            codec::written(many),
        ).len(),
    ensures
        behavior::prompt_tokens(smaller, b.chars_per_token) <= behavior::prompt_tokens(
            larger,
            b.chars_per_token,
        ),
        overflows(b, smaller) ==> overflows(b, larger),
{
    behavior::law_tokens_follow_size(
        vstd::utf8::encode_utf8(codec::written(few)).len(),
        vstd::utf8::encode_utf8(codec::written(many)).len(),
        b.chars_per_token,
    );
}

/// A derived prompt is reported as it is, next to the completion tokens of the spec, and the
/// total is their sum.
pub proof fn law_derived_usage_adds_up(s: SpecModel, prompt: u64)
    requires
        responses::usage_fits(reporting(s, Some(prompt))),
    ensures
        ({
            let usage = responses::usage_of(reporting(s, Some(prompt)));
            let completion = responses::completion_of(s);
            usage.get("prompt_tokens"@) == Some(json::num(prompt)) && usage.get(
                "completion_tokens"@,
            ) == Some(json::num(completion)) && usage.get("total_tokens"@) == Some(
                json::num((prompt + completion) as u64),
            )
        }),
{
    reveal_strlit("prompt_tokens");
    reveal_strlit("completion_tokens");
    reveal_strlit("total_tokens");
    assert("prompt_tokens"@.len() == 13 && "completion_tokens"@.len() == 17
        && "total_tokens"@.len() == 12);
}

} // verus!
