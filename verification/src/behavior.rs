//! How the server behaves: the heartbeat predicate, the stall that fires once, the
//! validation of chat requests, and the prompt size derived from a request.

use vstd::prelude::*;

use crate::codec::{self, to_text};
use crate::json::{self, Json, Tree};
use crate::text;

verus! {

/// The mark of a heartbeat, unless another is configured.
pub const HEARTBEAT_SENTINEL: &'static str = "[heartbeat]";

/// How long a stall lasts, unless configured otherwise.
pub const DEFAULT_STALL_SECONDS: u64 = 5;

/// Characters per token, unless configured otherwise: prose lands near four.
pub const DEFAULT_CHARS_PER_TOKEN: u64 = 4;

/// The configurable behavior.
pub struct Behavior {
    /// Delay the first chat request that carries tools and is no heartbeat.
    pub stall_first_with_tools: bool,
    pub stall_seconds: u64,
    pub heartbeat_sentinel: String,
    /// Only tool turns pop the queue; everything else gets the fallback.
    pub consume_only_with_tools: bool,
    /// A delay ahead of the answer to every request but those of the control plane.
    pub connect_delay_ms: u64,
    /// Reject chat requests that are malformed or carry no bearer token.
    pub validate_chat: bool,
    /// Reject a transcription request whose audio is silent.
    pub reject_silent_audio: bool,
    /// Reject speech in a voice other than the preset without an attestation of consent.
    pub require_voice_consent: bool,
    /// Derive the reported usage from the request, and reject one that exceeds this window.
    pub context_window: Option<u64>,
    pub chars_per_token: u64,
    /// Serve the routes and the aliases of a llama-swap gateway.
    pub llamaswap: bool,
    /// The hold between two frames of streamed speech.
    pub speech_frame_delay_ms: u64,
    /// Answer transcriptions with an empty transcript.
    pub empty_transcript: bool,
    /// What transcriptions answer; `None` is the built-in text.
    pub transcript: Option<String>,
}

/// What a behavior holds.
pub struct BehaviorModel {
    pub stall_first_with_tools: bool,
    pub stall_seconds: u64,
    pub heartbeat_sentinel: Seq<char>,
    pub consume_only_with_tools: bool,
    pub connect_delay_ms: u64,
    pub validate_chat: bool,
    pub reject_silent_audio: bool,
    pub require_voice_consent: bool,
    pub context_window: Option<u64>,
    pub chars_per_token: u64,
    pub llamaswap: bool,
    pub speech_frame_delay_ms: u64,
    pub empty_transcript: bool,
    pub transcript: Option<Seq<char>>,
}

impl View for Behavior {
    type V = BehaviorModel;

    open spec fn view(&self) -> BehaviorModel {
        BehaviorModel {
            stall_first_with_tools: self.stall_first_with_tools,
            stall_seconds: self.stall_seconds,
            heartbeat_sentinel: self.heartbeat_sentinel@,
            consume_only_with_tools: self.consume_only_with_tools,
            connect_delay_ms: self.connect_delay_ms,
            validate_chat: self.validate_chat,
            reject_silent_audio: self.reject_silent_audio,
            require_voice_consent: self.require_voice_consent,
            context_window: self.context_window,
            chars_per_token: self.chars_per_token,
            llamaswap: self.llamaswap,
            speech_frame_delay_ms: self.speech_frame_delay_ms,
            empty_transcript: self.empty_transcript,
            transcript: json::text_opt(self.transcript),
        }
    }
}

/// The behavior of a server that nothing was configured for: every check and every
/// extension is off.
pub open spec fn default_behavior() -> BehaviorModel {
    BehaviorModel {
        stall_first_with_tools: false,
        stall_seconds: DEFAULT_STALL_SECONDS,
        heartbeat_sentinel: HEARTBEAT_SENTINEL@,
        consume_only_with_tools: false,
        connect_delay_ms: 0,
        validate_chat: false,
        reject_silent_audio: false,
        require_voice_consent: false,
        context_window: None,
        chars_per_token: DEFAULT_CHARS_PER_TOKEN,
        llamaswap: false,
        speech_frame_delay_ms: 0,
        empty_transcript: false,
        transcript: None,
    }
}

impl Default for Behavior {
    fn default() -> (r: Behavior)
        ensures
            r@ == default_behavior(),
    {
        Behavior {
            stall_first_with_tools: false,
            stall_seconds: DEFAULT_STALL_SECONDS,
            heartbeat_sentinel: HEARTBEAT_SENTINEL.to_owned(),
            consume_only_with_tools: false,
            connect_delay_ms: 0,
            validate_chat: false,
            reject_silent_audio: false,
            require_voice_consent: false,
            context_window: None,
            chars_per_token: DEFAULT_CHARS_PER_TOKEN,
            llamaswap: false,
            speech_frame_delay_ms: 0,
            empty_transcript: false,
            transcript: None,
        }
    }
}

impl Behavior {
    /// The same behavior once more.
    pub fn copy(&self) -> (r: Behavior)
        ensures
            r@ == self@,
    {
        Behavior {
            stall_first_with_tools: self.stall_first_with_tools,
            stall_seconds: self.stall_seconds,
            heartbeat_sentinel: self.heartbeat_sentinel.clone(),
            consume_only_with_tools: self.consume_only_with_tools,
            connect_delay_ms: self.connect_delay_ms,
            validate_chat: self.validate_chat,
            reject_silent_audio: self.reject_silent_audio,
            require_voice_consent: self.require_voice_consent,
            context_window: self.context_window,
            chars_per_token: self.chars_per_token,
            llamaswap: self.llamaswap,
            speech_frame_delay_ms: self.speech_frame_delay_ms,
            empty_transcript: self.empty_transcript,
            transcript: self.transcript.clone(),
        }
    }
}

/// The tokens of a text of `bytes` bytes at `per_token` each, rounded up; a rate of
/// zero counts as one.
pub open spec fn tokens_of(bytes: nat, per_token: u64) -> nat {
    let c: nat = if per_token == 0 {
        1
    } else {
        per_token as nat
    };
    if bytes % c == 0 {
        bytes / c
    } else {
        bytes / c + 1
    }
}

/// The tokens of a text of `bytes` bytes: the fewest that cover it.
pub fn token_count(bytes: u64, chars_per_token: u64) -> (r: u64)
    ensures
        r == tokens_of(bytes as nat, chars_per_token),
        chars_per_token == 0 ==> r == bytes,
        chars_per_token > 0 ==> r * chars_per_token >= bytes,
        chars_per_token > 0 && bytes > 0 ==> (r - 1) * chars_per_token < bytes,
        bytes == 0 ==> r == 0,
{
    proof {
        if chars_per_token > 0 {
            law_tokens_round_up(bytes as nat, chars_per_token);
        } else {
            law_tokens_round_up(bytes as nat, 1);
        }
    }
    let c: u64 = if chars_per_token == 0 {
        1
    } else {
        chars_per_token
    };
    let q: u64 = bytes / c;
    if bytes % c == 0 {
        q
    } else {
        proof {
            assert(q < bytes) by (nonlinear_arith)
                requires
                    c >= 1,
                    q == bytes / c,
                    bytes % c != 0,
            ;
        }
        q + 1
    }
}

/// The number of tokens is the least that covers the text: at `per_token` bytes each,
/// they reach its end, and one fewer does not.
pub proof fn law_tokens_round_up(bytes: nat, per_token: u64)
    requires
        per_token > 0,
    ensures
        tokens_of(bytes, per_token) * per_token >= bytes,
        bytes > 0 ==> (tokens_of(bytes, per_token) - 1) * per_token < bytes,
        bytes == 0 ==> tokens_of(bytes, per_token) == 0,
{
    let c = per_token as int;
    let q = bytes as int / c;
    let m = bytes as int % c;
    vstd::arithmetic::div_mod::lemma_fundamental_div_mod(bytes as int, c);
    assert(0 <= m < c) by (nonlinear_arith)
        requires
            c > 0,
            m == bytes as int % c,
    ;
    assert(c * q == q * c) by (nonlinear_arith);
    assert((q + 1) * c == q * c + c) by (nonlinear_arith);
    assert((q - 1) * c == q * c - c) by (nonlinear_arith);
    if bytes == 0 {
        assert(q == 0 && m == 0) by (nonlinear_arith)
            requires
                c > 0,
                q == 0int / c,
                m == 0int % c,
        ;
    }
}

/// A request that grows never counts fewer tokens, and one that shrinks never more: this is
/// what a client that compacts its context goes by.
pub proof fn law_tokens_follow_size(smaller: nat, larger: nat, per_token: u64)
    requires
        smaller <= larger,
    ensures
        tokens_of(smaller, per_token) <= tokens_of(larger, per_token),
{
    let c: u64 = if per_token == 0 {
        1
    } else {
        per_token
    };
    law_tokens_round_up(smaller, c);
    law_tokens_round_up(larger, c);
    let (s, l) = (tokens_of(smaller, c) as int, tokens_of(larger, c) as int);
    if smaller > 0 {
        assert(s <= l) by (nonlinear_arith)
            requires
                (s - 1) * c < smaller,
                smaller <= larger,
                l * c >= larger,
                c > 0,
        ;
    }
}

/// More characters to a token never make more tokens of the same text.
pub proof fn law_tokens_follow_rate(bytes: nat, dense: u64, loose: u64)
    requires
        dense <= loose,
    ensures
        tokens_of(bytes, loose) <= tokens_of(bytes, dense),
{
    let d: u64 = if dense == 0 {
        1
    } else {
        dense
    };
    let l: u64 = if loose == 0 {
        1
    } else {
        loose
    };
    law_tokens_round_up(bytes, d);
    law_tokens_round_up(bytes, l);
    let (td, tl) = (tokens_of(bytes, d) as int, tokens_of(bytes, l) as int);
    if bytes > 0 {
        assert(tl <= td) by (nonlinear_arith)
            requires
                (tl - 1) * l < bytes,
                td * d >= bytes,
                0 < d <= l,
                td >= 0,
        ;
    }
}

/// The prompt tokens derived from a chat request: those of its messages, as JSON text.
pub open spec fn prompt_tokens(body: Tree, chars_per_token: u64) -> nat {
    match body.get("messages"@) {
        Some(m) => tokens_of(
            vstd::utf8::encode_utf8(codec::written(m)).len(),
            chars_per_token,
        ),
        None => 0,
    }
}

/// Derives the prompt tokens of a chat request from the size of its messages.
pub fn estimate_prompt_tokens(body: &Json, chars_per_token: u64) -> (r: u64)
    ensures
        r == prompt_tokens(body@, chars_per_token),
{
    match body.get("messages") {
        Some(m) => {
            let t = to_text(m);
            let n: usize = t.as_str().as_bytes().len();
            token_count(n as u64, chars_per_token)
        },
        None => 0,
    }
}

/// One of the headers is an authorization, under whatever case, by a bearer token.
pub open spec fn has_bearer(headers: Tree) -> bool {
    headers matches Tree::Obj(m) && exists|k: Seq<char>| #[trigger]
        m.dom().contains(k) && is_bearer(k, m[k])
}

/// The header is an authorization by a bearer token.
pub open spec fn is_bearer(name: Seq<char>, value: Tree) -> bool {
    &&& text::same_ignoring_case(name, "authorization"@)
    &&& value matches Tree::Str(s)
    &&& "Bearer "@.is_prefix_of(text::trim_start_of(s))
}

/// Whether the headers carry a bearer token.
fn bearer_present(headers: &Json) -> (r: bool)
    ensures
        r == has_bearer(headers@),
{
    match headers {
        Json::Obj(m) => {
            let mut i: usize = 0;
            while i < m.len()
                invariant
                    i <= m.len(),
                    *headers == Json::Obj(*m),
                    forall|j: int|
                        0 <= j < i ==> !is_bearer(
                            (#[trigger] m@[j]).0@,
                            json::fields(m@)[m@[j].0@],
                        ),
                decreases m.len() - i,
            {
                let name = m[i].0.as_str();
                proof {
                    json::lemma_fields_dom(m@, name@);
                    assert(m@[i as int].0@ == name@);
                }
                if text::eq_ignoring_case(name, "authorization") {
                    if let Some(s) = headers.str_at(name) {
                        if text::starts_with(text::trim_start(s), "Bearer ") {
                            assert(is_bearer(name@, json::fields(m@)[name@]));
                            return true;
                        }
                    }
                }
                i += 1;
            }
            proof {
                assert forall|k: Seq<char>| #[trigger]
                    json::fields(m@).dom().contains(k) implies !is_bearer(
                    k,
                    json::fields(m@)[k],
                ) by {
                    json::lemma_fields_dom(m@, k);
                    let j = choose|j: int| 0 <= j < m@.len() && (#[trigger] m@[j]).0@ == k;
                    assert(m@[j].0@ == k);
                }
            }
            false
        },
        _ => false,
    }
}

/// Why a chat request is turned away, if it is: no bearer token, no model, or no messages.
pub open spec fn chat_refusal(headers: Tree, body: Tree) -> Option<(u16, Seq<char>)> {
    if !has_bearer(headers) {
        Some((401u16, "missing or malformed Authorization bearer token"@))
    } else if !(body.str_at("model"@) matches Some(m) && m.len() > 0) {
        Some((400u16, "missing required parameter: model"@))
    } else if !(body.list_at("messages"@) matches Some(a) && a.len() > 0) {
        Some((400u16, "missing required parameter: messages"@))
    } else {
        None
    }
}

/// Checks a chat request: the status and the message of its rejection, or nothing
/// for one that is acceptable.
pub fn validate_chat_request(headers: &Json, body: &Json) -> (r: Option<(u16, &'static str)>)
    ensures
        match r {
            Some(e) => chat_refusal(headers@, body@) == Some((e.0, e.1@)),
            None => chat_refusal(headers@, body@) is None,
        },
{
    if !bearer_present(headers) {
        return Some((401, "missing or malformed Authorization bearer token"));
    }
    let model = match body.str_at("model") {
        Some(m) => !m.is_empty(),
        None => false,
    };
    if !model {
        return Some((400, "missing required parameter: model"));
    }
    let messages = match body.list_at("messages") {
        Some(a) => {
            proof {
                json::lemma_trees(a@);
            }
            a.len() > 0
        },
        None => false,
    };
    if !messages {
        return Some((400, "missing required parameter: messages"));
    }
    None
}

/// A part of a message's content is a text that holds the sentinel.
pub open spec fn part_beats(part: Tree, sentinel: Seq<char>) -> bool {
    part.str_at("text"@) matches Some(t) && text::occurs(t, sentinel)
}

/// The content of a message, a string or a list of parts, holds the sentinel.
pub open spec fn message_beats(message: Tree, sentinel: Seq<char>) -> bool {
    match message.get("content"@) {
        Some(Tree::Str(s)) => text::occurs(s, sentinel),
        Some(Tree::Arr(parts)) => exists|i: int|
            0 <= i < parts.len() && part_beats(#[trigger] parts[i], sentinel),
        _ => false,
    }
}

/// Some message of the request holds the sentinel.
pub open spec fn heartbeat(body: Tree, sentinel: Seq<char>) -> bool {
    body.list_at("messages"@) matches Some(ms) && exists|i: int|
        0 <= i < ms.len() && message_beats(#[trigger] ms[i], sentinel)
}

/// Whether a message's content holds the sentinel.
fn message_is_heartbeat(message: &Json, sentinel: &str) -> (r: bool)
    ensures
        r == message_beats(message@, sentinel@),
{
    match message.get("content") {
        Some(Json::Str(s)) => text::contains(s.as_str(), sentinel),
        Some(Json::Arr(parts)) => {
            proof {
                json::lemma_trees(parts@);
            }
            let mut i: usize = 0;
            while i < parts.len()
                invariant
                    i <= parts.len(),
                    json::trees(parts@).len() == parts.len(),
                    forall|j: int|
                        0 <= j < parts.len() ==> #[trigger] json::trees(parts@)[j] == json::tree(
                            parts@[j],
                        ),
                    forall|j: int|
                        0 <= j < i ==> !part_beats(#[trigger] json::trees(parts@)[j], sentinel@),
                    message@.get("content"@) == Some(Tree::Arr(json::trees(parts@))),
                decreases parts.len() - i,
            {
                assert(json::trees(parts@)[i as int] == parts@[i as int]@);
                if let Some(t) = parts[i].str_at("text") {
                    if text::contains(t, sentinel) {
                        assert(part_beats(json::trees(parts@)[i as int], sentinel@));
                        assert(message@.get("content"@)->0->Arr_0 == json::trees(parts@));
                        return true;
                    }
                }
                i += 1;
            }
            false
        },
        _ => false,
    }
}

/// Whether any message holds the sentinel. Heartbeats fire on a timer inside a
/// client and must be told apart from its other requests.
pub fn is_heartbeat(body: &Json, sentinel: &str) -> (r: bool)
    ensures
        r == heartbeat(body@, sentinel@),
{
    match body.list_at("messages") {
        Some(ms) => {
            proof {
                json::lemma_trees(ms@);
            }
            let mut i: usize = 0;
            while i < ms.len()
                invariant
                    i <= ms.len(),
                    json::trees(ms@).len() == ms.len(),
                    forall|j: int|
                        0 <= j < ms.len() ==> #[trigger] json::trees(ms@)[j] == json::tree(ms@[j]),
                    forall|j: int|
                        0 <= j < i ==> !message_beats(#[trigger] json::trees(ms@)[j], sentinel@),
                    body@.list_at("messages"@) == Some(json::trees(ms@)),
                decreases ms.len() - i,
            {
                assert(json::trees(ms@)[i as int] == ms@[i as int]@);
                if message_is_heartbeat(&ms[i], sentinel) {
                    assert(message_beats(json::trees(ms@)[i as int], sentinel@));
                    assert(body@.list_at("messages"@)->0 == json::trees(ms@));
                    return true;
                }
                i += 1;
            }
            false
        },
        None => false,
    }
}

/// The request carries tools.
pub open spec fn with_tools(body: Tree) -> bool {
    body.list_at("tools"@) matches Some(a) && a.len() > 0
}

/// Whether the request carries a list of tools that is not empty.
pub fn has_tools(body: &Json) -> (r: bool)
    ensures
        r == with_tools(body@),
{
    match body.list_at("tools") {
        Some(a) => {
            proof {
                json::lemma_trees(a@);
            }
            a.len() > 0
        },
        None => false,
    }
}

/// A chat request that carries tools and is no heartbeat.
pub open spec fn tool_turn(b: BehaviorModel, path: Seq<char>, body: Tree) -> bool {
    &&& text::occurs(path, "chat/completions"@)
    &&& with_tools(body)
    &&& !heartbeat(body, b.heartbeat_sentinel)
}

/// Whether the request is a tool turn, on which the stall and the queue can be keyed.
fn is_tool_turn(b: &Behavior, path: &str, body: &Json) -> (r: bool)
    ensures
        r == tool_turn(b@, path@, body@),
{
    text::contains(path, "chat/completions") && has_tools(body) && !is_heartbeat(
        body,
        b.heartbeat_sentinel.as_str(),
    )
}

/// The request is one to stall: the first tool turn since the latch was open.
pub open spec fn stalls(b: BehaviorModel, latch: bool, path: Seq<char>, body: Tree) -> bool {
    b.stall_first_with_tools && !latch && tool_turn(b, path, body)
}

/// Whether to stall this request; the latch closes behind the first one.
pub fn should_stall(b: &Behavior, latch: &mut bool, path: &str, body: &Json) -> (r: bool)
    ensures
        r == stalls(b@, *old(latch), path@, body@),
        *final(latch) == (*old(latch) || r),
{
    if !b.stall_first_with_tools || *latch {
        return false;
    }
    if is_tool_turn(b, path, body) {
        *latch = true;
        return true;
    }
    false
}

/// The request may pop the queue.
pub open spec fn consumes(b: BehaviorModel, path: Seq<char>, body: Tree) -> bool {
    !b.consume_only_with_tools || tool_turn(b, path, body)
}

/// Whether this request may pop a programmed response.
pub fn should_consume(b: &Behavior, path: &str, body: &Json) -> (r: bool)
    ensures
        r == consumes(b@, path@, body@),
{
    !b.consume_only_with_tools || is_tool_turn(b, path, body)
}

/// How many of a row of requests stall, each under the behavior that holds when it comes in.
pub open spec fn stalls_in(latch: bool, reqs: Seq<(BehaviorModel, Seq<char>, Tree)>) -> nat
    decreases reqs.len(),
{
    if reqs.len() == 0 {
        0
    } else {
        let (b, path, body) = reqs[0];
        let now = stalls(b, latch, path, body);
        (if now {
            1nat
        } else {
            0
        }) + stalls_in(latch || now, reqs.skip(1))
    }
}

/// The stall fires once: of any number of requests at most one stalls, whatever the behavior is
/// changed to in between, and none where the latch is closed from the start.
pub proof fn law_stall_fires_once(latch: bool, reqs: Seq<(BehaviorModel, Seq<char>, Tree)>)
    ensures
        stalls_in(latch, reqs) <= 1,
        latch ==> stalls_in(latch, reqs) == 0,
    decreases reqs.len(),
{
    if reqs.len() > 0 {
        let (b, path, body) = reqs[0];
        law_stall_fires_once(latch || stalls(b, latch, path, body), reqs.skip(1));
    }
}

/// A heartbeat never stalls, and under `consume_only_with_tools` it never pops the queue;
/// neither does a request without tools.
pub proof fn law_heartbeats_are_exempt(
    b: BehaviorModel,
    latch: bool,
    path: Seq<char>,
    body: Tree,
)
    requires
        heartbeat(body, b.heartbeat_sentinel) || !with_tools(body),
    ensures
        !stalls(b, latch, path, body),
        b.consume_only_with_tools ==> !consumes(b, path, body),
{
}

/// The message holds the sentinel: in its content, or in the text of one of its parts.
pub open spec fn holds_sentinel(message: Tree, sentinel: Seq<char>) -> bool {
    ||| exists|x: Seq<char>, y: Seq<char>|
        message.str_at("content"@) == Some(#[trigger] (x + sentinel + y))
    ||| message.list_at("content"@) matches Some(parts) && exists|i: int, x: Seq<char>, y: Seq<char>|
        0 <= i < parts.len() && (#[trigger] parts[i]).str_at("text"@) == Some(
            #[trigger] (x + sentinel + y),
        )
}

/// A message counts as a heartbeat's exactly where it holds the sentinel.
proof fn lemma_holds_sentinel(message: Tree, sentinel: Seq<char>)
    ensures
        holds_sentinel(message, sentinel) <==> message_beats(message, sentinel),
{
    if holds_sentinel(message, sentinel) {
        if exists|x: Seq<char>, y: Seq<char>|
            message.str_at("content"@) == Some(#[trigger] (x + sentinel + y)) {
            let (x, y) = choose|x: Seq<char>, y: Seq<char>|
                message.str_at("content"@) == Some(#[trigger] (x + sentinel + y));
            text::law_a_text_holds_what_stands_in_it(x, sentinel, y);
        } else {
            let parts = message.list_at("content"@)->0;
            let (i, x, y) = choose|i: int, x: Seq<char>, y: Seq<char>|
                0 <= i < parts.len() && (#[trigger] parts[i]).str_at("text"@) == Some(
                    #[trigger] (x + sentinel + y),
                );
            text::law_a_text_holds_what_stands_in_it(x, sentinel, y);
            assert(part_beats(parts[i], sentinel));
        }
    }
    if message_beats(message, sentinel) {
        match message.get("content"@) {
            Some(Tree::Str(s)) => {
                let (x, y) = text::law_what_a_text_holds_stands_in_it(s, sentinel);
                assert(message.str_at("content"@) == Some(x + sentinel + y));
            },
            Some(Tree::Arr(parts)) => {
                let i = choose|i: int|
                    0 <= i < parts.len() && part_beats(#[trigger] parts[i], sentinel);
                let (x, y) = text::law_what_a_text_holds_stands_in_it(
                    parts[i].str_at("text"@)->0,
                    sentinel,
                );
                assert(message.list_at("content"@) == Some(parts));
                assert(parts[i].str_at("text"@) == Some(x + sentinel + y));
            },
            _ => {},
        }
    }
}

/// A request is a heartbeat exactly where some message of it holds the sentinel, wherever that
/// message stands.
pub proof fn law_a_heartbeat_is_one_wherever_it_stands(body: Tree, sentinel: Seq<char>)
    ensures
        heartbeat(body, sentinel) <==> (body.list_at("messages"@) matches Some(ms) && exists|
            i: int,
        |
            0 <= i < ms.len() && holds_sentinel(#[trigger] ms[i], sentinel)),
{
    if let Some(ms) = body.list_at("messages"@) {
        assert forall|i: int| 0 <= i < ms.len() implies (holds_sentinel(#[trigger] ms[i], sentinel)
            <==> message_beats(ms[i], sentinel)) by {
            lemma_holds_sentinel(ms[i], sentinel);
        }
        if heartbeat(body, sentinel) {
            let i = choose|i: int| 0 <= i < ms.len() && message_beats(#[trigger] ms[i], sentinel);
            assert(holds_sentinel(ms[i], sentinel));
        }
    }
}

/// A request whose message at some place holds the sentinel never stalls, and pops nothing where
/// only tool turns do, whatever its other messages and its tools are.
pub proof fn law_a_message_with_the_sentinel_exempts(
    b: BehaviorModel,
    latch: bool,
    path: Seq<char>,
    body: Tree,
    i: int,
)
    requires
        body.list_at("messages"@) matches Some(ms) && 0 <= i < ms.len() && holds_sentinel(
            ms[i],
            b.heartbeat_sentinel,
        ),
    ensures
        !stalls(b, latch, path, body),
        b.consume_only_with_tools ==> !consumes(b, path, body),
{
    lemma_holds_sentinel(body.list_at("messages"@)->0[i], b.heartbeat_sentinel);
    assert(message_beats(body.list_at("messages"@)->0[i], b.heartbeat_sentinel));
}

/// A heartbeat stays one when messages are put ahead of its messages or behind them.
pub proof fn law_more_messages_keep_a_heartbeat(
    body: Tree,
    longer: Tree,
    sentinel: Seq<char>,
    ahead: Seq<Tree>,
    behind: Seq<Tree>,
)
    requires
        heartbeat(body, sentinel),
        longer.list_at("messages"@) == Some(ahead + body.list_at("messages"@)->0 + behind),
    ensures
        heartbeat(longer, sentinel),
{
    let ms = body.list_at("messages"@)->0;
    let i = choose|i: int| 0 <= i < ms.len() && message_beats(#[trigger] ms[i], sentinel);
    let all = ahead + ms + behind;
    assert(all[ahead.len() + i] == ms[i]);
    assert(message_beats(longer.list_at("messages"@)->0[ahead.len() + i], sentinel));
}

/// A chat request that carries a tool and none of whose messages holds the sentinel is a tool
/// turn: it stalls where the stall is on and has not fired, and it may pop the queue.
pub proof fn law_tool_turns_count(b: BehaviorModel, latch: bool, path: Seq<char>, body: Tree)
    requires
        text::occurs(path, "chat/completions"@),
        body.list_at("tools"@) matches Some(tools) && tools.len() > 0,
        body.list_at("messages"@) matches Some(ms) ==> forall|i: int|
            0 <= i < ms.len() ==> !holds_sentinel(#[trigger] ms[i], b.heartbeat_sentinel),
    ensures
        stalls(b, latch, path, body) <==> b.stall_first_with_tools && !latch,
        consumes(b, path, body),
{
    law_a_heartbeat_is_one_wherever_it_stands(body, b.heartbeat_sentinel);
}

/// A request without tools never stalls, and pops nothing where only tool turns do; where every
/// request pops the queue, any does.
pub proof fn law_requests_without_tools_are_no_tool_turns(
    b: BehaviorModel,
    latch: bool,
    path: Seq<char>,
    body: Tree,
)
    ensures
        !(body.list_at("tools"@) matches Some(tools) && tools.len() > 0) ==> !stalls(
            b,
            latch,
            path,
            body,
        ) && (b.consume_only_with_tools ==> !consumes(b, path, body)),
        !b.consume_only_with_tools ==> consumes(b, path, body),
        !b.stall_first_with_tools ==> !stalls(b, latch, path, body),
{
}

/// A chat request is let through exactly when it bears a bearer token in an authorization header,
/// however that header's name is written, names a model, and has a message; and what it lacks
/// first in that order is what it is told.
pub proof fn law_validation_asks_for_three_things(headers: Tree, body: Tree)
    ensures
        ({
            let known = exists|k: Seq<char>, s: Seq<char>|
                {
                    &&& headers.str_at(k) == Some(s)
                    &&& text::same_ignoring_case(k, "authorization"@)
                    &&& #[trigger] carries_token(headers, k, s)
                };
            let named = body.str_at("model"@) matches Some(m) && m.len() > 0;
            let said = body.list_at("messages"@) matches Some(ms) && ms.len() > 0;
            let refusal = chat_refusal(headers, body);
            &&& refusal is None <==> known && named && said
            &&& !known ==> refusal == Some(
                (401u16, "missing or malformed Authorization bearer token"@),
            )
            &&& known && !named ==> refusal == Some((400u16, "missing required parameter: model"@))
            &&& known && named && !said ==> refusal == Some(
                (400u16, "missing required parameter: messages"@),
            )
        }),
{
    if has_bearer(headers) {
        let m = headers->Obj_0;
        let k = choose|k: Seq<char>| #[trigger] m.dom().contains(k) && is_bearer(k, m[k]);
        let s = m[k]->Str_0;
        let t = text::trim_start_of(s);
        lemma_trimmed(s);
        let white = s.len() - t.len();
        assert(s.skip(white) == t);
        assert(carries_token(headers, k, s)) by {
            assert(bears(s, white));
        }
    }
    if exists|k: Seq<char>, s: Seq<char>|
        {
            &&& headers.str_at(k) == Some(s)
            &&& text::same_ignoring_case(k, "authorization"@)
            &&& #[trigger] carries_token(headers, k, s)
        } {
        let (k, s) = choose|k: Seq<char>, s: Seq<char>|
            {
                &&& headers.str_at(k) == Some(s)
                &&& text::same_ignoring_case(k, "authorization"@)
                &&& #[trigger] carries_token(headers, k, s)
            };
        let n = choose|n: int| #[trigger] bears(s, n);
        reveal_strlit("Bearer ");
        assert("Bearer "@.len() == 7 && "Bearer "@[0] == 'B');
        assert(s.skip(n)[0] == 'B');
        text::lemma_trim_start(s, n);
        assert(is_bearer(k, headers->Obj_0[k]));
    }
}

/// Behind some white space the text begins with the word for a bearer token.
pub open spec fn bears(s: Seq<char>, n: int) -> bool {
    &&& 0 <= n <= s.len()
    &&& forall|i: int| 0 <= i < n ==> text::is_white(#[trigger] s[i])
    &&& "Bearer "@.is_prefix_of(s.skip(n))
}

/// The header bears a token.
pub open spec fn carries_token(headers: Tree, name: Seq<char>, value: Seq<char>) -> bool {
    headers.str_at(name) == Some(value) && exists|n: int| #[trigger] bears(value, n)
}

/// What is trimmed is white space.
proof fn lemma_trimmed(s: Seq<char>)
    ensures
        ({
            let t = text::trim_start_of(s);
            &&& t.len() <= s.len()
            &&& s.skip(s.len() - t.len()) == t
            &&& forall|i: int| 0 <= i < s.len() - t.len() ==> text::is_white(#[trigger] s[i])
        }),
    decreases s.len(),
{
    if s.len() > 0 && text::is_white(s[0]) {
        lemma_trimmed(s.drop_first());
        let t = text::trim_start_of(s);
        let rest = s.drop_first();
        assert(s.skip(s.len() - t.len()) =~= rest.skip(rest.len() - t.len()));
        assert forall|i: int| 0 <= i < s.len() - t.len() implies text::is_white(#[trigger] s[i]) by {
            if i > 0 {
                assert(rest[i - 1] == s[i]);
            }
        }
    } else {
        assert(s.skip(0) =~= s);
    }
}

/// A derived prompt covers the messages and no more: so many tokens, at so many bytes each, reach
/// the end of their text, and one fewer do not. Without messages there is none.
pub proof fn law_prompts_cover_the_messages(body: Tree, chars_per_token: u64)
    ensures
        ({
            let c: int = if chars_per_token == 0 {
                1
            } else {
                chars_per_token as int
            };
            let n: int = match body.get("messages"@) {
                Some(m) => vstd::utf8::encode_utf8(codec::written(m)).len() as int,
                None => 0,
            };
            let p = prompt_tokens(body, chars_per_token) as int;
            &&& p * c >= n
            &&& n > 0 ==> (p - 1) * c < n
            &&& n == 0 ==> p == 0
        }),
{
    let c: u64 = if chars_per_token == 0 {
        1
    } else {
        chars_per_token
    };
    if let Some(m) = body.get("messages"@) {
        law_tokens_round_up(vstd::utf8::encode_utf8(codec::written(m)).len(), c);
    }
}

} // verus!
