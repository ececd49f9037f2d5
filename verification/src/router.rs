//! The way of a request: the control plane first, which is never captured; every other request
//! is captured, and then goes to the first family that serves it.

use vstd::prelude::*;
use vstd::string::*;

use crate::admin::{self, Command, ADMIN_PREFIX, ROUTES};
use crate::behavior;
use crate::capture::{self, record};
use crate::handlers::audio::{self, AudioSpeech, AudioTranscriptions, AudioVoices, VoiceRegistry};
use crate::handlers::chat::{self, ChatCompletions};
use crate::handlers::images::ImagesGenerations;
use crate::handlers::models::Models;
use crate::handlers::{self, respond, Action, ActionModel, Handler, Stage, StageModel};
use crate::json::{self, list_of_texts, Json, Members, Tree};
use crate::response::{self, HttpResponse, ParsedRequest, RequestModel, ResponseModel};
use crate::responses;
use crate::state::{self, State, StateModel};
use crate::text;

verus! {

/// What the paths of a gateway begin with.
pub const UPSTREAM_PREFIX: &'static str = "/upstream/";

/// Where the path behind a gateway's model begins.
pub const API_MARK: &'static str = "/v1/";

/// One of the endpoint families.
pub enum Family {
    Chat(ChatCompletions),
    Speech(AudioSpeech),
    Transcriptions(AudioTranscriptions),
    Voices(AudioVoices),
    Registry(VoiceRegistry),
    Images(ImagesGenerations),
    Models(Models),
}

impl Handler for Family {
    open spec fn serves(&self, method: Seq<char>, path: Seq<char>) -> bool {
        match self {
            Family::Chat(h) => h.serves(method, path),
            Family::Speech(h) => h.serves(method, path),
            Family::Transcriptions(h) => h.serves(method, path),
            Family::Voices(h) => h.serves(method, path),
            Family::Registry(h) => h.serves(method, path),
            Family::Images(h) => h.serves(method, path),
            Family::Models(h) => h.serves(method, path),
        }
    }

    open spec fn advertised(&self) -> Seq<Seq<char>> {
        match self {
            Family::Chat(h) => h.advertised(),
            Family::Speech(h) => h.advertised(),
            Family::Transcriptions(h) => h.advertised(),
            Family::Voices(h) => h.advertised(),
            Family::Registry(h) => h.advertised(),
            Family::Images(h) => h.advertised(),
            Family::Models(h) => h.advertised(),
        }
    }

    open spec fn handled(&self, s: StateModel, req: RequestModel, path: Seq<char>) -> (
        StateModel,
        ActionModel,
    ) {
        match self {
            Family::Chat(h) => h.handled(s, req, path),
            Family::Speech(h) => h.handled(s, req, path),
            Family::Transcriptions(h) => h.handled(s, req, path),
            Family::Voices(h) => h.handled(s, req, path),
            Family::Registry(h) => h.handled(s, req, path),
            Family::Images(h) => h.handled(s, req, path),
            Family::Models(h) => h.handled(s, req, path),
        }
    }

    fn matches(&self, method: &str, path: &str) -> (r: bool) {
        match self {
            Family::Chat(h) => h.matches(method, path),
            Family::Speech(h) => h.matches(method, path),
            Family::Transcriptions(h) => h.matches(method, path),
            Family::Voices(h) => h.matches(method, path),
            Family::Registry(h) => h.matches(method, path),
            Family::Images(h) => h.matches(method, path),
            Family::Models(h) => h.matches(method, path),
        }
    }

    fn handle(&self, state: &mut State, req: &ParsedRequest, path: &str) -> (r: Action) {
        match self {
            Family::Chat(h) => h.handle(state, req, path),
            Family::Speech(h) => h.handle(state, req, path),
            Family::Transcriptions(h) => h.handle(state, req, path),
            Family::Voices(h) => h.handle(state, req, path),
            Family::Registry(h) => h.handle(state, req, path),
            Family::Images(h) => h.handle(state, req, path),
            Family::Models(h) => h.handle(state, req, path),
        }
    }

    fn routes(&self) -> (r: &'static [&'static str]) {
        match self {
            Family::Chat(h) => h.routes(),
            Family::Speech(h) => h.routes(),
            Family::Transcriptions(h) => h.routes(),
            Family::Voices(h) => h.routes(),
            Family::Registry(h) => h.routes(),
            Family::Images(h) => h.routes(),
            Family::Models(h) => h.routes(),
        }
    }
}

/// The families in the order in which they are asked.
pub open spec fn families() -> Seq<Family> {
    seq![
        Family::Chat(ChatCompletions),
        Family::Speech(AudioSpeech),
        Family::Transcriptions(AudioTranscriptions),
        Family::Voices(AudioVoices),
        Family::Registry(VoiceRegistry),
        Family::Images(ImagesGenerations),
        Family::Models(Models),
    ]
}

/// The first of the families that serves a method on a path.
pub open spec fn first_serving(fs: Seq<Family>, method: Seq<char>, path: Seq<char>) -> Option<
    Family,
>
    decreases fs.len(),
{
    if fs.len() == 0 {
        None
    } else if fs[0].serves(method, path) {
        Some(fs[0])
    } else {
        first_serving(fs.skip(1), method, path)
    }
}

/// The routes of a row of families.
pub open spec fn routes_of(fs: Seq<Family>) -> Seq<Seq<char>>
    decreases fs.len(),
{
    if fs.len() == 0 {
        Seq::empty()
    } else {
        routes_of(fs.drop_last()) + fs.last().advertised()
    }
}

/// The answer to a path that nobody serves: what was asked, and what can be.
pub open spec fn unknown(method: Seq<char>, path: Seq<char>) -> ResponseModel {
    response::json_reply(
        404,
        Tree::Obj(
            map![
                "error"@ => Tree::Str("not found: "@ + method + " "@ + path),
                "endpoints"@ => json::text_list(
                    routes_of(families()) + handlers::line_texts(ROUTES@),
                ),
            ],
        ),
    )
}

/// The path behind a gateway's model, if it is one.
pub open spec fn behind_upstream(path: Seq<char>) -> Option<Seq<char>> {
    if UPSTREAM_PREFIX@.is_prefix_of(path) {
        match text::after_of(path.skip(UPSTREAM_PREFIX@.len() as int), API_MARK@) {
            Some(tail) => Some(API_MARK@ + tail),
            None => None,
        }
    } else {
        None
    }
}

/// The path that is served: one of a gateway without its beginning, where the extension is on;
/// nothing where it is off.
pub open spec fn served_path(s: StateModel, path: Seq<char>) -> Option<Seq<char>> {
    if UPSTREAM_PREFIX@.is_prefix_of(path) {
        if s.behavior.llamaswap {
            match behind_upstream(path) {
                Some(p) => Some(p),
                None => Some(path),
            }
        } else {
            None
        }
    } else {
        Some(path)
    }
}

/// The path of a request without its query.
pub open spec fn bare_path(req: RequestModel) -> Seq<char> {
    text::before_of(req.path, "?"@)
}

/// The request is one to the control plane.
pub open spec fn is_admin(req: RequestModel) -> bool {
    ADMIN_PREFIX@.is_prefix_of(bare_path(req))
}

/// The state and the action at the family that serves a path, or at none.
pub open spec fn dispatched(s: StateModel, req: RequestModel, path: Seq<char>) -> (
    StateModel,
    ActionModel,
) {
    match first_serving(families(), req.method, path) {
        Some(f) => f.handled(s, req, path),
        None => (s, handlers::at_once(unknown(req.method, path))),
    }
}

/// The state and the action after one stage of a request. On arrival the control plane answers
/// at once, and every other request is captured and pays the connection delay; then it goes to
/// its family; and a chat request that was stalled is answered.
pub open spec fn routed(s: StateModel, req: RequestModel, stage: StageModel) -> (
    StateModel,
    ActionModel,
) {
    let path = bare_path(req);
    match stage {
        StageModel::Arrived { at_ms, rms } => if is_admin(req) {
            (
                admin::admin_step(s, req, path).0,
                handlers::at_once(admin::admin_step(s, req, path).1),
            )
        } else {
            let entry = capture::capture_entry(req, at_ms, rms);
            (
                StateModel { captures: s.captures.push(entry), ..s },
                ActionModel::Wait {
                    line: capture::log_line(s, entry),
                    seconds: 0,
                    millis: s.behavior.connect_delay_ms,
                    next: StageModel::Connected,
                },
            )
        },
        StageModel::Connected => match served_path(s, path) {
            Some(p) => dispatched(s, req, p),
            None => (s, handlers::at_once(unknown(req.method, path))),
        },
        StageModel::Stalled { prompt } => chat::answered(s, req, prompt),
    }
}

/// The path behind a gateway's model, if it is one.
fn strip_upstream_prefix(path: &str) -> (r: Option<String>)
    ensures
        json::text_opt(r) == behind_upstream(path@),
{
    let rest = match text::strip_prefix(path, UPSTREAM_PREFIX) {
        Some(t) => t,
        None => return None,
    };
    match text::after(rest, API_MARK) {
        Some(tail) => {
            let mut s = API_MARK.to_owned();
            s.append(tail);
            Some(s)
        },
        None => None,
    }
}

/// The dispatcher.
pub struct Router {
    handlers: Vec<Family>,
}

impl Router {
    /// It holds all families, in order.
    pub closed spec fn wf(self) -> bool {
        self.handlers@ == families()
    }

    /// A dispatcher to all families.
    pub fn new() -> (r: Router)
        ensures
            r.wf(),
    {
        let mut handlers: Vec<Family> = Vec::new();
        handlers.push(Family::Chat(ChatCompletions));
        handlers.push(Family::Speech(AudioSpeech));
        handlers.push(Family::Transcriptions(AudioTranscriptions));
        handlers.push(Family::Voices(AudioVoices));
        handlers.push(Family::Registry(VoiceRegistry));
        handlers.push(Family::Images(ImagesGenerations));
        handlers.push(Family::Models(Models));
        assert(handlers@ =~= families());
        Router { handlers }
    }

    /// The routes of all families and of the control plane.
    fn endpoints(&self) -> (r: Vec<String>)
        requires
            self.wf(),
        ensures
            text::texts(r@) == routes_of(families()) + handlers::line_texts(ROUTES@),
    {
        let mut out: Vec<String> = Vec::new();
        let mut i: usize = 0;
        assert(self.handlers@.take(0) =~= Seq::empty());
        assert(text::texts(out@) =~= Seq::empty());
        while i < self.handlers.len()
            invariant
                i <= self.handlers.len(),
                text::texts(out@) == routes_of(self.handlers@.take(i as int)),
            decreases self.handlers.len() - i,
        {
            push_lines(&mut out, self.handlers[i].routes());
            assert(self.handlers@.take(i + 1).drop_last() =~= self.handlers@.take(i as int));
            i += 1;
        }
        assert(self.handlers@.take(i as int) =~= self.handlers@);
        push_lines(&mut out, &ROUTES);
        out
    }

    /// The answer to a path that nobody serves.
    fn not_found(&self, method: &str, path: &str) -> (r: HttpResponse)
        requires
            self.wf(),
        ensures
            r@ == unknown(method@, path@),
    {
        let mut message = "not found: ".to_owned();
        message.append(method);
        message.append(" ");
        message.append(path);
        let body = Members::new().with("error", Json::Str(message)).with(
            "endpoints",
            list_of_texts(self.endpoints().as_slice()),
        ).done();
        HttpResponse::json(404, &body)
    }

    /// Hands a request to the family that serves a path.
    fn dispatch(&self, state: &mut State, req: &ParsedRequest, path: &str) -> (r: Action)
        requires
            self.wf(),
            old(state).wf(),
        ensures
            final(state).wf(),
            (final(state)@, r@) == dispatched(old(state)@, req@, path@),
    {
        let ghost all = self.handlers@;
        let method = req.method.as_str();
        let mut i: usize = 0;
        assert(all.skip(0) =~= all);
        while i < self.handlers.len()
            invariant
                i <= self.handlers.len(),
                all == self.handlers@,
                all == families(),
                method@ == req@.method,
                *state == *old(state),
                state.wf(),
                first_serving(all, method@, path@) == first_serving(
                    all.skip(i as int),
                    method@,
                    path@,
                ),
            decreases self.handlers.len() - i,
        {
            assert(all.skip(i as int)[0] == all[i as int]);
            if self.handlers[i].matches(method, path) {
                return self.handlers[i].handle(state, req, path);
            }
            assert(all.skip(i as int).skip(1) =~= all.skip(i + 1));
            i += 1;
        }
        assert(all.skip(i as int) =~= Seq::empty());
        respond(self.not_found(method, path))
    }

    /// Takes a request one stage further.
    pub fn route(&self, state: &mut State, req: &ParsedRequest, stage: Stage) -> (r: Action)
        requires
            self.wf(),
            old(state).wf(),
        ensures
            final(state).wf(),
            (final(state)@, r@) == routed(old(state)@, req@, stage@),
    {
        let path = text::before(req.path.as_str(), "?");
        match stage {
            Stage::Arrived { at_ms, rms } => {
                if text::starts_with(path, ADMIN_PREFIX) {
                    return respond(admin::handle(state, req, path));
                }
                let millis: u64 = state.behavior().connect_delay_ms;
                let line = record(state, req, at_ms, rms);
                Action::Wait { line, seconds: 0, millis, next: Stage::Connected }
            },
            Stage::Connected => {
                if !text::starts_with(path, UPSTREAM_PREFIX) {
                    return self.dispatch(state, req, path);
                }
                if !state.llamaswap_enabled() {
                    return respond(self.not_found(req.method.as_str(), path));
                }
                match strip_upstream_prefix(path) {
                    Some(p) => self.dispatch(state, req, p.as_str()),
                    None => self.dispatch(state, req, path),
                }
            },
            Stage::Stalled { prompt } => ChatCompletions.answer(state, req, prompt),
        }
    }
}

/// Adds fixed lines to a list.
fn push_lines(out: &mut Vec<String>, lines: &[&'static str])
    ensures
        text::texts(final(out)@) == text::texts(old(out)@) + handlers::line_texts(lines@),
{
    let ghost before = text::texts(out@);
    let ghost all = handlers::line_texts(lines@);
    let mut i: usize = 0;
    assert(before + all.take(0) =~= before);
    while i < lines.len()
        invariant
            i <= lines.len(),
            all == handlers::line_texts(lines@),
            text::texts(out@) == before + all.take(i as int),
        decreases lines.len() - i,
    {
        let ghost now = text::texts(out@);
        out.push(lines[i].to_owned());
        assert(text::texts(out@) =~= now.push(all[i as int]));
        assert(now.push(all[i as int]) =~= before + all.take(i + 1));
        i += 1;
    }
    assert(all.take(i as int) =~= all);
}

/// The state and the last action of a request that is taken through its stages with no other
/// request in between.
pub open spec fn outcome(s: StateModel, req: RequestModel, at_ms: u64, rms: Tree) -> (
    StateModel,
    ActionModel,
) {
    let first = routed(s, req, StageModel::Arrived { at_ms, rms });
    match first.1 {
        ActionModel::Wait { next, .. } => {
            let second = routed(first.0, req, next);
            match second.1 {
                ActionModel::Wait { next, .. } => routed(second.0, req, next),
                _ => second,
            }
        },
        _ => first,
    }
}

/// What only the control plane changes is the same in both states.
pub open spec fn same_settings(a: StateModel, b: StateModel) -> bool {
    &&& a.default_response == b.default_response
    &&& a.behavior == b.behavior
    &&& a.models == b.models
    &&& a.log_file == b.log_file
    &&& a.log_stdout == b.log_stdout
    &&& a.speech_pcm == b.speech_pcm
    &&& a.speech_variants == b.speech_variants
}

/// What a family does to a request: it captures nothing and configures nothing, and if it makes
/// the request wait, then for the one stall.
proof fn lemma_handled(f: Family, s: StateModel, req: RequestModel, path: Seq<char>)
    ensures
        f.handled(s, req, path).0.captures == s.captures,
        same_settings(f.handled(s, req, path).0, s),
        f.handled(s, req, path).1 matches ActionModel::Wait { next, .. } ==> next is Stalled,
{
    match f {
        Family::Chat(h) => {
            assert(f.handled(s, req, path) == chat::chat_step(s, req));
        },
        Family::Speech(h) => {},
        Family::Transcriptions(h) => {},
        Family::Voices(h) => {},
        Family::Registry(h) => {
            assert(f.handled(s, req, path) == h.handled(s, req, path));
        },
        Family::Images(h) => {},
        Family::Models(h) => {},
    }
}

/// Only the arrival of a request captures it, and no later stage configures anything, whatever
/// other requests did to the state in between; and a request waits at most once more.
pub proof fn law_later_stages_capture_nothing(
    s: StateModel,
    req: RequestModel,
    prompt: Option<u64>,
)
    ensures
        ({
            let (after, action) = routed(s, req, StageModel::Connected);
            &&& after.captures == s.captures
            &&& same_settings(after, s)
            &&& action matches ActionModel::Wait { next, .. } ==> next is Stalled
        }),
        ({
            let (after, action) = routed(s, req, StageModel::Stalled { prompt });
            &&& after.captures == s.captures
            &&& same_settings(after, s)
            &&& !(action is Wait)
        }),
{
    if let Some(p) = served_path(s, bare_path(req)) {
        if let Some(f) = first_serving(families(), req.method, p) {
            lemma_handled(f, s, req, p);
        }
    }
}

/// A request that is not one to the control plane is captured exactly once, as it came in, and
/// whatever it is answered with.
pub proof fn law_every_request_is_captured_once(
    s: StateModel,
    req: RequestModel,
    at_ms: u64,
    rms: Tree,
)
    requires
        !is_admin(req),
    ensures
        outcome(s, req, at_ms, rms).0.captures == s.captures.push(
            capture::capture_entry(req, at_ms, rms),
        ),
{
    let first = routed(s, req, StageModel::Arrived { at_ms, rms });
    law_later_stages_capture_nothing(first.0, req, None);
}

/// A capture is there as soon as the request has come in, ahead of the connection delay.
pub proof fn law_captures_come_before_the_delay(
    s: StateModel,
    req: RequestModel,
    at_ms: u64,
    rms: Tree,
)
    requires
        !is_admin(req),
    ensures
        ({
            let (after, action) = routed(s, req, StageModel::Arrived { at_ms, rms });
            &&& after.captures.len() == s.captures.len() + 1
            &&& action matches ActionModel::Wait { seconds, millis, next, .. }
            &&& seconds == 0
            &&& millis == s.behavior.connect_delay_ms
            &&& next is Connected
        }),
{
}

/// The control plane is never captured, and answers at once: no delay that is configured holds
/// it up. Its reset forgets the captures; nothing else touches them.
pub proof fn law_the_control_plane_is_never_captured(
    s: StateModel,
    req: RequestModel,
    at_ms: u64,
    rms: Tree,
)
    requires
        is_admin(req),
    ensures
        ({
            let (after, action) = outcome(s, req, at_ms, rms);
            let sub = bare_path(req).skip(ADMIN_PREFIX@.len() as int);
            &&& after.captures == if admin::command_of(req.method, sub) == Some(Command::Reset) {
                Seq::<Tree>::empty()
            } else {
                s.captures
            }
            &&& action matches ActionModel::Respond { delay_ms, .. }
            &&& delay_ms == 0
        }),
{
}

/// Only the control plane configures: no other request changes the behavior, the models, the
/// fallback or the audio.
pub proof fn law_only_the_control_plane_configures(
    s: StateModel,
    req: RequestModel,
    at_ms: u64,
    rms: Tree,
)
    requires
        !is_admin(req),
    ensures
        same_settings(outcome(s, req, at_ms, rms).0, s),
{
    let first = routed(s, req, StageModel::Arrived { at_ms, rms });
    law_later_stages_capture_nothing(first.0, req, None);
}

/// Every request comes to its end: after at most the connection delay and one stall there is a
/// response. The one exception needs a context window: the usage of the response to a chat request
/// would be counted from the request, and its total is beyond 64 bits.
pub proof fn law_every_request_is_answered(
    s: StateModel,
    req: RequestModel,
    at_ms: u64,
    rms: Tree,
)
    ensures
        !(outcome(s, req, at_ms, rms).1 is Wait),
        outcome(s, req, at_ms, rms).1 is Fail ==> {
            &&& !is_admin(req)
            &&& chat::taken(s, req).1 matches Some(p)
            &&& !responses::usage_fits(
                chat::reporting(p, chat::prompt_count(s.behavior, req.body)),
            )
        },
        state::sound(s) && s.behavior.context_window is None ==> outcome(
            s,
            req,
            at_ms,
            rms,
        ).1 is Respond,
{
    let first = routed(s, req, StageModel::Arrived { at_ms, rms });
    if !is_admin(req) {
        law_later_stages_capture_nothing(first.0, req, None);
    }
}

/// Without the extension a gateway's paths are unknown, whatever follows.
pub proof fn law_the_gateway_can_be_off(s: StateModel, req: RequestModel)
    requires
        !s.behavior.llamaswap,
        UPSTREAM_PREFIX@.is_prefix_of(bare_path(req)),
    ensures
        routed(s, req, StageModel::Connected) == (
            s,
            handlers::at_once(unknown(req.method, bare_path(req))),
        ),
{
}

/// With the extension a gateway's path leads where the plain one leads: the beginning with the
/// model's name is taken off, and the same family serves what is left.
pub proof fn law_gateway_paths_lead_to_the_same_family(
    s: StateModel,
    req: RequestModel,
    model: Seq<char>,
    tail: Seq<char>,
)
    requires
        s.behavior.llamaswap,
        bare_path(req) == UPSTREAM_PREFIX@ + (model + API_MARK@ + tail),
        text::first_at(model + API_MARK@ + tail, API_MARK@, model.len() as int),
    ensures
        routed(s, req, StageModel::Connected) == dispatched(s, req, API_MARK@ + tail),
{
    let path = bare_path(req);
    let rest = model + API_MARK@ + tail;
    assert(UPSTREAM_PREFIX@.is_prefix_of(path)) by {
        assert(path.subrange(0, UPSTREAM_PREFIX@.len() as int) =~= UPSTREAM_PREFIX@);
    }
    assert(path.skip(UPSTREAM_PREFIX@.len() as int) =~= rest);
    text::lemma_position_is(rest, API_MARK@, model.len() as int);
    assert(rest.skip(model.len() as int + API_MARK@.len()) =~= tail);
}

/// A chat request that is turned away leaves the programmed responses as they were, all the way
/// through.
pub proof fn law_refused_requests_leave_the_queue(
    s: StateModel,
    req: RequestModel,
    at_ms: u64,
    rms: Tree,
)
    requires
        !is_admin(req),
        !UPSTREAM_PREFIX@.is_prefix_of(bare_path(req)),
        ChatCompletions.serves(req.method, bare_path(req)),
        chat::refusal(s.behavior, req) is Some,
    ensures
        outcome(s, req, at_ms, rms).0.responses == s.responses,
        outcome(s, req, at_ms, rms).1 == handlers::at_once(chat::refusal(s.behavior, req)->0),
{
    let first = routed(s, req, StageModel::Arrived { at_ms, rms });
    let fs = families();
    assert(fs[0] == Family::Chat(ChatCompletions));
    assert(fs[0].serves(req.method, bare_path(req)));
    chat::law_a_refusal_consumes_nothing(first.0, req);
}

/// The request is a chat request on a plain path that is not turned away.
pub open spec fn accepted_chat(s: StateModel, req: RequestModel) -> bool {
    &&& !is_admin(req)
    &&& !UPSTREAM_PREFIX@.is_prefix_of(bare_path(req))
    &&& ChatCompletions.serves(req.method, bare_path(req))
    &&& chat::refusal(s.behavior, req) is None
}

/// A chat request, stalled or not, is answered from what the state held when it came in.
pub proof fn lemma_accepted_chat(s: StateModel, req: RequestModel, at_ms: u64, rms: Tree)
    requires
        accepted_chat(s, req),
    ensures
        outcome(s, req, at_ms, rms).0.responses == chat::taken(s, req).0.responses,
        outcome(s, req, at_ms, rms).1 == chat::served(
            chat::taken(s, req).1,
            chat::wants_stream(req.body),
            chat::prompt_count(s.behavior, req.body),
        ),
{
    let first = routed(s, req, StageModel::Arrived { at_ms, rms });
    let fs = families();
    assert(fs[0] == Family::Chat(ChatCompletions));
    assert(fs[0].serves(req.method, bare_path(req)));
    assert(dispatched(first.0, req, bare_path(req)) == chat::chat_step(first.0, req));
}

/// The sequence that was programmed is the sequence that is served: a chat request that may take
/// from the queue is answered with the response at its head, rendered as it asked, and that
/// response is gone.
pub proof fn law_chat_takes_the_next_response(
    s: StateModel,
    req: RequestModel,
    at_ms: u64,
    rms: Tree,
)
    requires
        accepted_chat(s, req),
        behavior::consumes(s.behavior, req.path, req.body),
        s.responses.len() > 0,
    ensures
        outcome(s, req, at_ms, rms).0.responses == s.responses.skip(1),
        outcome(s, req, at_ms, rms).1 == chat::served(
            Some(s.responses[0]),
            chat::wants_stream(req.body),
            chat::prompt_count(s.behavior, req.body),
        ),
{
    lemma_accepted_chat(s, req, at_ms, rms);
}

/// A chat request that finds nothing programmed, or may not take it, is answered with the
/// fallback, or the built-in stream where there is none, and takes nothing.
pub proof fn law_chat_falls_back(s: StateModel, req: RequestModel, at_ms: u64, rms: Tree)
    requires
        accepted_chat(s, req),
        s.responses.len() == 0 || !behavior::consumes(s.behavior, req.path, req.body),
    ensures
        outcome(s, req, at_ms, rms).0.responses == s.responses,
        outcome(s, req, at_ms, rms).1 == chat::served(
            s.default_response,
            chat::wants_stream(req.body),
            chat::prompt_count(s.behavior, req.body),
        ),
{
    lemma_accepted_chat(s, req, at_ms, rms);
}

/// The two states differ in nothing but their captures.
pub open spec fn same_but_captures(a: StateModel, b: StateModel) -> bool {
    a == (StateModel { captures: a.captures, ..b })
}

/// The two requests differ in nothing but their paths.
pub open spec fn same_but_path(a: RequestModel, b: RequestModel) -> bool {
    a == (RequestModel { path: a.path, ..b })
}

/// The request enrols a voice whose name is taken: it matters whether it is forced.
pub open spec fn enrols_a_taken_name(s: StateModel, req: RequestModel) -> bool {
    &&& req.method == "POST"@
    &&& bare_path(req) == audio::REGISTRY_VOICES_PATH@
    &&& audio::field_of(req.body, "consent_attestation"@) is Some
    &&& s.voices.contains(audio::voice_name(req.body))
}

/// A mark that begins with no slash and holds none stands in a row of segments where it stands in
/// one of them.
proof fn lemma_mark_in_segments(ahead: Seq<char>, rest: Seq<char>, mark: Seq<char>)
    requires
        mark.len() > 0,
        !mark.contains('/'),
    ensures
        text::occurs(ahead + seq!['/'] + rest, mark) <==> text::occurs(ahead, mark)
            || text::occurs(rest, mark),
{
    let whole = ahead + seq!['/'] + rest;
    let n = ahead.len() as int;
    if text::occurs(whole, mark) {
        let i = choose|i: int| text::occurs_at(whole, mark, i);
        let l = mark.len() as int;
        if i <= n < i + l {
            assert(whole.subrange(i, i + l)[n - i] == mark[n - i]);
            assert(mark[n - i] == '/');
            assert(mark.contains('/'));
        } else if n < i {
            assert(rest.subrange(i - n - 1, i - n - 1 + l) =~= whole.subrange(i, i + l));
            assert(text::occurs_at(rest, mark, i - n - 1));
        } else {
            assert(ahead.subrange(i, i + l) =~= whole.subrange(i, i + l));
            assert(text::occurs_at(ahead, mark, i));
        }
    }
    if text::occurs(ahead, mark) {
        let i = choose|i: int| text::occurs_at(ahead, mark, i);
        assert(whole.subrange(i, i + mark.len()) =~= ahead.subrange(i, i + mark.len()));
        assert(text::occurs_at(whole, mark, i));
    }
    if text::occurs(rest, mark) {
        let i = choose|i: int| text::occurs_at(rest, mark, i);
        let l = mark.len() as int;
        assert(whole.subrange(i + n + 1, i + n + 1 + l) =~= rest.subrange(i, i + l));
        assert(text::occurs_at(whole, mark, i + n + 1));
    }
}

/// Whether a voice is enrolled by force: on a plain path by what follows, on a gateway's path by
/// the model's name as well.
proof fn lemma_force(m: Seq<char>, t: Seq<char>)
    requires
        !m.contains('/'),
    ensures
        text::occurs(API_MARK@ + t, "force=true"@) <==> text::occurs(t, "force=true"@),
        text::occurs(UPSTREAM_PREFIX@ + (m + API_MARK@ + t), "force=true"@) <==> text::occurs(
            m,
            "force=true"@,
        ) || text::occurs(t, "force=true"@),
{
    reveal_strlit("/v1/");
    reveal_strlit("/upstream/");
    reveal_strlit("force=true");
    let f = "force=true"@;
    assert(f.len() == 10 && f[0] == 'f' && f[1] == 'o' && f[2] == 'r' && f[3] == 'c' && f[4] == 'e'
        && f[5] == '=' && f[6] == 't' && f[7] == 'r' && f[8] == 'u' && f[9] == 'e');
    let none = Seq::<char>::empty();
    let v1 = seq!['v', '1'];
    let up = seq!['u', 'p', 's', 't', 'r', 'e', 'a', 'm'];
    let slash = seq!['/'];
    assert(API_MARK@ =~= none + slash + v1 + slash);
    assert(UPSTREAM_PREFIX@ =~= none + slash + up + slash);
    let tail = v1 + slash + t;
    assert(API_MARK@ + t =~= none + slash + tail);
    lemma_mark_in_segments(none, tail, f);
    lemma_mark_in_segments(v1, t, f);
    let behind = m + slash + tail;
    let rest = up + slash + behind;
    assert(UPSTREAM_PREFIX@ + (m + API_MARK@ + t) =~= none + slash + rest);
    lemma_mark_in_segments(none, rest, f);
    lemma_mark_in_segments(up, behind, f);
    lemma_mark_in_segments(m, tail, f);
}

/// Whether a path is one of chat: on either path by what follows.
proof fn lemma_chat_path(m: Seq<char>, t: Seq<char>)
    requires
        !m.contains('/'),
    ensures
        text::occurs(API_MARK@ + t, "chat/completions"@) <==> text::occurs(
            t,
            "chat/completions"@,
        ),
        text::occurs(UPSTREAM_PREFIX@ + (m + API_MARK@ + t), "chat/completions"@)
            <==> text::occurs(t, "chat/completions"@),
{
    reveal_strlit("/v1/");
    reveal_strlit("/upstream/");
    reveal_strlit("chat/completions");
    let c = "chat/completions"@;
    assert(c.len() == 16 && c[0] == 'c' && c[1] == 'h' && c[2] == 'a' && c[3] == 't' && c[4] == '/'
        && c[5] == 'c');
    assert(API_MARK@.len() == 4 && API_MARK@[0] == '/' && API_MARK@[1] == 'v' && API_MARK@[2] == '1'
        && API_MARK@[3] == '/');
    let up = UPSTREAM_PREFIX@;
    assert(up.len() == 10 && up[0] == '/' && up[1] == 'u' && up[2] == 'p' && up[3] == 's' && up[4]
        == 't' && up[5] == 'r' && up[6] == 'e' && up[7] == 'a' && up[8] == 'm' && up[9] == '/');
    let a = up + (m + API_MARK@ + t);
    let b = API_MARK@ + t;
    let n = 10 + m.len() as int;
    if text::occurs(b, c) {
        let i = choose|i: int| text::occurs_at(b, c, i);
        assert(b.subrange(i, i + 16)[0] == c[0]);
        assert(i >= 4) by {
            if i < 4 {
                assert(b[i] == API_MARK@[i]);
            }
        }
        assert(t.subrange(i - 4, i + 12) =~= b.subrange(i, i + 16));
        assert(text::occurs_at(t, c, i - 4));
    }
    if text::occurs(a, c) {
        let i = choose|i: int| text::occurs_at(a, c, i);
        let sub = a.subrange(i, i + 16);
        assert(sub[0] == c[0] && sub[1] == c[1] && sub[2] == c[2] && sub[3] == c[3] && sub[4]
            == c[4] && sub[5] == c[5]);
        assert(i >= n + 4) by {
            if i < 10 {
                assert(a[i] == up[i]);
            } else if i < n {
                assert(a[n] == API_MARK@[0] && a[n + 1] == API_MARK@[1]);
                if i + 4 < n {
                    assert(a[i + 4] == m[i + 4 - 10]);
                    assert(m.contains('/'));
                } else {
                    assert(a[n] == sub[n - i] && a[n + 1] == sub[n + 1 - i]);
                }
            } else if i < n + 4 {
                assert(a[i] == API_MARK@[i - n]);
            }
        }
        assert(t.subrange(i - n - 4, i - n + 12) =~= sub);
        assert(text::occurs_at(t, c, i - n - 4));
    }
    if text::occurs(t, c) {
        let i = choose|i: int| text::occurs_at(t, c, i);
        assert(b.subrange(i + 4, i + 20) =~= t.subrange(i, i + 16));
        assert(text::occurs_at(b, c, i + 4));
        assert(a.subrange(i + n + 4, i + n + 20) =~= t.subrange(i, i + 16));
        assert(text::occurs_at(a, c, i + n + 4));
    }
}

/// Where a mark stands first, given somewhere that it stands.
pub proof fn lemma_first<A>(whole: Seq<A>, part: Seq<A>, i: int) -> (j: int)
    requires
        text::occurs_at(whole, part, i),
    ensures
        text::first_at(whole, part, j),
    decreases i,
{
    if exists|k: int| k < i && text::occurs_at(whole, part, k) {
        let k = choose|k: int| k < i && text::occurs_at(whole, part, k);
        lemma_first(whole, part, k)
    } else {
        i
    }
}

/// What stands ahead of the query, on a path that begins with what holds no question mark.
pub proof fn lemma_bare(ahead: Seq<char>, t: Seq<char>)
    requires
        !ahead.contains('?'),
    ensures
        text::before_of(ahead + t, "?"@) == ahead + text::before_of(t, "?"@),
{
    reveal_strlit("?");
    let q = "?"@;
    assert(q.len() == 1 && q[0] == '?');
    let whole = ahead + t;
    let n = ahead.len() as int;
    assert forall|k: int| text::occurs_at(whole, q, k) implies k >= n && text::occurs_at(
        t,
        q,
        k - n,
    ) by {
        assert(whole.subrange(k, k + 1)[0] == q[0]);
        if k < n {
            assert(ahead[k] == '?');
            assert(ahead.contains('?'));
        }
        assert(t.subrange(k - n, k - n + 1) =~= q);
    }
    if text::occurs(t, q) {
        let i = choose|i: int| text::occurs_at(t, q, i);
        let j = lemma_first(t, q, i);
        assert(text::occurs_at(t, q, j));
        assert(t.subrange(j, j + 1)[0] == q[0]);
        assert(whole.subrange(n + j, n + j + 1) =~= q);
        assert(text::occurs_at(whole, q, n + j));
        assert forall|k: int| k < n + j implies !text::occurs_at(whole, q, k) by {
            if text::occurs_at(whole, q, k) {
                assert(text::occurs_at(t, q, k - n));
            }
        }
        text::lemma_position_is(t, q, j);
        text::lemma_position_is(whole, q, n + j);
        assert(whole.take(n + j) =~= ahead + t.take(j));
    } else {
        if text::occurs(whole, q) {
            let k = choose|k: int| text::occurs_at(whole, q, k);
            assert(text::occurs_at(t, q, k - n));
        }
    }
}

/// A family does the same to two requests on the same path that differ in what they were sent to
/// alone, where that makes them both tool turns or neither, and both forced or neither, or does
/// not matter.
proof fn lemma_same_handling(
    f: Family,
    s: StateModel,
    u: StateModel,
    a: RequestModel,
    b: RequestModel,
)
    requires
        same_but_captures(s, u),
        same_but_path(a, b),
        f.serves(b.method, bare_path(b)),
        text::occurs(a.path, "chat/completions"@) == text::occurs(b.path, "chat/completions"@),
        text::occurs(a.path, "force=true"@) == text::occurs(b.path, "force=true"@)
            || !enrols_a_taken_name(u, b),
    ensures
        ({
            let (after_a, action_a) = f.handled(s, a, bare_path(b));
            let (after_b, action_b) = f.handled(u, b, bare_path(b));
            action_a == action_b && same_but_captures(after_a, after_b)
        }),
{
    match f {
        Family::Chat(h) => {
            assert(f.handled(s, a, bare_path(b)) == chat::chat_step(s, a));
            assert(f.handled(u, b, bare_path(b)) == chat::chat_step(u, b));
            lemma_same_answer(s, u, a, b, chat::prompt_count(u.behavior, b.body));
        },
        Family::Speech(h) => {},
        Family::Transcriptions(h) => {},
        Family::Voices(h) => {},
        Family::Registry(h) => {
            assert(f.handled(s, a, bare_path(b)) == h.handled(s, a, bare_path(b)));
            assert(f.handled(u, b, bare_path(b)) == h.handled(u, b, bare_path(b)));
            assert(h.serves(b.method, bare_path(b)));
        },
        Family::Images(h) => {},
        Family::Models(h) => {},
    }
}

/// The same, for a chat request behind its stall.
proof fn lemma_same_answer(
    s: StateModel,
    u: StateModel,
    a: RequestModel,
    b: RequestModel,
    prompt: Option<u64>,
)
    requires
        same_but_captures(s, u),
        same_but_path(a, b),
        text::occurs(a.path, "chat/completions"@) == text::occurs(b.path, "chat/completions"@),
    ensures
        chat::answered(s, a, prompt).1 == chat::answered(u, b, prompt).1,
        same_but_captures(chat::answered(s, a, prompt).0, chat::answered(u, b, prompt).0),
{
}

/// With the extension, a request on a gateway's path and one on the plain path get the same
/// response, and leave the same behind but for the path that was captured: the same queue, the
/// same voices, the same latch. Without it, the gateway's path is unknown. The one thing that
/// tells them apart is a model's name that holds `force=true`, and then only where it forces the
/// enrolment of a voice whose name is taken.
pub proof fn law_gateway_and_plain_paths_are_served_alike(
    s: StateModel,
    a: RequestModel,
    b: RequestModel,
    m: Seq<char>,
    t: Seq<char>,
    at_ms: u64,
    rms: Tree,
)
    requires
        same_but_path(a, b),
        a.path == UPSTREAM_PREFIX@ + (m + API_MARK@ + t),
        b.path == API_MARK@ + t,
        !m.contains('/'),
        !m.contains('?'),
        text::occurs(m, "force=true"@) ==> text::occurs(t, "force=true"@)
            || !enrols_a_taken_name(s, b),
    ensures
        s.behavior.llamaswap ==> {
            let (after_a, action_a) = outcome(s, a, at_ms, rms);
            let (after_b, action_b) = outcome(s, b, at_ms, rms);
            &&& action_a == action_b
            &&& same_but_captures(after_a, after_b)
        },
        !s.behavior.llamaswap ==> outcome(s, a, at_ms, rms).1 == handlers::at_once(
            unknown(a.method, bare_path(a)),
        ) && unknown(a.method, bare_path(a)).status == 404,
{
    let up = UPSTREAM_PREFIX@;
    let api = API_MARK@;
    let path = text::before_of(t, "?"@);
    reveal_strlit("/v1/");
    reveal_strlit("/upstream/");
    reveal_strlit("/__admin");
    assert(api.len() == 4 && api[0] == '/' && api[1] == 'v' && api[2] == '1' && api[3] == '/');
    assert(up.len() == 10 && up[0] == '/' && up[1] == 'u' && up[2] == 'p' && up[3] == 's' && up[4]
        == 't' && up[5] == 'r' && up[6] == 'e' && up[7] == 'a' && up[8] == 'm' && up[9] == '/');
    assert(ADMIN_PREFIX@.len() == 8 && ADMIN_PREFIX@[1] == '_');
    assert(!(up + m + api).contains('?')) by {
        if (up + m + api).contains('?') {
            let k = choose|k: int| 0 <= k < (up + m + api).len() && (up + m + api)[k] == '?';
            if 10 <= k < 10 + m.len() {
                assert(m[k - 10] == '?');
                assert(m.contains('?'));
            }
        }
    }
    lemma_bare(up + m + api, t);
    lemma_bare(api, t);
    assert(a.path =~= up + m + api + t);
    let rest = m + api + path;
    assert(bare_path(a) =~= up + rest);
    assert(bare_path(b) == api + path);
    lemma_force(m, t);
    lemma_chat_path(m, t);
    assert(bare_path(a)[1] == 'u' && bare_path(b)[1] == 'v');
    assert(!is_admin(a) && !is_admin(b));
    assert(!up.is_prefix_of(bare_path(b)));
    assert(up.is_prefix_of(bare_path(a))) by {
        assert(bare_path(a).subrange(0, 10) =~= up);
    }
    assert(text::first_at(rest, api, m.len() as int)) by {
        assert(rest.subrange(m.len() as int, m.len() as int + 4) =~= api);
        assert forall|j: int| j < m.len() implies !text::occurs_at(rest, api, j) by {
            if text::occurs_at(rest, api, j) {
                assert(rest.subrange(j, j + 4)[0] == api[0]);
                assert(m[j] == '/');
                assert(m.contains('/'));
            }
        }
    }
    let sa = routed(s, a, StageModel::Arrived { at_ms, rms }).0;
    let sb = routed(s, b, StageModel::Arrived { at_ms, rms }).0;
    assert(same_but_captures(sa, sb));
    if s.behavior.llamaswap {
        law_gateway_paths_lead_to_the_same_family(sa, a, m, path);
        let (na, xa) = routed(sa, a, StageModel::Connected);
        let (nb, xb) = routed(sb, b, StageModel::Connected);
        assert((na, xa) == dispatched(sa, a, bare_path(b)));
        assert((nb, xb) == dispatched(sb, b, bare_path(b)));
        if let Some(f) = first_serving(families(), b.method, bare_path(b)) {
            lemma_first_serves(families(), b.method, bare_path(b));
            lemma_same_handling(f, sa, sb, a, b);
            lemma_handled(f, sb, b, bare_path(b));
        }
        assert(xa == xb && same_but_captures(na, nb));
        if let ActionModel::Wait { next, .. } = xb {
            if let StageModel::Stalled { prompt } = next {
                lemma_same_answer(na, nb, a, b, prompt);
            }
        }
    } else {
        law_the_gateway_can_be_off(sa, a);
    }
}

/// The first family that serves a path serves it.
proof fn lemma_first_serves(fs: Seq<Family>, method: Seq<char>, path: Seq<char>)
    requires
        first_serving(fs, method, path) is Some,
    ensures
        first_serving(fs, method, path)->0.serves(method, path),
    decreases fs.len(),
{
    if !fs[0].serves(method, path) {
        lemma_first_serves(fs.skip(1), method, path);
    }
}

/// A chat request on a plain path goes to its family at once.
pub proof fn lemma_chat_first(s: StateModel, req: RequestModel)
    requires
        !UPSTREAM_PREFIX@.is_prefix_of(bare_path(req)),
        ChatCompletions.serves(req.method, bare_path(req)),
    ensures
        routed(s, req, StageModel::Connected) == chat::chat_step(s, req),
{
    let fs = families();
    assert(fs[0] == Family::Chat(ChatCompletions));
    assert(fs[0].serves(req.method, bare_path(req)));
    assert(dispatched(s, req, bare_path(req)) == chat::chat_step(s, req));
}

/// A chat request that is turned away leaves the latch of the stall as it was.
pub proof fn lemma_refused(s: StateModel, req: RequestModel, at_ms: u64, rms: Tree)
    requires
        !is_admin(req),
        !UPSTREAM_PREFIX@.is_prefix_of(bare_path(req)),
        ChatCompletions.serves(req.method, bare_path(req)),
        chat::refusal(s.behavior, req) is Some,
    ensures
        outcome(s, req, at_ms, rms).0.stalled_once == s.stalled_once,
{
    let first = routed(s, req, StageModel::Arrived { at_ms, rms });
    lemma_chat_first(first.0, req);
}

/// A chat request that is stalled closes the latch, and no other touches it.
pub proof fn lemma_chat_latch(s: StateModel, req: RequestModel, at_ms: u64, rms: Tree)
    requires
        accepted_chat(s, req),
    ensures
        outcome(s, req, at_ms, rms).0.stalled_once == (s.stalled_once || behavior::stalls(
            s.behavior,
            s.stalled_once,
            req.path,
            req.body,
        )),
{
    let first = routed(s, req, StageModel::Arrived { at_ms, rms });
    lemma_chat_first(first.0, req);
}

/// No family serves a path that begins like a gateway's, unless chat does.
pub proof fn lemma_unserved(method: Seq<char>, path: Seq<char>)
    requires
        path.len() > 1,
        path[1] == 'u',
        !text::occurs(path, "chat/completions"@),
    ensures
        first_serving(families(), method, path) is None,
{
    reveal_strlit("/v1/audio/speech");
    reveal_strlit("/v1/audio/voices");
    reveal_strlit("/v1/audio/transcriptions");
    reveal_strlit("/v1/voices");
    reveal_strlit("/v1/images/generations");
    reveal_strlit("/v1/models");
    reveal_strlit("/v1/models/");
    assert(audio::SPEECH_PATH@[1] == 'v' && audio::VOICES_PATH@[1] == 'v');
    assert(audio::TRANSCRIPTIONS_PATH@[1] == 'v' && audio::REGISTRY_VOICES_PATH@[1] == 'v');
    assert("/v1/images/generations"@[1] == 'v' && "/v1/models"@[1] == 'v');
    assert("/v1/models/"@[1] == 'v');
    if first_serving(families(), method, path) is Some {
        lemma_first_serves(families(), method, path);
    }
}

} // verus!
