//! What a client can rely on: the responses to its requests, one after the other, in terms of
//! what it sent and of what was programmed and configured before.

use vstd::prelude::*;

use crate::admin;
use crate::behavior;
use crate::codec;
use crate::config::ConfigModel;
use crate::handlers::chat;
use crate::handlers::{ActionModel, StageModel};
use crate::json::{self, Tree};
use crate::response::{self, RequestModel, ResponseModel};
use crate::responses;
use crate::router;
use crate::state::{self, StateModel};
use crate::text;

verus! {

/// The request goes to a path, with or without a query.
pub open spec fn goes_to(req: RequestModel, method: Seq<char>, path: Seq<char>) -> bool {
    req.method == method && (req.path == path || exists|q: Seq<char>|
        req.path == #[trigger] (path + "?"@ + q))
}

/// The action is to send a JSON value at once.
pub open spec fn says(a: ActionModel, status: u16, t: Tree) -> bool {
    a == (ActionModel::Respond {
        delay_ms: 0,
        response: ResponseModel {
            status,
            content_type: "application/json"@,
            body: response::BodyModel::Buffered(vstd::utf8::encode_utf8(codec::written(t))),
        },
    })
}

/// The path of a request without its query.
pub proof fn lemma_path(req: RequestModel, method: Seq<char>, path: Seq<char>)
    requires
        goes_to(req, method, path),
        !path.contains('?'),
    ensures
        router::bare_path(req) == path,
        req.path.len() >= path.len(),
        req.path.take(path.len() as int) == path,
{
    let none = Seq::<char>::empty();
    reveal_strlit("?");
    let mark = "?"@;
    assert(mark.len() == 1 && mark[0] == '?');
    if req.path == path {
        router::lemma_bare(path, none);
        assert(path + none =~= path);
        assert forall|i: int| !text::occurs_at(none, mark, i) by {}
        assert(path.take(path.len() as int) =~= path);
        assert(path + text::before_of(none, mark) =~= path);
    } else {
        let q = choose|q: Seq<char>| req.path == #[trigger] (path + "?"@ + q);
        let rest = mark + q;
        router::lemma_bare(path, rest);
        assert(path + "?"@ + q =~= path + rest);
        assert(rest.subrange(0, 1) =~= mark);
        assert(text::first_at(rest, mark, 0));
        text::lemma_position_is(rest, mark, 0);
        assert(rest.take(0) =~= none);
        assert(path + none =~= path);
        assert(req.path.take(path.len() as int) =~= path);
    }
}

/// What the paths of the interface begin with.
pub proof fn lemma_plain(req: RequestModel, method: Seq<char>, path: Seq<char>)
    requires
        goes_to(req, method, path),
        !path.contains('?'),
        path.len() > 2,
        path[0] == '/',
        path[1] == 'v',
    ensures
        router::bare_path(req) == path,
        !router::is_admin(req),
        !router::UPSTREAM_PREFIX@.is_prefix_of(path),
{
    lemma_path(req, method, path);
    reveal_strlit("/__admin");
    reveal_strlit("/upstream/");
    assert(admin::ADMIN_PREFIX@[1] == '_');
    assert(router::UPSTREAM_PREFIX@[1] == 'u');
}

/// The path of chat requests.
pub const CHAT_PATH: &'static str = "/v1/chat/completions";

/// The path on which responses are programmed.
pub const PROGRAM_PATH: &'static str = "/__admin/responses";

/// The path on which the fallback is set.
pub const FALLBACK_PATH: &'static str = "/__admin/default";

/// Where a chat request goes.
proof fn lemma_chat_path(req: RequestModel)
    requires
        goes_to(req, "POST"@, CHAT_PATH@),
    ensures
        router::bare_path(req) == CHAT_PATH@,
        !router::is_admin(req),
        !router::UPSTREAM_PREFIX@.is_prefix_of(CHAT_PATH@),
        text::occurs(CHAT_PATH@, "chat/completions"@),
        text::occurs(req.path, "chat/completions"@),
{
    reveal_strlit("/v1/chat/completions");
    reveal_strlit("chat/completions");
    let p = CHAT_PATH@;
    assert(p.len() == 20 && "chat/completions"@.len() == 16);
    assert(!p.contains('?'));
    lemma_path(req, "POST"@, p);
    lemma_plain(req, "POST"@, p);
    assert(p.subrange(4, 20) =~= "chat/completions"@);
    assert(text::occurs_at(p, "chat/completions"@, 4));
    assert(req.path.subrange(4, 20) =~= req.path.take(20).subrange(4, 20));
    assert(text::occurs_at(req.path, "chat/completions"@, 4));
}

/// A chat request that nothing turns away, stalled or not, is answered from what the state held
/// when it came in.
proof fn lemma_chat(s: StateModel, req: RequestModel, at_ms: u64, rms: Tree)
    requires
        goes_to(req, "POST"@, CHAT_PATH@),
        chat::refusal(s.behavior, req) is None,
    ensures
        router::outcome(s, req, at_ms, rms).0.responses == chat::taken(s, req).0.responses,
        router::outcome(s, req, at_ms, rms).0.default_response == s.default_response,
        router::outcome(s, req, at_ms, rms).1 == chat::served(
            chat::taken(s, req).1,
            chat::wants_stream(req.body),
            chat::prompt_count(s.behavior, req.body),
        ),
{
    lemma_chat_path(req);
    router::lemma_accepted_chat(s, req, at_ms, rms);
    router::law_only_the_control_plane_configures(s, req, at_ms, rms);
}

/// The state behind a request to the control plane.
pub open spec fn told(
    s: StateModel,
    method: Seq<char>,
    path: Seq<char>,
    body: Tree,
) -> StateModel {
    router::outcome(
        s,
        RequestModel { method, path, headers: Tree::Null, body, raw: Seq::empty() },
        0,
        Tree::Null,
    ).0
}

/// What the control plane does on a path.
pub proof fn lemma_admin(s: StateModel, req: RequestModel, sub: Seq<char>, at_ms: u64, rms: Tree)
    requires
        goes_to(req, req.method, admin::ADMIN_PREFIX@ + sub),
        !sub.contains('?'),
    ensures
        ({
            let (after, action) = router::outcome(s, req, at_ms, rms);
            let (state, response) = admin::admin_step(s, req, admin::ADMIN_PREFIX@ + sub);
            &&& (admin::ADMIN_PREFIX@ + sub).skip(8) == sub
            &&& admin::ADMIN_PREFIX@.len() == 8
            &&& after == state
            &&& action == ActionModel::Respond { delay_ms: 0, response }
        }),
{
    reveal_strlit("/__admin");
    let p = admin::ADMIN_PREFIX@ + sub;
    assert(!p.contains('?')) by {
        if p.contains('?') {
            let k = choose|k: int| 0 <= k < p.len() && p[k] == '?';
            if k >= 8 {
                assert(sub[k - 8] == '?');
                assert(sub.contains('?'));
            }
        }
    }
    lemma_path(req, req.method, p);
    assert(p.subrange(0, 8) =~= admin::ADMIN_PREFIX@);
    assert(p.skip(8) =~= sub);
}

/// What programming a value on its own leaves in line.
proof fn lemma_programmed(s: StateModel, v: Tree)
    ensures
        told(s, "PUT"@, PROGRAM_PATH@, v) == (StateModel { responses: responses::specs_in(v), ..s }),
        told(s, "POST"@, PROGRAM_PATH@, v) == (StateModel {
            responses: s.responses + responses::specs_in(v),
            ..s
        }),
        told(s, "DELETE"@, PROGRAM_PATH@, v) == (StateModel { responses: Seq::empty(), ..s }),
{
    reveal_strlit("/__admin");
    reveal_strlit("/responses");
    reveal_strlit("/__admin/responses");
    reveal_strlit("/reset");
    reveal_strlit("PUT");
    reveal_strlit("POST");
    reveal_strlit("GET");
    reveal_strlit("DELETE");
    assert("PUT"@.len() == 3 && "GET"@.len() == 3 && "POST"@.len() == 4 && "DELETE"@.len() == 6);
    assert("PUT"@[0] == 'P' && "GET"@[0] == 'G');
    assert("/responses"@.len() == 10 && "/reset"@.len() == 6);
    let sub = "/responses"@;
    assert(PROGRAM_PATH@ =~= admin::ADMIN_PREFIX@ + sub);
    assert(!sub.contains('?'));
    let put = RequestModel {
        method: "PUT"@,
        path: PROGRAM_PATH@,
        headers: Tree::Null,
        body: v,
        raw: Seq::empty(),
    };
    let post = RequestModel { method: "POST"@, ..put };
    let delete = RequestModel { method: "DELETE"@, ..put };
    lemma_admin(s, put, sub, 0, Tree::Null);
    lemma_admin(s, post, sub, 0, Tree::Null);
    lemma_admin(s, delete, sub, 0, Tree::Null);
}

/// What setting the fallback leaves behind.
proof fn lemma_fallback(s: StateModel, v: Tree)
    ensures
        told(s, "PUT"@, FALLBACK_PATH@, v) == (StateModel {
            default_response: Some(responses::spec_of(v)),
            ..s
        }),
        told(s, "DELETE"@, FALLBACK_PATH@, v) == (StateModel { default_response: None, ..s }),
{
    reveal_strlit("/__admin");
    reveal_strlit("/default");
    reveal_strlit("/responses");
    reveal_strlit("/__admin/default");
    reveal_strlit("PUT");
    reveal_strlit("POST");
    reveal_strlit("GET");
    reveal_strlit("DELETE");
    assert("PUT"@.len() == 3 && "GET"@.len() == 3 && "POST"@.len() == 4 && "DELETE"@.len() == 6);
    assert("PUT"@[0] == 'P' && "GET"@[0] == 'G');
    assert("/responses"@.len() == 10 && "/default"@.len() == 8);
    let sub = "/default"@;
    assert(FALLBACK_PATH@ =~= admin::ADMIN_PREFIX@ + sub);
    assert(!sub.contains('?'));
    let put = RequestModel {
        method: "PUT"@,
        path: FALLBACK_PATH@,
        headers: Tree::Null,
        body: v,
        raw: Seq::empty(),
    };
    let delete = RequestModel { method: "DELETE"@, ..put };
    lemma_admin(s, put, sub, 0, Tree::Null);
    lemma_admin(s, delete, sub, 0, Tree::Null);
}

/// Nothing turns a chat request away, and it may take from the queue.
pub open spec fn unhindered(s: StateModel) -> bool {
    &&& !s.behavior.validate_chat
    &&& s.behavior.context_window is None
    &&& !s.behavior.consume_only_with_tools
}

/// Whether a request wants a stream: unless it says otherwise.
pub open spec fn streaming(body: Tree) -> bool {
    body.bool_at("stream"@) != Some(false)
}

/// A programmed value is served as it describes, after the pause that it names.
proof fn lemma_serves(v: Tree, stream: bool)
    ensures
        chat::served(Some(responses::spec_of(v)), stream, None) matches ActionModel::Respond {
            delay_ms,
            response,
        } && delay_ms == responses::programmed_number(v, "delay_ms"@, 0) && responses::performs(
            response,
            v,
            stream,
            None,
        ),
{
    responses::law_rendering_performs_what_was_programmed(v, stream, None);
    let spec = responses::spec_of(v);
    assert(responses::SpecModel { derived_prompt: None, ..spec } == spec);
}

/// So is one that is served with a derived prompt, unless its usage has no total.
proof fn lemma_serves_with_prompt(v: Tree, stream: bool, p: u64)
    ensures
        answers_with_prompt(
            chat::served(Some(responses::spec_of(v)), stream, Some(p)),
            v,
            stream,
            p,
        ),
{
    responses::law_rendering_performs_what_was_programmed(v, stream, Some(p));
}

/// A value that was programmed is what the next chat request is answered with, after the pause
/// that it names, and it is gone afterwards; a value that was set as the fallback is answered in
/// the same way, and stays.
pub proof fn law_programmed_responses_are_served(
    s: StateModel,
    v: Tree,
    req: RequestModel,
    at_ms: u64,
    rms: Tree,
)
    requires
        !(v is Arr),
        unhindered(s),
        goes_to(req, "POST"@, CHAT_PATH@),
    ensures
        ({
            let programmed = told(s, "PUT"@, PROGRAM_PATH@, v);
            let (after, action) = router::outcome(programmed, req, at_ms, rms);
            &&& action matches ActionModel::Respond { delay_ms, response }
            &&& delay_ms == responses::programmed_number(v, "delay_ms"@, 0)
            &&& responses::performs(response, v, streaming(req.body), None)
            &&& programmed.responses.len() == 1
            &&& after.responses.len() == 0
        }),
        ({
            let emptied = told(s, "DELETE"@, PROGRAM_PATH@, v);
            let set = told(emptied, "PUT"@, FALLBACK_PATH@, v);
            let (after, action) = router::outcome(set, req, at_ms, rms);
            &&& action matches ActionModel::Respond { delay_ms, response }
            &&& delay_ms == responses::programmed_number(v, "delay_ms"@, 0)
            &&& responses::performs(response, v, streaming(req.body), None)
            &&& after.default_response == set.default_response
            &&& after.responses.len() == 0
        }),
{
    lemma_programmed(s, v);
    let programmed = told(s, "PUT"@, PROGRAM_PATH@, v);
    lemma_chat(programmed, req, at_ms, rms);
    let emptied = told(s, "DELETE"@, PROGRAM_PATH@, v);
    lemma_fallback(emptied, v);
    let set = told(emptied, "PUT"@, FALLBACK_PATH@, v);
    lemma_chat(set, req, at_ms, rms);
    lemma_serves(v, streaming(req.body));
}

/// A list that was programmed is served item by item: the next chat request is answered as if
/// the first item alone had been programmed, and the others stay in line.
pub proof fn law_a_list_is_served_item_by_item(
    s: StateModel,
    a: Seq<Tree>,
    req: RequestModel,
    at_ms: u64,
    rms: Tree,
)
    requires
        a.len() > 0,
        unhindered(s),
        goes_to(req, "POST"@, CHAT_PATH@),
    ensures
        ({
            let all = router::outcome(
                told(s, "PUT"@, PROGRAM_PATH@, Tree::Arr(a)),
                req,
                at_ms,
                rms,
            );
            let one = router::outcome(
                told(s, "PUT"@, PROGRAM_PATH@, Tree::Arr(seq![a[0]])),
                req,
                at_ms,
                rms,
            );
            &&& all.1 == one.1
            &&& all.0.responses == told(s, "PUT"@, PROGRAM_PATH@, Tree::Arr(a.skip(1))).responses
        }),
{
    lemma_programmed(s, Tree::Arr(a));
    lemma_programmed(s, Tree::Arr(seq![a[0]]));
    lemma_programmed(s, Tree::Arr(a.skip(1)));
    lemma_chat(told(s, "PUT"@, PROGRAM_PATH@, Tree::Arr(a)), req, at_ms, rms);
    lemma_chat(told(s, "PUT"@, PROGRAM_PATH@, Tree::Arr(seq![a[0]])), req, at_ms, rms);
    let specs = responses::specs_in(Tree::Arr(a));
    assert(specs.skip(1) =~= responses::specs_in(Tree::Arr(a.skip(1))));
    assert(seq![a[0]][0] == a[0]);
    assert(responses::specs_in(Tree::Arr(seq![a[0]]))[0] == specs[0]);
}

/// A single value is programmed like the list of it; a list that is programmed behind another
/// stands behind it, and leaves what was in line; clearing leaves nothing. Nothing but the line
/// changes.
pub proof fn law_programming_puts_values_in_line(s: StateModel, v: Tree, a: Seq<Tree>, b: Seq<Tree>)
    requires
        !(v is Arr),
    ensures
        told(s, "PUT"@, PROGRAM_PATH@, v) == told(s, "PUT"@, PROGRAM_PATH@, Tree::Arr(seq![v])),
        told(s, "POST"@, PROGRAM_PATH@, v) == told(s, "POST"@, PROGRAM_PATH@, Tree::Arr(seq![v])),
        told(told(s, "PUT"@, PROGRAM_PATH@, Tree::Arr(a)), "POST"@, PROGRAM_PATH@, Tree::Arr(b))
            == told(s, "PUT"@, PROGRAM_PATH@, Tree::Arr(a + b)),
        told(s, "POST"@, PROGRAM_PATH@, Tree::Arr(b)).responses == s.responses + told(
            s,
            "PUT"@,
            PROGRAM_PATH@,
            Tree::Arr(b),
        ).responses,
        told(s, "PUT"@, PROGRAM_PATH@, Tree::Arr(b)).responses.len() == b.len(),
        told(s, "DELETE"@, PROGRAM_PATH@, v) == told(s, "PUT"@, PROGRAM_PATH@, Tree::Arr(Seq::empty())),
        told(s, "POST"@, PROGRAM_PATH@, v) == (StateModel {
            responses: told(s, "POST"@, PROGRAM_PATH@, v).responses,
            ..s
        }),
{
    let one = Tree::Arr(seq![v]);
    let two = Tree::Arr(a + b);
    let none = Tree::Arr(Seq::empty());
    lemma_programmed(s, v);
    lemma_programmed(s, one);
    lemma_programmed(s, two);
    lemma_programmed(s, none);
    lemma_programmed(s, Tree::Arr(a));
    lemma_programmed(s, Tree::Arr(b));
    lemma_programmed(told(s, "PUT"@, PROGRAM_PATH@, Tree::Arr(a)), Tree::Arr(b));
    assert(responses::specs_in(one) =~= responses::specs_in(v));
    assert(responses::specs_in(two) =~= responses::specs_in(Tree::Arr(a)) + responses::specs_in(
        Tree::Arr(b),
    ));
    assert(responses::specs_in(none) =~= Seq::empty());
}

/// The size of the text of a request's messages, in bytes.
pub open spec fn messages_size(body: Tree) -> int {
    match body.get("messages"@) {
        Some(m) => vstd::utf8::encode_utf8(codec::written(m)).len() as int,
        None => 0,
    }
}

/// The bytes to a token: at least one.
pub open spec fn token_size(chars_per_token: u64) -> int {
    if chars_per_token == 0 {
        1
    } else {
        chars_per_token as int
    }
}

/// With a context window, a chat request whose messages take more tokens than the window holds is
/// turned away, and nothing is taken; any other is answered as programmed, with a usage whose
/// prompt is the number of tokens that its messages take, unless the total has no room in 64 bits.
pub proof fn law_the_window_is_kept(
    s: StateModel,
    v: Tree,
    req: RequestModel,
    at_ms: u64,
    rms: Tree,
    window: u64,
)
    requires
        !(v is Arr),
        !s.behavior.validate_chat,
        !s.behavior.consume_only_with_tools,
        s.behavior.context_window == Some(window),
        goes_to(req, "POST"@, CHAT_PATH@),
    ensures
        ({
            let programmed = told(s, "PUT"@, PROGRAM_PATH@, v);
            let (after, action) = router::outcome(programmed, req, at_ms, rms);
            let n = messages_size(req.body);
            let c = token_size(s.behavior.chars_per_token);
            &&& n > window * c ==> {
                &&& after.responses == programmed.responses
                &&& after.stalled_once == s.stalled_once
                &&& exists|t: Tree|
                    {
                        let e = t.get("error"@)->0;
                        &&& #[trigger] says(action, 400, t)
                        &&& t.get("error"@) is Some
                        &&& e.str_at("code"@) == Some("context_length_exceeded"@)
                        &&& e.str_at("type"@) == Some("invalid_request_error"@)
                        &&& e.str_at("message"@) == Some(
                            "the request exceeds the available context size"@,
                        )
                    }
            }
            &&& n <= window * c ==> {
                &&& after.responses.len() == 0
                &&& exists|p: u64|
                    {
                        &&& p * c >= n
                        &&& n > 0 ==> (p - 1) * c < n
                        &&& n == 0 ==> p == 0
                        &&& #[trigger] answers_with_prompt(action, v, streaming(req.body), p)
                    }
            }
        }),
{
    lemma_programmed(s, v);
    let programmed = told(s, "PUT"@, PROGRAM_PATH@, v);
    let b = s.behavior;
    let n = messages_size(req.body);
    let c = token_size(b.chars_per_token);
    let p = behavior::prompt_tokens(req.body, b.chars_per_token) as int;
    behavior::law_prompts_cover_the_messages(req.body, b.chars_per_token);
    assert(n > window * c <==> p > window) by (nonlinear_arith)
        requires
            p * c >= n,
            n > 0 ==> (p - 1) * c < n,
            n == 0 ==> p == 0,
            n >= 0,
            c >= 1,
            window >= 0,
    ;
    if n > window * c {
        lemma_chat_path(req);
        let t = chat::rejection(chat::OVERFLOW_MESSAGE@, Tree::Str("context_length_exceeded"@));
        assert(chat::refusal(b, req) is Some);
        router::law_refused_requests_leave_the_queue(programmed, req, at_ms, rms);
        router::lemma_refused(programmed, req, at_ms, rms);
        reveal_strlit("message");
        reveal_strlit("type");
        reveal_strlit("code");
        assert("message"@.len() == 7 && "type"@.len() == 4 && "code"@.len() == 4);
        assert("type"@[0] == 't' && "code"@[0] == 'c');
        assert(says(router::outcome(programmed, req, at_ms, rms).1, 400, t));
    } else {
        lemma_chat(programmed, req, at_ms, rms);
        let q = p as u64;
        assert(chat::prompt_count(b, req.body) == Some(q));
        lemma_serves_with_prompt(v, streaming(req.body), q);
        let action = router::outcome(programmed, req, at_ms, rms).1;
        assert(answers_with_prompt(action, v, streaming(req.body), q));
    }
}

/// The action is to answer as programmed, with a prompt of so many tokens; it fails only where
/// that prompt and the completion have no sum in 64 bits.
pub open spec fn answers_with_prompt(a: ActionModel, v: Tree, stream: bool, p: u64) -> bool {
    match a {
        ActionModel::Respond { delay_ms, response } => {
            &&& delay_ms == responses::programmed_number(v, "delay_ms"@, 0)
            &&& responses::performs(response, v, stream, Some(p))
        },
        ActionModel::Wait { .. } => false,
        ActionModel::Fail => {
            &&& v.get("error"@) is None
            &&& v.str_at("raw_body"@) is None
            &&& p + (match v.get("usage"@) {
                Some(g) => responses::programmed_number(g, "completion_tokens"@, 16),
                None => 16,
            }) > u64::MAX
        },
    }
}

/// With validation, a chat request that lacks what it should bear is told so and takes nothing;
/// without it, or where it lacks nothing, validation changes nothing.
pub proof fn law_validation_guards_the_queue(
    s: StateModel,
    req: RequestModel,
    at_ms: u64,
    rms: Tree,
)
    requires
        goes_to(req, "POST"@, CHAT_PATH@),
    ensures
        ({
            let refusal = behavior::chat_refusal(req.headers, req.body);
            let (after, action) = router::outcome(s, req, at_ms, rms);
            let off = StateModel {
                behavior: behavior::BehaviorModel { validate_chat: false, ..s.behavior },
                ..s
            };
            &&& s.behavior.validate_chat && refusal is Some ==> {
                &&& after.responses == s.responses
                &&& after.stalled_once == s.stalled_once
                &&& exists|t: Tree|
                    {
                        let e = t.get("error"@)->0;
                        &&& #[trigger] says(action, (refusal->0).0, t)
                        &&& t.get("error"@) is Some
                        &&& e.str_at("message"@) == Some((refusal->0).1)
                        &&& e.str_at("type"@) == Some("invalid_request_error"@)
                        &&& e.get("code"@) == Some(Tree::Null)
                    }
            }
            &&& refusal is None ==> {
                &&& action == router::outcome(off, req, at_ms, rms).1
                &&& after.responses == router::outcome(off, req, at_ms, rms).0.responses
                &&& after.stalled_once == router::outcome(off, req, at_ms, rms).0.stalled_once
            }
        }),
{
    lemma_chat_path(req);
    let off = StateModel {
        behavior: behavior::BehaviorModel { validate_chat: false, ..s.behavior },
        ..s
    };
    let refusal = behavior::chat_refusal(req.headers, req.body);
    if s.behavior.validate_chat && refusal is Some {
        let t = chat::rejection((refusal->0).1, Tree::Null);
        router::law_refused_requests_leave_the_queue(s, req, at_ms, rms);
        router::lemma_refused(s, req, at_ms, rms);
        reveal_strlit("message");
        reveal_strlit("type");
        reveal_strlit("code");
        assert("message"@.len() == 7 && "type"@.len() == 4 && "code"@.len() == 4);
        assert("type"@[0] == 't' && "code"@[0] == 'c');
        assert(says(router::outcome(s, req, at_ms, rms).1, (refusal->0).0, t));
    }
    if refusal is None {
        assert(chat::refusal(s.behavior, req) == chat::refusal(off.behavior, req));
        if chat::refusal(s.behavior, req) is Some {
            router::lemma_refused(s, req, at_ms, rms);
            router::lemma_refused(off, req, at_ms, rms);
            router::law_refused_requests_leave_the_queue(s, req, at_ms, rms);
            router::law_refused_requests_leave_the_queue(off, req, at_ms, rms);
        } else {
            lemma_chat(s, req, at_ms, rms);
            lemma_chat(off, req, at_ms, rms);
            router::lemma_chat_latch(s, req, at_ms, rms);
            router::lemma_chat_latch(off, req, at_ms, rms);
        }
    }
}

/// A chat request that holds the sentinel in a message, wherever that message stands, is not
/// stalled, and where only tool turns take from the queue it takes nothing: it is answered as if
/// nothing were in line. So is one without tools.
pub proof fn law_heartbeats_take_nothing(
    s: StateModel,
    req: RequestModel,
    at_ms: u64,
    rms: Tree,
    i: int,
)
    requires
        goes_to(req, "POST"@, CHAT_PATH@),
        !s.behavior.validate_chat,
        s.behavior.context_window is None,
        (req.body.list_at("messages"@) matches Some(ms) && 0 <= i < ms.len()
            && behavior::holds_sentinel(ms[i], s.behavior.heartbeat_sentinel)) || !(
        req.body.list_at("tools"@) matches Some(tools) && tools.len() > 0),
    ensures
        ({
            let (after, action) = router::outcome(s, req, at_ms, rms);
            let empty = StateModel { responses: Seq::empty(), ..s };
            &&& !(router::routed(s, req, StageModel::Connected).1 is Wait)
            &&& after.stalled_once == s.stalled_once
            &&& s.behavior.consume_only_with_tools ==> {
                &&& after.responses == s.responses
                &&& action == router::outcome(empty, req, at_ms, rms).1
            }
        }),
{
    let empty = StateModel { responses: Seq::empty(), ..s };
    lemma_chat_path(req);
    if req.body.list_at("tools"@) matches Some(tools) && tools.len() > 0 {
        behavior::law_a_message_with_the_sentinel_exempts(
            s.behavior,
            s.stalled_once,
            req.path,
            req.body,
            i,
        );
    } else {
        behavior::law_requests_without_tools_are_no_tool_turns(
            s.behavior,
            s.stalled_once,
            req.path,
            req.body,
        );
    }
    lemma_chat(s, req, at_ms, rms);
    lemma_chat(empty, req, at_ms, rms);
    router::lemma_chat_latch(s, req, at_ms, rms);
    router::lemma_chat_first(s, req);
}

/// A chat request that carries a tool and holds the sentinel in no message takes the next
/// response, whether or not only tool turns do; and where the stall is on, the first such request
/// waits out the stall ahead of it, and no later one.
pub proof fn law_tool_turns_take_the_next_response(
    s: StateModel,
    req: RequestModel,
    at_ms: u64,
    rms: Tree,
)
    requires
        goes_to(req, "POST"@, CHAT_PATH@),
        !s.behavior.validate_chat,
        s.behavior.context_window is None,
        req.body.list_at("tools"@) matches Some(tools) && tools.len() > 0,
        req.body.list_at("messages"@) matches Some(ms) ==> forall|i: int|
            0 <= i < ms.len() ==> !behavior::holds_sentinel(
                #[trigger] ms[i],
                s.behavior.heartbeat_sentinel,
            ),
        s.responses.len() > 0,
    ensures
        ({
            let (after, action) = router::outcome(s, req, at_ms, rms);
            let free = StateModel {
                behavior: behavior::BehaviorModel {
                    consume_only_with_tools: false,
                    stall_first_with_tools: false,
                    ..s.behavior
                },
                ..s
            };
            let (waiting, first) = router::routed(s, req, StageModel::Connected);
            &&& after.responses == s.responses.skip(1)
            &&& action == router::outcome(free, req, at_ms, rms).1
            &&& after.stalled_once == (s.stalled_once || s.behavior.stall_first_with_tools)
            &&& s.behavior.stall_first_with_tools && !s.stalled_once ==> {
                &&& first matches ActionModel::Wait { seconds, millis, line, .. }
                &&& seconds == s.behavior.stall_seconds
                &&& millis == 0
                &&& line is None
                &&& waiting.responses == s.responses
            }
            &&& !(s.behavior.stall_first_with_tools && !s.stalled_once) ==> !(first is Wait)
        }),
{
    let free = StateModel {
        behavior: behavior::BehaviorModel {
            consume_only_with_tools: false,
            stall_first_with_tools: false,
            ..s.behavior
        },
        ..s
    };
    lemma_chat_path(req);
    behavior::law_tool_turns_count(s.behavior, s.stalled_once, req.path, req.body);
    lemma_chat(s, req, at_ms, rms);
    lemma_chat(free, req, at_ms, rms);
    router::lemma_chat_latch(s, req, at_ms, rms);
    router::lemma_chat_first(s, req);
}

/// The path on which the behavior is reported and changed.
pub const BEHAVIOR_PATH: &'static str = "/__admin/behavior";

/// The control plane goes by the method, the path ahead of any query, and the body alone: neither
/// the headers nor the time nor anything else about a request matters to it.
pub proof fn law_the_control_plane_goes_by_method_path_and_body(
    s: StateModel,
    a: RequestModel,
    b: RequestModel,
    sub: Seq<char>,
    at_ms: u64,
    rms: Tree,
)
    requires
        !sub.contains('?'),
        goes_to(a, b.method, "/__admin"@ + sub),
        goes_to(b, b.method, "/__admin"@ + sub),
        a.body == b.body,
    ensures
        router::outcome(s, a, at_ms, rms) == router::outcome(s, b, 0, Tree::Null),
{
    lemma_admin(s, a, sub, at_ms, rms);
    lemma_admin(s, b, sub, 0, Tree::Null);
}

/// A value that reports a behavior, setting by setting.
pub open spec fn reports_behavior(t: Tree, b: behavior::BehaviorModel) -> bool {
    &&& t.get("stall_first_with_tools"@) == Some(Tree::Bool(b.stall_first_with_tools))
    &&& t.get("consume_only_with_tools"@) == Some(Tree::Bool(b.consume_only_with_tools))
    &&& t.get("validate_chat"@) == Some(Tree::Bool(b.validate_chat))
    &&& t.get("reject_silent_audio"@) == Some(Tree::Bool(b.reject_silent_audio))
    &&& t.get("require_voice_consent"@) == Some(Tree::Bool(b.require_voice_consent))
    &&& t.get("llamaswap"@) == Some(Tree::Bool(b.llamaswap))
    &&& t.get("empty_transcript"@) == Some(Tree::Bool(b.empty_transcript))
    &&& t.get("stall_seconds"@) == Some(json::num(b.stall_seconds))
    &&& t.get("connect_delay_ms"@) == Some(json::num(b.connect_delay_ms))
    &&& t.get("chars_per_token"@) == Some(json::num(b.chars_per_token))
    &&& t.get("speech_frame_delay_ms"@) == Some(json::num(b.speech_frame_delay_ms))
    &&& t.get("heartbeat_sentinel"@) == Some(Tree::Str(b.heartbeat_sentinel))
    &&& t.get("context_window"@) == Some(
        match b.context_window {
            Some(n) => json::num(n),
            None => Tree::Null,
        },
    )
    &&& t.get("transcript"@) == Some(
        match b.transcript {
            Some(x) => Tree::Str(x),
            None => Tree::Null,
        },
    )
}

/// The methods of the control plane are distinct.
pub proof fn lemma_methods()
    ensures
        "GET"@ != "PUT"@,
        "GET"@ != "POST"@,
        "GET"@ != "DELETE"@,
        "PUT"@ != "POST"@,
        "PUT"@ != "DELETE"@,
        "POST"@ != "DELETE"@,
{
    reveal_strlit("PUT");
    reveal_strlit("POST");
    reveal_strlit("GET");
    reveal_strlit("DELETE");
    assert("PUT"@.len() == 3 && "GET"@.len() == 3 && "POST"@.len() == 4 && "DELETE"@.len() == 6);
    assert("PUT"@[0] == 'P' && "GET"@[0] == 'G');
}

/// The paths of the control plane are distinct.
pub proof fn lemma_subs()
    ensures
        "/health"@.len() == 7,
        "/captures"@.len() == 9,
        "/reset"@.len() == 6,
        "/responses"@.len() == 10,
        "/default"@.len() == 8,
        "/behavior"@.len() == 9,
        "/models"@.len() == 7,
        "/health"@ != "/models"@,
        "/captures"@ != "/behavior"@,
        !"/health"@.contains('?'),
        !"/captures"@.contains('?'),
        !"/reset"@.contains('?'),
        !"/responses"@.contains('?'),
        !"/default"@.contains('?'),
        !"/behavior"@.contains('?'),
        !"/models"@.contains('?'),
{
    reveal_strlit("/health");
    reveal_strlit("/captures");
    reveal_strlit("/reset");
    reveal_strlit("/responses");
    reveal_strlit("/default");
    reveal_strlit("/behavior");
    reveal_strlit("/models");
    assert("/health"@[1] == 'h' && "/models"@[1] == 'm');
    assert("/captures"@[1] == 'c' && "/behavior"@[1] == 'b');
}

/// What a command leaves and says.
pub proof fn lemma_command(
    s: StateModel,
    req: RequestModel,
    sub: Seq<char>,
    c: admin::Command,
    at_ms: u64,
    rms: Tree,
)
    requires
        goes_to(req, req.method, admin::ADMIN_PREFIX@ + sub),
        !sub.contains('?'),
        admin::command_of(req.method, sub) == Some(c),
    ensures
        router::outcome(s, req, at_ms, rms).0 == admin::command_step(s, c, req.body).0,
        says(
            router::outcome(s, req, at_ms, rms).1,
            200,
            admin::command_step(s, c, req.body).1,
        ),
{
    lemma_admin(s, req, sub, at_ms, rms);
}

/// A change of the behavior changes the settings that it names, to what it says, and leaves every
/// other setting, and everything else, as it was; a setting that is given in another kind of value
/// than its own stays too, but for a window and a transcript, which are then cleared. The answer
/// reports the behavior that holds from then on.
pub proof fn law_merging_changes_what_is_named_and_nothing_else(
    s: StateModel,
    req: RequestModel,
    at_ms: u64,
    rms: Tree,
)
    requires
        goes_to(req, "POST"@, BEHAVIOR_PATH@),
    ensures
        ({
            let (after, action) = router::outcome(s, req, at_ms, rms);
            let body = req.body;
            let b = s.behavior;
            let d = after.behavior;
            &&& after == (StateModel { behavior: d, ..s })
            &&& exists|t: Tree| #[trigger] says(action, 200, t) && reports_behavior(t, d)
            &&& body.get("stall_first_with_tools"@) is None ==> d.stall_first_with_tools == b.stall_first_with_tools
            &&& body.get("stall_seconds"@) is None ==> d.stall_seconds == b.stall_seconds
            &&& body.get("heartbeat_sentinel"@) is None ==> d.heartbeat_sentinel == b.heartbeat_sentinel
            &&& body.get("consume_only_with_tools"@) is None ==> d.consume_only_with_tools == b.consume_only_with_tools
            &&& body.get("connect_delay_ms"@) is None ==> d.connect_delay_ms == b.connect_delay_ms
            &&& body.get("validate_chat"@) is None ==> d.validate_chat == b.validate_chat
            &&& body.get("reject_silent_audio"@) is None ==> d.reject_silent_audio == b.reject_silent_audio
            &&& body.get("require_voice_consent"@) is None ==> d.require_voice_consent == b.require_voice_consent
            &&& body.get("context_window"@) is None ==> d.context_window == b.context_window
            &&& body.get("chars_per_token"@) is None ==> d.chars_per_token == b.chars_per_token
            &&& body.get("llamaswap"@) is None ==> d.llamaswap == b.llamaswap
            &&& body.get("empty_transcript"@) is None ==> d.empty_transcript == b.empty_transcript
            &&& body.get("speech_frame_delay_ms"@) is None ==> d.speech_frame_delay_ms == b.speech_frame_delay_ms
            &&& body.get("transcript"@) is None ==> d.transcript == b.transcript
            &&& body.bool_at("stall_first_with_tools"@) is None ==> d.stall_first_with_tools == b.stall_first_with_tools
            &&& body.bool_at("consume_only_with_tools"@) is None ==> d.consume_only_with_tools == b.consume_only_with_tools
            &&& body.bool_at("validate_chat"@) is None ==> d.validate_chat == b.validate_chat
            &&& body.bool_at("reject_silent_audio"@) is None ==> d.reject_silent_audio == b.reject_silent_audio
            &&& body.bool_at("require_voice_consent"@) is None ==> d.require_voice_consent == b.require_voice_consent
            &&& body.bool_at("llamaswap"@) is None ==> d.llamaswap == b.llamaswap
            &&& body.bool_at("empty_transcript"@) is None ==> d.empty_transcript == b.empty_transcript
            &&& body.u64_at("stall_seconds"@) is None ==> d.stall_seconds == b.stall_seconds
            &&& body.u64_at("connect_delay_ms"@) is None ==> d.connect_delay_ms == b.connect_delay_ms
            &&& body.u64_at("chars_per_token"@) is None ==> d.chars_per_token == b.chars_per_token
            &&& body.u64_at("speech_frame_delay_ms"@) is None ==> d.speech_frame_delay_ms == b.speech_frame_delay_ms
            &&& body.str_at("heartbeat_sentinel"@) is None ==> d.heartbeat_sentinel
                == b.heartbeat_sentinel
            &&& body.bool_at("stall_first_with_tools"@) matches Some(x) ==> d.stall_first_with_tools == x
            &&& body.bool_at("consume_only_with_tools"@) matches Some(x) ==> d.consume_only_with_tools == x
            &&& body.bool_at("validate_chat"@) matches Some(x) ==> d.validate_chat == x
            &&& body.bool_at("reject_silent_audio"@) matches Some(x) ==> d.reject_silent_audio == x
            &&& body.bool_at("require_voice_consent"@) matches Some(x) ==> d.require_voice_consent == x
            &&& body.bool_at("llamaswap"@) matches Some(x) ==> d.llamaswap == x
            &&& body.bool_at("empty_transcript"@) matches Some(x) ==> d.empty_transcript == x
            &&& body.u64_at("stall_seconds"@) matches Some(n) ==> d.stall_seconds == n
            &&& body.u64_at("connect_delay_ms"@) matches Some(n) ==> d.connect_delay_ms == n
            &&& body.u64_at("chars_per_token"@) matches Some(n) ==> d.chars_per_token == n
            &&& body.u64_at("speech_frame_delay_ms"@) matches Some(n) ==> d.speech_frame_delay_ms == n
            &&& body.str_at("heartbeat_sentinel"@) matches Some(t) ==> d.heartbeat_sentinel == t
            &&& body.get("context_window"@) is Some ==> d.context_window == body.u64_at(
                "context_window"@,
            )
            &&& body.get("transcript"@) is Some ==> d.transcript == body.str_at("transcript"@)
        }),
{
    lemma_methods();
    lemma_subs();
    reveal_strlit("/__admin");
    reveal_strlit("/behavior");
    reveal_strlit("/__admin/behavior");
    assert(BEHAVIOR_PATH@ =~= admin::ADMIN_PREFIX@ + "/behavior"@);
    lemma_command(s, req, "/behavior"@, admin::Command::Merge, at_ms, rms);
    let d = state::merged(s.behavior, req.body);
    lemma_reports(d);
    assert(says(router::outcome(s, req, at_ms, rms).1, 200, state::behavior_tree(d)));
}

/// The value that describes a behavior reports it.
proof fn lemma_reports(b: behavior::BehaviorModel)
    ensures
        reports_behavior(state::behavior_tree(b), b),
{
    state::lemma_behavior_keys();
}

/// Asking for the behavior reports it, and changes nothing.
pub proof fn law_the_behavior_is_reported(
    s: StateModel,
    req: RequestModel,
    at_ms: u64,
    rms: Tree,
)
    requires
        goes_to(req, "GET"@, BEHAVIOR_PATH@),
    ensures
        router::outcome(s, req, at_ms, rms).0 == s,
        exists|t: Tree| #[trigger]
            says(router::outcome(s, req, at_ms, rms).1, 200, t) && reports_behavior(t, s.behavior),
{
    lemma_methods();
    lemma_subs();
    reveal_strlit("/__admin");
    reveal_strlit("/behavior");
    reveal_strlit("/__admin/behavior");
    assert(BEHAVIOR_PATH@ =~= admin::ADMIN_PREFIX@ + "/behavior"@);
    lemma_command(s, req, "/behavior"@, admin::Command::Behavior, at_ms, rms);
    lemma_reports(s.behavior);
    assert(says(
        router::outcome(s, req, at_ms, rms).1,
        200,
        state::behavior_tree(s.behavior),
    ));
}

/// What a merge leaves behind.
proof fn lemma_merged(s: StateModel, body: Tree)
    ensures
        told(s, "POST"@, BEHAVIOR_PATH@, body) == (StateModel {
            behavior: state::merged(s.behavior, body),
            ..s
        }),
{
    lemma_methods();
    lemma_subs();
    reveal_strlit("/__admin");
    reveal_strlit("/behavior");
    reveal_strlit("/__admin/behavior");
    assert(BEHAVIOR_PATH@ =~= admin::ADMIN_PREFIX@ + "/behavior"@);
    let req = RequestModel {
        method: "POST"@,
        path: BEHAVIOR_PATH@,
        headers: Tree::Null,
        body,
        raw: Seq::empty(),
    };
    lemma_command(s, req, "/behavior"@, admin::Command::Merge, 0, Tree::Null);
}

/// Saying nothing changes nothing; and two changes that name different settings come to the same
/// in either order, and to the same as both in one.
pub proof fn law_changes_of_behavior_add_up(
    s: StateModel,
    a: Map<Seq<char>, Tree>,
    b: Map<Seq<char>, Tree>,
)
    requires
        a.dom().disjoint(b.dom()),
    ensures
        told(s, "POST"@, BEHAVIOR_PATH@, Tree::Obj(Map::empty())) == s,
        ({
            let first = told(s, "POST"@, BEHAVIOR_PATH@, Tree::Obj(a));
            let other = told(s, "POST"@, BEHAVIOR_PATH@, Tree::Obj(b));
            let both = told(first, "POST"@, BEHAVIOR_PATH@, Tree::Obj(b));
            &&& both == told(other, "POST"@, BEHAVIOR_PATH@, Tree::Obj(a))
            &&& both == told(s, "POST"@, BEHAVIOR_PATH@, Tree::Obj(a.union_prefer_right(b)))
        }),
{
    let first = told(s, "POST"@, BEHAVIOR_PATH@, Tree::Obj(a));
    let other = told(s, "POST"@, BEHAVIOR_PATH@, Tree::Obj(b));
    lemma_merged(s, Tree::Obj(Map::empty()));
    lemma_merged(s, Tree::Obj(a));
    lemma_merged(s, Tree::Obj(b));
    lemma_merged(first, Tree::Obj(b));
    lemma_merged(other, Tree::Obj(a));
    lemma_merged(s, Tree::Obj(a.union_prefer_right(b)));
    assert forall|k: Seq<char>| !(a.dom().contains(k) && #[trigger] b.dom().contains(k)) by {}
    lemma_merged_apart(s.behavior, a, b);
}

/// Merging two maps of different names in turn is merging both.
proof fn lemma_merged_apart(
    o: behavior::BehaviorModel,
    a: Map<Seq<char>, Tree>,
    b: Map<Seq<char>, Tree>,
)
    requires
        forall|k: Seq<char>| !(a.dom().contains(k) && #[trigger] b.dom().contains(k)),
    ensures
        state::merged(state::merged(o, Tree::Obj(a)), Tree::Obj(b)) == state::merged(
            state::merged(o, Tree::Obj(b)),
            Tree::Obj(a),
        ),
        state::merged(state::merged(o, Tree::Obj(a)), Tree::Obj(b)) == state::merged(
            o,
            Tree::Obj(a.union_prefer_right(b)),
        ),
{
    let u = a.union_prefer_right(b);
    assert forall|k: Seq<char>| #[trigger]
        Tree::Obj(u).get(k) == if b.dom().contains(k) {
            Tree::Obj(b).get(k)
        } else {
            Tree::Obj(a).get(k)
        } by {}
}

/// Inspection shows every capture in the order of arrival, and how many captures and programmed
/// responses there are, and changes nothing.
pub proof fn law_captures_can_be_inspected(
    s: StateModel,
    req: RequestModel,
    at_ms: u64,
    rms: Tree,
)
    ensures
        goes_to(req, "GET"@, "/__admin/captures"@) ==> {
            let (after, action) = router::outcome(s, req, at_ms, rms);
            &&& after == s
            &&& exists|t: Tree| #[trigger]
                says(action, 200, t) && t.list_at("captures"@) == Some(s.captures)
        },
        goes_to(req, "GET"@, "/__admin/health"@) ==> {
            let (after, action) = router::outcome(s, req, at_ms, rms);
            &&& after == s
            &&& exists|t: Tree|
                {
                    &&& #[trigger] says(action, 200, t)
                    &&& t.get("ok"@) == Some(Tree::Bool(true))
                    &&& t.get("captures"@) == Some(json::num(s.captures.len() as u64))
                    &&& t.get("pending_responses"@) == Some(json::num(s.responses.len() as u64))
                }
        },
{
    let action = router::outcome(s, req, at_ms, rms).1;
    if goes_to(req, "GET"@, "/__admin/captures"@) {
    lemma_methods();
        lemma_subs();
        reveal_strlit("/__admin");
        reveal_strlit("/captures");
        reveal_strlit("/__admin/captures");
        assert("/__admin/captures"@ =~= admin::ADMIN_PREFIX@ + "/captures"@);
        lemma_command(s, req, "/captures"@, admin::Command::Captures, at_ms, rms);
        assert(says(action, 200, admin::command_step(s, admin::Command::Captures, req.body).1));
    }
    if goes_to(req, "GET"@, "/__admin/health"@) {
    lemma_methods();
        lemma_subs();
        reveal_strlit("/__admin");
        reveal_strlit("/health");
        reveal_strlit("/__admin/health");
        assert("/__admin/health"@ =~= admin::ADMIN_PREFIX@ + "/health"@);
        lemma_command(s, req, "/health"@, admin::Command::Health, at_ms, rms);
        reveal_strlit("ok");
        reveal_strlit("captures");
        reveal_strlit("pending_responses");
        assert("ok"@.len() == 2 && "captures"@.len() == 8 && "pending_responses"@.len() == 17);
        assert(says(action, 200, admin::command_step(s, admin::Command::Health, req.body).1));
    }
}

/// A reset forgets the captures and the enrolled voices and arms the stall; what was programmed
/// and configured stays.
pub proof fn law_a_reset_forgets(s: StateModel, req: RequestModel, at_ms: u64, rms: Tree)
    requires
        goes_to(req, "POST"@, "/__admin/reset"@),
    ensures
        ({
            let (after, action) = router::outcome(s, req, at_ms, rms);
            &&& after.captures.len() == 0
            &&& after.voices.len() == 0
            &&& !after.stalled_once
            &&& after == (StateModel {
                captures: after.captures,
                voices: after.voices,
                stalled_once: false,
                ..s
            })
            &&& exists|t: Tree| #[trigger]
                says(action, 200, t) && t.get("ok"@) == Some(Tree::Bool(true))
        }),
{
    lemma_methods();
    lemma_subs();
    reveal_strlit("/__admin");
    reveal_strlit("/reset");
    reveal_strlit("/__admin/reset");
    assert("/__admin/reset"@ =~= admin::ADMIN_PREFIX@ + "/reset"@);
    lemma_command(s, req, "/reset"@, admin::Command::Reset, at_ms, rms);
    assert(says(
        router::outcome(s, req, at_ms, rms).1,
        200,
        admin::command_step(s, admin::Command::Reset, req.body).1,
    ));
}

/// Programming says how many responses are then in line; the fallback can be set, and cleared, and
/// nothing else changes.
pub proof fn law_programming_is_confirmed(
    s: StateModel,
    req: RequestModel,
    at_ms: u64,
    rms: Tree,
)
    ensures
        ({
            let (after, action) = router::outcome(s, req, at_ms, rms);
            let program = goes_to(req, "POST"@, "/__admin/responses"@) || goes_to(
                req,
                "PUT"@,
                "/__admin/responses"@,
            );
            let clear = goes_to(req, "DELETE"@, "/__admin/responses"@);
            let fallback = goes_to(req, "PUT"@, "/__admin/default"@) || goes_to(
                req,
                "DELETE"@,
                "/__admin/default"@,
            );
            &&& program ==> {
                &&& exists|t: Tree|
                    {
                        &&& #[trigger] says(action, 200, t)
                        &&& t.get("ok"@) == Some(Tree::Bool(true))
                        &&& t.get("pending"@) == Some(json::num(after.responses.len() as u64))
                    }
                &&& after == (StateModel { responses: after.responses, ..s })
            }
            &&& clear ==> {
                &&& exists|t: Tree| #[trigger]
                    says(action, 200, t) && t.get("ok"@) == Some(Tree::Bool(true))
                &&& after == (StateModel { responses: Seq::empty(), ..s })
            }
            &&& fallback ==> {
                &&& exists|t: Tree| #[trigger]
                    says(action, 200, t) && t.get("ok"@) == Some(Tree::Bool(true))
                &&& after == (StateModel { default_response: after.default_response, ..s })
                &&& after.default_response is Some <==> req.method == "PUT"@
            }
        }),
{
    let action = router::outcome(s, req, at_ms, rms).1;
    lemma_methods();
    lemma_subs();
    reveal_strlit("/__admin");
    reveal_strlit("/responses");
    reveal_strlit("/__admin/responses");
    assert("/__admin/responses"@ =~= admin::ADMIN_PREFIX@ + "/responses"@);
    reveal_strlit("/default");
    reveal_strlit("/__admin/default");
    assert("/__admin/default"@ =~= admin::ADMIN_PREFIX@ + "/default"@);
    reveal_strlit("ok");
    reveal_strlit("pending");
    assert("ok"@.len() == 2 && "pending"@.len() == 7);
    if goes_to(req, "POST"@, "/__admin/responses"@) {
        lemma_command(s, req, "/responses"@, admin::Command::Append, at_ms, rms);
        assert(says(action, 200, admin::command_step(s, admin::Command::Append, req.body).1));
    }
    if goes_to(req, "PUT"@, "/__admin/responses"@) {
        lemma_command(s, req, "/responses"@, admin::Command::Replace, at_ms, rms);
        assert(says(action, 200, admin::command_step(s, admin::Command::Replace, req.body).1));
    }
    if goes_to(req, "DELETE"@, "/__admin/responses"@) {
        lemma_command(s, req, "/responses"@, admin::Command::Clear, at_ms, rms);
        assert(says(action, 200, admin::command_step(s, admin::Command::Clear, req.body).1));
    }
    if goes_to(req, "PUT"@, "/__admin/default"@) {
        lemma_command(s, req, "/default"@, admin::Command::SetDefault, at_ms, rms);
        assert(says(action, 200, admin::command_step(s, admin::Command::SetDefault, req.body).1));
    }
    if goes_to(req, "DELETE"@, "/__admin/default"@) {
        lemma_command(s, req, "/default"@, admin::Command::ClearDefault, at_ms, rms);
        assert(says(action, 200, admin::command_step(s, admin::Command::ClearDefault, req.body).1));
    }
}

/// The pending responses are shown as they were programmed, in order.
pub proof fn law_pending_responses_can_be_inspected(
    s: StateModel,
    a: Seq<Tree>,
    req: RequestModel,
    at_ms: u64,
    rms: Tree,
)
    ensures
        goes_to(req, "GET"@, "/__admin/responses"@) ==> {
            let programmed = told(s, "PUT"@, PROGRAM_PATH@, Tree::Arr(a));
            let (after, action) = router::outcome(programmed, req, at_ms, rms);
            &&& after == programmed
            &&& exists|t: Tree|
                {
                    let list = t.list_at("responses"@)->0;
                    &&& #[trigger] says(action, 200, t)
                    &&& t.list_at("responses"@) is Some
                    &&& list.len() == a.len()
                    &&& forall|i: int|
                        0 <= i < a.len() ==> responses::shows_programmed(#[trigger] list[i], a[i])
                }
        },
{
    if goes_to(req, "GET"@, "/__admin/responses"@) {
        lemma_programmed(s, Tree::Arr(a));
        let programmed = told(s, "PUT"@, PROGRAM_PATH@, Tree::Arr(a));
    lemma_methods();
        lemma_subs();
        reveal_strlit("/__admin");
        reveal_strlit("/responses");
        reveal_strlit("/__admin/responses");
        assert("/__admin/responses"@ =~= admin::ADMIN_PREFIX@ + "/responses"@);
        lemma_command(programmed, req, "/responses"@, admin::Command::Responses, at_ms, rms);
        let t = admin::command_step(programmed, admin::Command::Responses, req.body).1;
        let list = t.list_at("responses"@)->0;
        assert forall|i: int| 0 <= i < a.len() implies responses::shows_programmed(
            #[trigger] list[i],
            a[i],
        ) by {
            responses::law_programmed_values_are_shown(a[i]);
            assert(list[i] == responses::spec_tree(responses::spec_of(a[i])));
        }
        assert(says(router::outcome(programmed, req, at_ms, rms).1, 200, t));
    }
}

/// The fallback is shown as it was set; where none is set, that there is none.
pub proof fn law_the_fallback_can_be_inspected(
    s: StateModel,
    v: Tree,
    req: RequestModel,
    at_ms: u64,
    rms: Tree,
)
    ensures
        goes_to(req, "GET"@, "/__admin/default"@) ==> {
            let set = told(s, "PUT"@, FALLBACK_PATH@, v);
            let cleared = told(s, "DELETE"@, FALLBACK_PATH@, v);
            &&& router::outcome(set, req, at_ms, rms).0 == set
            &&& exists|t: Tree|
                {
                    &&& #[trigger] says(router::outcome(set, req, at_ms, rms).1, 200, t)
                    &&& t.get("default"@) matches Some(d)
                    &&& responses::shows_programmed(d, v)
                }
            &&& exists|t: Tree|
                {
                    &&& #[trigger] says(router::outcome(cleared, req, at_ms, rms).1, 200, t)
                    &&& t.get("default"@) == Some(Tree::Null)
                }
        },
{
    if goes_to(req, "GET"@, "/__admin/default"@) {
        lemma_fallback(s, v);
        let set = told(s, "PUT"@, FALLBACK_PATH@, v);
        let cleared = told(s, "DELETE"@, FALLBACK_PATH@, v);
    lemma_methods();
        lemma_subs();
        reveal_strlit("/__admin");
        reveal_strlit("/default");
        reveal_strlit("/__admin/default");
        assert("/__admin/default"@ =~= admin::ADMIN_PREFIX@ + "/default"@);
        lemma_command(set, req, "/default"@, admin::Command::Default, at_ms, rms);
        lemma_command(cleared, req, "/default"@, admin::Command::Default, at_ms, rms);
        responses::law_programmed_values_are_shown(v);
        let t = admin::command_step(set, admin::Command::Default, req.body).1;
        let u = admin::command_step(cleared, admin::Command::Default, req.body).1;
        assert(says(router::outcome(set, req, at_ms, rms).1, 200, t));
        assert(says(router::outcome(cleared, req, at_ms, rms).1, 200, u));
    }
}

/// A chat request that finds nothing programmed and no fallback is answered at once with the
/// built-in stream, whatever it asks for.
pub proof fn law_the_built_in_stream_answers(
    s: StateModel,
    req: RequestModel,
    at_ms: u64,
    rms: Tree,
)
    requires
        goes_to(req, "POST"@, CHAT_PATH@),
        !s.behavior.validate_chat,
        s.behavior.context_window is None,
        s.responses.len() == 0,
        s.default_response is None,
    ensures
        ({
            let (after, action) = router::outcome(s, req, at_ms, rms);
            &&& after.responses.len() == 0
            &&& action matches ActionModel::Respond { delay_ms, response }
            &&& delay_ms == 0
            &&& response.status == 200
            &&& response.content_type == "text/event-stream"@
            &&& response.body == response::BodyModel::Buffered(
                vstd::utf8::encode_utf8(response::SSE_RESPONSE@),
            )
        }),
{
    lemma_chat(s, req, at_ms, rms);
}

/// A server that starts with a fallback on its command line answers as one that is told the
/// fallback later.
pub proof fn law_a_fallback_can_come_from_the_command_line(
    c: ConfigModel,
    speech: Option<Seq<u8>>,
    contents: Seq<Seq<u8>>,
    v: Tree,
)
    ensures
        state::started(ConfigModel { default_response: Some(v), ..c }, speech, contents) == told(
            state::started(ConfigModel { default_response: None, ..c }, speech, contents),
            "PUT"@,
            FALLBACK_PATH@,
            v,
        ),
{
    lemma_fallback(
        state::started(ConfigModel { default_response: None, ..c }, speech, contents),
        v,
    );
}

/// Responses that are programmed from a file or a line of input are those that the control plane
/// would put in line for the same values.
pub proof fn law_files_and_lines_program_like_the_control_plane(
    s: StateModel,
    content: Seq<char>,
    line: Seq<char>,
)
    ensures
        codec::read_text(content) matches Ok(t) ==> t is Arr || t is Obj ==> s.responses
            + responses::file_specs(content) == told(s, "POST"@, PROGRAM_PATH@, t).responses,
        text::trim_of(line).len() > 0 ==> (codec::read_text(text::trim_of(line)) matches Ok(v)
            ==> responses::line_spec(line) matches Some(spec) && s.responses.push(spec) == told(
            s,
            "POST"@,
            PROGRAM_PATH@,
            Tree::Arr(seq![v]),
        ).responses),
{
    if let Ok(t) = codec::read_text(content) {
        lemma_programmed(s, t);
        if t is Arr || t is Obj {
            responses::law_files_program_like_values(content, content, content);
        }
    }
    if let Ok(v) = codec::read_text(text::trim_of(line)) {
        let one = Tree::Arr(seq![v]);
        lemma_programmed(s, one);
        assert(responses::specs_in(one) =~= seq![responses::spec_of(v)]);
        assert(s.responses + seq![responses::spec_of(v)] =~= s.responses.push(
            responses::spec_of(v),
        ));
    }
}

/// A gateway's path that leads to no part of the interface is unknown, with the extension or
/// without it.
pub proof fn law_a_gateway_leads_to_the_interface_alone(
    s: StateModel,
    req: RequestModel,
    rest: Seq<char>,
)
    requires
        goes_to(req, req.method, "/upstream/"@ + rest),
        !rest.contains('?'),
        !text::occurs(rest, "/v1/"@),
        !text::occurs("/upstream/"@ + rest, "chat/completions"@),
    ensures
        ({
            let (after, action) = router::routed(s, req, StageModel::Connected);
            &&& after == s
            &&& exists|t: Tree|
                {
                    &&& #[trigger] says(action, 404, t)
                    &&& t.str_at("error"@) == Some(
                        "not found: "@ + req.method + " "@ + ("/upstream/"@ + rest),
                    )
                }
        }),
{
    let up = router::UPSTREAM_PREFIX@;
    let path = up + rest;
    reveal_strlit("/upstream/");
    assert(up.len() == 10 && up[1] == 'u');
    assert(!path.contains('?')) by {
        if path.contains('?') {
            let k = choose|k: int| 0 <= k < path.len() && path[k] == '?';
            if k >= 10 {
                assert(rest[k - 10] == '?');
                assert(rest.contains('?'));
            }
        }
    }
    lemma_path(req, req.method, path);
    assert(path.subrange(0, 10) =~= up);
    assert(path.skip(10) =~= rest);
    router::lemma_unserved(req.method, path);
    reveal_strlit("error");
    reveal_strlit("endpoints");
    assert("error"@.len() == 5 && "endpoints"@.len() == 9);
    let t = Tree::Obj(
        map![
            "error"@ => Tree::Str("not found: "@ + req.method + " "@ + path),
            "endpoints"@ => json::text_list(
                router::routes_of(router::families()) + crate::handlers::line_texts(
                    admin::ROUTES@,
                ),
            ),
        ],
    );
    assert(says(router::routed(s, req, StageModel::Connected).1, 404, t));
}

/// What a chat request takes and is told does not depend on which path it came by.
proof fn lemma_same_chat(s: StateModel, usual: RequestModel, other: RequestModel)
    requires
        other == (RequestModel { path: other.path, ..usual }),
        text::occurs(usual.path, "chat/completions"@),
        text::occurs(other.path, "chat/completions"@),
    ensures
        chat::refusal(s.behavior, usual) == chat::refusal(s.behavior, other),
        chat::taken(s, usual) == chat::taken(s, other),
{
}

/// Chat is served on every path that leads to it, not on the usual one alone: the answer is the
/// same, and so is what it takes from the queue.
#[verifier::rlimit(40)]
pub proof fn law_chat_is_served_wherever_it_is_asked_for(
    s: StateModel,
    usual: RequestModel,
    other: RequestModel,
    at_ms: u64,
    rms: Tree,
)
    requires
        goes_to(usual, "POST"@, CHAT_PATH@),
        other == (RequestModel { path: other.path, ..usual }),
        !"/__admin"@.is_prefix_of(text::before_of(other.path, "?"@)),
        !"/upstream/"@.is_prefix_of(text::before_of(other.path, "?"@)),
        text::occurs(text::before_of(other.path, "?"@), "chat/completions"@),
    ensures
        router::outcome(s, other, at_ms, rms).1 == router::outcome(s, usual, at_ms, rms).1,
        router::outcome(s, other, at_ms, rms).0.responses == router::outcome(
            s,
            usual,
            at_ms,
            rms,
        ).0.responses,
{
    lemma_chat_path(usual);
    let bare = text::before_of(other.path, "?"@);
    let (x, y) = text::law_what_a_text_holds_stands_in_it(bare, "chat/completions"@);
    let tail = other.path.skip(bare.len() as int);
    assert(text::occurs(other.path, "chat/completions"@)) by {
        if text::occurs(other.path, "?"@) {
            let k = choose|k: int| text::occurs_at(other.path, "?"@, k);
            let i = router::lemma_first(other.path, "?"@, k);
            text::lemma_position_is(other.path, "?"@, i);
            assert(text::occurs_at(other.path, "?"@, i));
            assert(bare == other.path.take(i));
            assert(bare.len() == i);
        }
        assert(other.path =~= bare + tail);
        assert(bare + tail =~= x + "chat/completions"@ + (y + tail));
        assert(other.path =~= x + "chat/completions"@ + (y + tail));
        text::law_a_text_holds_what_stands_in_it(x, "chat/completions"@, y + tail);
    }
    lemma_same_chat(s, usual, other);
    if chat::refusal(s.behavior, usual) is Some {
        router::law_refused_requests_leave_the_queue(s, usual, at_ms, rms);
        router::law_refused_requests_leave_the_queue(s, other, at_ms, rms);
    } else {
        router::lemma_accepted_chat(s, usual, at_ms, rms);
        router::lemma_accepted_chat(s, other, at_ms, rms);
    }
}

} // verus!
