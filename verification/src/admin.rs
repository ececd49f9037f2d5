//! The control plane: captures are inspected, responses programmed, and the behavior and the
//! models configured here.

use vstd::prelude::*;
use vstd::string::*;

use crate::behavior;
use crate::codec::READ_DEPTH;
use crate::config;
use crate::json::{self, Json, Members, Tree};
use crate::response::{self, HttpResponse, ParsedRequest, RequestModel, ResponseModel};
use crate::responses::{self, SpecModel};
use crate::state::{self, State, StateModel};
use crate::text::{self, same};

verus! {

/// What the paths of the control plane begin with.
pub const ADMIN_PREFIX: &'static str = "/__admin";

/// The routes that the control plane advertises.
pub const ROUTES: [&'static str; 7] = [
    "GET /__admin/health",
    "GET /__admin/captures",
    "POST /__admin/reset",
    "GET|POST|PUT|DELETE /__admin/responses",
    "GET|PUT|DELETE /__admin/default",
    "GET|POST /__admin/behavior",
    "GET|PUT /__admin/models",
];

/// What the control plane can be asked for.
#[derive(Clone, Copy)]
pub enum Command {
    Health,
    Captures,
    Reset,
    Responses,
    Append,
    Replace,
    Clear,
    Default,
    SetDefault,
    ClearDefault,
    Behavior,
    Merge,
    Models,
    SetModels,
}

/// The command that a method on a path below the prefix is.
pub open spec fn command_of(method: Seq<char>, sub: Seq<char>) -> Option<Command> {
    if method == "GET"@ {
        if sub == "/health"@ {
            Some(Command::Health)
        } else if sub == "/captures"@ {
            Some(Command::Captures)
        } else if sub == "/responses"@ {
            Some(Command::Responses)
        } else if sub == "/default"@ {
            Some(Command::Default)
        } else if sub == "/behavior"@ {
            Some(Command::Behavior)
        } else if sub == "/models"@ {
            Some(Command::Models)
        } else {
            None
        }
    } else if method == "POST"@ {
        if sub == "/reset"@ {
            Some(Command::Reset)
        } else if sub == "/responses"@ {
            Some(Command::Append)
        } else if sub == "/behavior"@ {
            Some(Command::Merge)
        } else {
            None
        }
    } else if method == "PUT"@ {
        if sub == "/responses"@ {
            Some(Command::Replace)
        } else if sub == "/default"@ {
            Some(Command::SetDefault)
        } else if sub == "/models"@ {
            Some(Command::SetModels)
        } else {
            None
        }
    } else if method == "DELETE"@ {
        if sub == "/responses"@ {
            Some(Command::Clear)
        } else if sub == "/default"@ {
            Some(Command::ClearDefault)
        } else {
            None
        }
    } else {
        None
    }
}

/// The command that a method on a path below the prefix is.
fn read_command(method: &str, sub: &str) -> (r: Option<Command>)
    ensures
        r == command_of(method@, sub@),
{
    if same(method, "GET") {
        if same(sub, "/health") {
            Some(Command::Health)
        } else if same(sub, "/captures") {
            Some(Command::Captures)
        } else if same(sub, "/responses") {
            Some(Command::Responses)
        } else if same(sub, "/default") {
            Some(Command::Default)
        } else if same(sub, "/behavior") {
            Some(Command::Behavior)
        } else if same(sub, "/models") {
            Some(Command::Models)
        } else {
            None
        }
    } else if same(method, "POST") {
        if same(sub, "/reset") {
            Some(Command::Reset)
        } else if same(sub, "/responses") {
            Some(Command::Append)
        } else if same(sub, "/behavior") {
            Some(Command::Merge)
        } else {
            None
        }
    } else if same(method, "PUT") {
        if same(sub, "/responses") {
            Some(Command::Replace)
        } else if same(sub, "/default") {
            Some(Command::SetDefault)
        } else if same(sub, "/models") {
            Some(Command::SetModels)
        } else {
            None
        }
    } else if same(method, "DELETE") {
        if same(sub, "/responses") {
            Some(Command::Clear)
        } else if same(sub, "/default") {
            Some(Command::ClearDefault)
        } else {
            None
        }
    } else {
        None
    }
}

/// That all is well.
pub open spec fn ok_tree() -> Tree {
    Tree::Obj(map!["ok"@ => Tree::Bool(true)])
}

/// That all is well, and how many responses are still to come.
pub open spec fn pending_tree(n: nat) -> Tree {
    Tree::Obj(map!["ok"@ => Tree::Bool(true), "pending"@ => json::num(n as u64)])
}

/// A single member.
pub open spec fn one_member(key: Seq<char>, value: Tree) -> Tree {
    Tree::Obj(map![key => value])
}

/// The pending responses as values.
pub open spec fn pending_list(q: Seq<SpecModel>) -> Tree {
    Tree::Arr(q.map_values(|s: SpecModel| responses::spec_tree(s)))
}

/// The state and the value that is answered after a command.
pub open spec fn command_step(s: StateModel, c: Command, body: Tree) -> (StateModel, Tree) {
    match c {
        Command::Health => (
            s,
            Tree::Obj(
                map![
                    "ok"@ => Tree::Bool(true),
                    "captures"@ => json::num(s.captures.len() as u64),
                    "pending_responses"@ => json::num(s.responses.len() as u64),
                ],
            ),
        ),
        Command::Captures => (s, one_member("captures"@, Tree::Arr(s.captures))),
        Command::Reset => (
            StateModel {
                captures: Seq::empty(),
                voices: Seq::empty(),
                stalled_once: false,
                ..s
            },
            ok_tree(),
        ),
        Command::Responses => (s, one_member("responses"@, pending_list(s.responses))),
        Command::Append => {
            let q = s.responses + responses::specs_in(body);
            (StateModel { responses: q, ..s }, pending_tree(q.len()))
        },
        Command::Replace => {
            let q = responses::specs_in(body);
            (StateModel { responses: q, ..s }, pending_tree(q.len()))
        },
        Command::Clear => (StateModel { responses: Seq::empty(), ..s }, ok_tree()),
        Command::Default => (s, state::default_tree(s.default_response)),
        Command::SetDefault => (
            StateModel { default_response: Some(responses::spec_of(body)), ..s },
            ok_tree(),
        ),
        Command::ClearDefault => (StateModel { default_response: None, ..s }, ok_tree()),
        Command::Behavior => (s, state::behavior_tree(s.behavior)),
        Command::Merge => {
            let b = state::merged(s.behavior, body);
            (StateModel { behavior: b, ..s }, state::behavior_tree(b))
        },
        Command::Models => (s, one_member("models"@, Tree::Arr(s.models))),
        Command::SetModels => (
            match state::model_list(body) {
                Some(list) => StateModel { models: config::models_of(list), ..s },
                None => s,
            },
            ok_tree(),
        ),
    }
}

/// The state and the response after a request to the control plane; a path that it does not know
/// is answered with what was asked.
pub open spec fn admin_step(s: StateModel, req: RequestModel, path: Seq<char>) -> (
    StateModel,
    ResponseModel,
) {
    let sub = path.skip(ADMIN_PREFIX@.len() as int);
    match command_of(req.method, sub) {
        Some(c) => (
            command_step(s, c, req.body).0,
            response::json_reply(200, command_step(s, c, req.body).1),
        ),
        None => (
            s,
            response::json_reply(
                404,
                one_member(
                    "error"@,
                    Tree::Str("unknown admin endpoint: "@ + req.method + " "@ + sub),
                ),
            ),
        ),
    }
}

/// That all is well.
fn ok() -> (r: Json)
    ensures
        r@ == ok_tree(),
{
    Members::new().with("ok", Json::Bool(true)).done()
}

/// That all is well, and how many responses are still to come.
fn ok_pending(n: usize) -> (r: Json)
    ensures
        r@ == pending_tree(n as nat),
{
    Members::new().with("ok", Json::Bool(true)).with("pending", Json::number(n as u64)).done()
}

/// A single member.
fn single(key: &str, value: Json) -> (r: Json)
    ensures
        r@ == one_member(key@, value@),
{
    Members::new().with(key, value).done()
}

/// Carries out a command; the value that is answered.
fn execute(state: &mut State, c: Command, body: &Json) -> (r: Json)
    requires
        old(state).wf(),
    ensures
        final(state).wf(),
        (final(state)@, r@) == command_step(old(state)@, c, body@),
{
    match c {
        Command::Health => Members::new().with("ok", Json::Bool(true)).with(
            "captures",
            Json::number(state.capture_count() as u64),
        ).with("pending_responses", Json::number(state.pending() as u64)).done(),
        Command::Captures => single("captures", Json::Arr(state.captures_snapshot())),
        Command::Reset => {
            state.reset();
            ok()
        },
        Command::Responses => single("responses", Json::Arr(state.responses_snapshot())),
        Command::Append => {
            let n: usize = state.responses_append(body);
            ok_pending(n)
        },
        Command::Replace => {
            let n: usize = state.responses_replace(body);
            ok_pending(n)
        },
        Command::Clear => {
            state.responses_clear();
            ok()
        },
        Command::Default => state.default_response_value(),
        Command::SetDefault => {
            state.set_default_response(body);
            ok()
        },
        Command::ClearDefault => {
            state.clear_default_response();
            ok()
        },
        Command::Behavior => state.behavior_value(),
        Command::Merge => {
            state.behavior_merge(body);
            state.behavior_value()
        },
        Command::Models => single("models", Json::Arr(state.models_snapshot())),
        Command::SetModels => {
            state.set_models(body);
            ok()
        },
    }
}

/// Answers a request to the control plane, on a path without its query. The client reads the
/// value that the command gives.
pub fn handle(state: &mut State, req: &ParsedRequest, path: &str) -> (r: HttpResponse)
    requires
        old(state).wf(),
        ADMIN_PREFIX@.is_prefix_of(path@),
    ensures
        final(state).wf(),
        (final(state)@, r@) == admin_step(old(state)@, req@, path@),
        command_of(req@.method, path@.skip(ADMIN_PREFIX@.len() as int)) matches Some(c) ==> ({
            let answer = command_step(old(state)@, c, req@.body).1;
            json::lossless(answer, READ_DEPTH as nat) ==> response::read_back(r@) == Some(answer)
        }),
{
    let sub = match text::strip_prefix(path, ADMIN_PREFIX) {
        Some(s) => s,
        None => "",
    };
    match read_command(req.method.as_str(), sub) {
        Some(c) => HttpResponse::json(200, &execute(state, c, &req.body)),
        None => {
            let mut message = "unknown admin endpoint: ".to_owned();
            message.append(req.method.as_str());
            message.append(" ");
            message.append(sub);
            HttpResponse::json(404, &single("error", Json::Str(message)))
        },
    }
}

/// Replacing the queue is clearing it and appending.
pub proof fn law_replacing_is_clearing_and_appending(s: StateModel, body: Tree, any: Tree)
    ensures
        command_step(s, Command::Replace, body) == command_step(
            command_step(s, Command::Clear, any).0,
            Command::Append,
            body,
        ),
{
    assert(Seq::<SpecModel>::empty() + responses::specs_in(body) =~= responses::specs_in(body));
}

/// Responses that are appended in two requests stand in line as if they had been appended in one.
pub proof fn law_appending_keeps_the_order(s: StateModel, first: Tree, second: Tree)
    ensures
        command_step(command_step(s, Command::Append, first).0, Command::Append, second).0.responses
            == s.responses + responses::specs_in(first) + responses::specs_in(second),
{
}

/// A fallback that is set shows, and once it is cleared the built-in one is back.
pub proof fn law_the_fallback_is_set_and_restored(s: StateModel, body: Tree, any: Tree)
    ensures
        ({
            let set = command_step(s, Command::SetDefault, body).0;
            let cleared = command_step(set, Command::ClearDefault, any).0;
            set.default_response == Some(responses::spec_of(body)) && cleared == (StateModel {
                default_response: None,
                ..s
            }) && command_step(cleared, Command::Default, any).1 == one_member(
                "default"@,
                Tree::Null,
            )
        }),
{
}

/// A reset forgets the captures and the voices and arms the stall again; all that was programmed
/// or configured stays.
pub proof fn law_a_reset_rearms_the_stall(
    s: StateModel,
    any: Tree,
    path: Seq<char>,
    body: Tree,
)
    ensures
        ({
            let after = command_step(s, Command::Reset, any).0;
            &&& after.captures.len() == 0
            &&& after.voices.len() == 0
            &&& after.responses == s.responses
            &&& after.default_response == s.default_response
            &&& after.behavior == s.behavior
            &&& after.models == s.models
            &&& behavior::stalls(after.behavior, after.stalled_once, path, body) <==> (
            s.behavior.stall_first_with_tools && behavior::tool_turn(s.behavior, path, body))
        }),
{
}

/// Saying the same of the behavior twice is saying it once.
pub proof fn law_merging_is_idempotent(s: StateModel, body: Tree)
    ensures
        command_step(command_step(s, Command::Merge, body).0, Command::Merge, body)
            == command_step(s, Command::Merge, body),
{
    state::lemma_merged_twice(s.behavior, body);
    let b = state::merged(s.behavior, body);
    assert(command_step(s, Command::Merge, body).0.behavior == b);
}

/// What is read changes nothing.
pub proof fn law_reading_changes_nothing(s: StateModel, req: RequestModel, path: Seq<char>)
    requires
        req.method == "GET"@,
    ensures
        admin_step(s, req, path).0 == s,
{
}

} // verus!
