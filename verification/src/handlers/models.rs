//! Provider introspection: the list of models, and one model by its name.

use vstd::prelude::*;
use vstd::string::*;

use crate::handlers::{self, respond, Action, ActionModel, Handler};
use crate::json::{self, Json, Members, Tree};
use crate::response::{self, HttpResponse, ParsedRequest, RequestModel, ResponseModel};
use crate::state::{State, StateModel};
use crate::text::{self, same};

verus! {

/// The path of the list.
pub const MODELS_PATH: &'static str = "/v1/models";

/// What the path of one model begins with.
pub const MODEL_PREFIX: &'static str = "/v1/models/";

/// The endpoint family.
pub struct Models;

/// The strings of a list; what is none is left out.
pub open spec fn strings_of(list: Seq<Tree>) -> Seq<Seq<char>>
    decreases list.len(),
{
    if list.len() == 0 {
        Seq::empty()
    } else {
        let before = strings_of(list.drop_last());
        match list.last() {
            Tree::Str(s) => before.push(s),
            _ => before,
        }
    }
}

/// The member of a member, where there is one.
pub open spec fn get_opt(t: Option<Tree>, key: Seq<char>) -> Option<Tree> {
    match t {
        Some(v) => v.get(key),
        None => None,
    }
}

/// The aliases that a model advertises.
pub open spec fn aliases_of(model: Tree) -> Seq<Seq<char>> {
    match get_opt(get_opt(model.get("meta"@), "llamaswap"@), "aliases"@) {
        Some(Tree::Arr(a)) => strings_of(a),
        _ => Seq::empty(),
    }
}

/// Every name that a model answers to: its id and, where they count, its aliases.
pub open spec fn names_of(model: Tree, aliases: bool) -> Seq<Seq<char>> {
    let id = match model.str_at("id"@) {
        Some(s) => seq![s],
        None => Seq::empty(),
    };
    if aliases {
        id + aliases_of(model)
    } else {
        id
    }
}

/// The first model that answers to a name.
pub open spec fn model_named(models: Seq<Tree>, id: Seq<char>, aliases: bool) -> Option<Tree>
    decreases models.len(),
{
    if models.len() == 0 {
        None
    } else if names_of(models[0], aliases).contains(id) {
        Some(models[0])
    } else {
        model_named(models.skip(1), id, aliases)
    }
}

/// The reply on a path: one model, or that there is none of that name, or all of them.
pub open spec fn models_reply(s: StateModel, path: Seq<char>) -> ResponseModel {
    if MODEL_PREFIX@.is_prefix_of(path) {
        let id = path.skip(MODEL_PREFIX@.len() as int);
        match model_named(s.models, id, s.behavior.llamaswap) {
            Some(m) => response::json_reply(200, m),
            None => response::json_reply(
                404,
                Tree::Obj(map!["error"@ => Tree::Str("model not found: "@ + id)]),
            ),
        }
    } else {
        response::json_reply(
            200,
            Tree::Obj(map!["object"@ => Tree::Str("list"@), "data"@ => Tree::Arr(s.models)]),
        )
    }
}

/// The aliases that a model advertises.
fn alias_list(model: &Json) -> (r: Vec<String>)
    ensures
        text::texts(r@) == aliases_of(model@),
{
    let mut out: Vec<String> = Vec::new();
    assert(text::texts(out@) =~= Seq::empty());
    let meta = match model.get("meta") {
        Some(m) => m,
        None => return out,
    };
    let swap = match meta.get("llamaswap") {
        Some(m) => m,
        None => return out,
    };
    let list = match swap.list_at("aliases") {
        Some(l) => l,
        None => return out,
    };
    let ghost all = json::trees(list@);
    proof {
        json::lemma_trees(list@);
        assert(all.take(0) =~= Seq::empty());
    }
    let mut i: usize = 0;
    while i < list.len()
        invariant
            i <= list.len(),
            all.len() == list.len(),
            forall|j: int| 0 <= j < list.len() ==> #[trigger] all[j] == json::tree(list@[j]),
            text::texts(out@) == strings_of(all.take(i as int)),
        decreases list.len() - i,
    {
        assert(all[i as int] == list@[i as int]@);
        assert(all.take(i + 1).drop_last() =~= all.take(i as int));
        if let Some(s) = list[i].as_str() {
            let ghost before = out@;
            out.push(s.to_owned());
            assert(text::texts(out@) =~= text::texts(before).push(s@));
        }
        i += 1;
    }
    assert(all.take(i as int) =~= all);
    out
}

/// Every name that a model answers to.
pub fn model_names(model: &Json, aliases: bool) -> (r: Vec<String>)
    ensures
        text::texts(r@) == names_of(model@, aliases),
{
    let mut out: Vec<String> = Vec::new();
    if let Some(id) = model.str_at("id") {
        out.push(id.to_owned());
    }
    assert(text::texts(out@) =~= names_of(model@, false));
    if aliases {
        let ghost ids = out@;
        let mut more = alias_list(model);
        let ghost rest = more@;
        out.append(&mut more);
        assert(text::texts(out@) =~= text::texts(ids) + text::texts(rest));
    }
    out
}

/// Whether a model answers to a name.
fn answers_to(model: &Json, id: &str, aliases: bool) -> (r: bool)
    ensures
        r == names_of(model@, aliases).contains(id@),
{
    let names = model_names(model, aliases);
    let ghost all = text::texts(names@);
    let mut i: usize = 0;
    while i < names.len()
        invariant
            i <= names.len(),
            all == text::texts(names@),
            all == names_of(model@, aliases),
            forall|j: int| 0 <= j < i ==> #[trigger] all[j] != id@,
        decreases names.len() - i,
    {
        assert(all[i as int] == names@[i as int]@);
        if same(names[i].as_str(), id) {
            return true;
        }
        i += 1;
    }
    false
}

/// The first model that answers to a name.
fn find_model(models: &Vec<Json>, id: &str, aliases: bool) -> (r: Option<Json>)
    ensures
        json::tree_opt(r) == model_named(json::trees(models@), id@, aliases),
{
    let ghost all = json::trees(models@);
    proof {
        json::lemma_trees(models@);
        assert(all.skip(0) =~= all);
    }
    let mut i: usize = 0;
    while i < models.len()
        invariant
            i <= models.len(),
            all == json::trees(models@),
            all.len() == models.len(),
            forall|j: int| 0 <= j < models.len() ==> #[trigger] all[j] == json::tree(models@[j]),
            model_named(all, id@, aliases) == model_named(all.skip(i as int), id@, aliases),
        decreases models.len() - i,
    {
        assert(all.skip(i as int)[0] == all[i as int]);
        assert(all[i as int] == models@[i as int]@);
        if answers_to(&models[i], id, aliases) {
            return Some(models[i].copy());
        }
        assert(all.skip(i as int).skip(1) =~= all.skip(i + 1));
        i += 1;
    }
    assert(all.skip(i as int) =~= Seq::empty());
    None
}

impl Handler for Models {
    open spec fn serves(&self, method: Seq<char>, path: Seq<char>) -> bool {
        method == "GET"@ && (path == MODELS_PATH@ || MODEL_PREFIX@.is_prefix_of(path))
    }

    open spec fn advertised(&self) -> Seq<Seq<char>> {
        seq!["GET /v1/models"@, "GET /v1/models/{id}"@]
    }

    open spec fn handled(&self, s: StateModel, req: RequestModel, path: Seq<char>) -> (
        StateModel,
        ActionModel,
    ) {
        (s, handlers::at_once(models_reply(s, path)))
    }

    fn matches(&self, method: &str, path: &str) -> (r: bool) {
        same(method, "GET") && (same(path, MODELS_PATH) || text::starts_with(path, MODEL_PREFIX))
    }

    fn handle(&self, state: &mut State, req: &ParsedRequest, path: &str) -> (r: Action) {
        let models = state.models_snapshot();
        if let Some(id) = text::strip_prefix(path, MODEL_PREFIX) {
            return match find_model(&models, id, state.llamaswap_enabled()) {
                Some(m) => respond(HttpResponse::json(200, &m)),
                None => {
                    let mut message = "model not found: ".to_owned();
                    message.append(id);
                    let body = Members::new().with("error", Json::Str(message)).done();
                    respond(HttpResponse::json(404, &body))
                },
            };
        }
        let body = Members::new().with("object", Json::text("list")).with(
            "data",
            Json::Arr(models),
        ).done();
        respond(HttpResponse::json(200, &body))
    }

    fn routes(&self) -> (r: &'static [&'static str]) {
        let r: &'static [&'static str] = &["GET /v1/models", "GET /v1/models/{id}"];
        assert(handlers::line_texts(r@) =~= self.advertised());
        r
    }
}

/// A model is found exactly when some model answers to the name, and what is found is one that
/// does; without the aliases only ids count.
pub proof fn law_lookups_find_what_is_there(models: Seq<Tree>, id: Seq<char>, aliases: bool)
    ensures
        model_named(models, id, aliases) is Some <==> exists|i: int|
            0 <= i < models.len() && names_of(#[trigger] models[i], aliases).contains(id),
        model_named(models, id, aliases) matches Some(m) ==> models.contains(m) && names_of(
            m,
            aliases,
        ).contains(id),
        !aliases ==> (model_named(models, id, aliases) matches Some(m) ==> m.str_at("id"@) == Some(
            id,
        )),
    decreases models.len(),
{
    if models.len() > 0 {
        let rest = models.skip(1);
        law_lookups_find_what_is_there(rest, id, aliases);
        if names_of(models[0], aliases).contains(id) {
            assert(models.contains(models[0]));
        } else {
            if let Some(m) = model_named(rest, id, aliases) {
                let k = choose|k: int| 0 <= k < rest.len() && rest[k] == m;
                assert(models[k + 1] == m);
            }
            if exists|i: int|
                0 <= i < models.len() && names_of(#[trigger] models[i], aliases).contains(id) {
                let i = choose|i: int|
                    0 <= i < models.len() && names_of(#[trigger] models[i], aliases).contains(id);
                assert(rest[i - 1] == models[i]);
            }
        }
    }
}

} // verus!
