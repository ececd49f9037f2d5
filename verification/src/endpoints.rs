//! What a client can rely on at the endpoints other than chat: models, audio, voices, images, and
//! the paths that nobody serves.

use vstd::prelude::*;

use crate::admin;
use crate::audio_probe;
use crate::capture;
use crate::codec;
use crate::config;
use crate::guarantees;
use crate::handlers;
use crate::handlers::audio;
use crate::handlers::images;
use crate::handlers::models;
use crate::handlers::{ActionModel, Handler, StageModel};
use crate::json::{self, Tree};
use crate::response::{self, FrameModel, RequestModel, ResponseModel};
use crate::router;
use crate::router::Family;
use crate::state::{self, StateModel};
use crate::text;

verus! {

/// The state with one more capture.
pub open spec fn with_capture(s: StateModel, entry: Tree) -> StateModel {
    StateModel { captures: s.captures.push(entry), ..s }
}

/// A record of a request: what was asked, in full, and when.
pub open spec fn records(entry: Tree, req: RequestModel, at_ms: u64) -> bool {
    &&& entry.get("path"@) == Some(Tree::Str(req.path))
    &&& entry.get("headers"@) == Some(req.headers)
    &&& entry.get("body"@) == Some(req.body)
    &&& entry.get("at_ms"@) == Some(json::num(at_ms))
    &&& entry.get("audio"@) is Some
    &&& req.path != "/v1/audio/transcriptions"@ ==> entry.get("audio"@) == Some(Tree::Null)
}

/// What a record holds.
proof fn lemma_records(req: RequestModel, at_ms: u64, rms: Tree)
    ensures
        records(capture::capture_entry(req, at_ms, rms), req, at_ms),
        req.path == "/v1/audio/transcriptions"@ ==> capture::capture_entry(req, at_ms, rms).get(
            "audio"@,
        ) == Some(audio_probe::measured(req.raw, rms)),
{
    reveal_strlit("path");
    reveal_strlit("headers");
    reveal_strlit("body");
    reveal_strlit("audio");
    reveal_strlit("at_ms");
    assert("path"@.len() == 4 && "headers"@.len() == 7 && "body"@.len() == 4 && "audio"@.len() == 5
        && "at_ms"@.len() == 5);
    assert("path"@[0] == 'p' && "body"@[0] == 'b');
    assert("audio"@[1] == 'u' && "at_ms"@[1] == 't');
}

/// Every request but those of the control plane is captured once, in full and in order, whatever
/// it asks for and whatever it is answered; and it is logged as a line exactly when captures are
/// mirrored, a line that is the text of the record. The upload of a transcription is recorded with
/// what was measured of it.
pub proof fn law_every_request_is_recorded_in_full(
    s: StateModel,
    req: RequestModel,
    at_ms: u64,
    rms: Tree,
)
    requires
        !"/__admin"@.is_prefix_of(text::before_of(req.path, "?"@)),
    ensures
        ({
            let after = router::outcome(s, req, at_ms, rms).0;
            let first = router::routed(s, req, StageModel::Arrived { at_ms, rms });
            let entry = after.captures.last();
            &&& after.captures == s.captures.push(entry)
            &&& first.0.captures == after.captures
            &&& records(entry, req, at_ms)
            &&& req.path == "/v1/audio/transcriptions"@ ==> entry.get("audio"@) == Some(
                audio_probe::measured(req.raw, rms),
            )
            &&& first.1 matches ActionModel::Wait { line, seconds, millis, .. }
            &&& line == (if s.log_stdout || s.log_file {
                Some(codec::written(entry))
            } else {
                None
            })
            &&& seconds == 0
            &&& millis == s.behavior.connect_delay_ms
        }),
{
    router::law_every_request_is_captured_once(s, req, at_ms, rms);
    lemma_records(req, at_ms, rms);
}

/// The first family that serves a path, where none ahead of it does.
proof fn lemma_first(fs: Seq<Family>, method: Seq<char>, path: Seq<char>, k: int)
    requires
        0 <= k < fs.len(),
        fs[k].serves(method, path),
        forall|j: int| 0 <= j < k ==> !(#[trigger] fs[j]).serves(method, path),
    ensures
        router::first_serving(fs, method, path) == Some(fs[k]),
    decreases k,
{
    if k > 0 {
        assert(!fs[0].serves(method, path));
        let rest = fs.skip(1);
        assert forall|j: int| 0 <= j < k - 1 implies !(#[trigger] rest[j]).serves(method, path) by {
            assert(rest[j] == fs[j + 1]);
        }
        assert(rest[k - 1] == fs[k]);
        lemma_first(rest, method, path, k - 1);
    }
}

/// No family serves a path that none does.
proof fn lemma_none(fs: Seq<Family>, method: Seq<char>, path: Seq<char>)
    requires
        forall|j: int| 0 <= j < fs.len() ==> !(#[trigger] fs[j]).serves(method, path),
    ensures
        router::first_serving(fs, method, path) is None,
    decreases fs.len(),
{
    if fs.len() > 0 {
        let rest = fs.skip(1);
        assert(!fs[0].serves(method, path));
        assert forall|j: int| 0 <= j < rest.len() implies !(#[trigger] rest[j]).serves(
            method,
            path,
        ) by {
            assert(rest[j] == fs[j + 1]);
        }
        lemma_none(rest, method, path);
    }
}

/// What each family serves.
proof fn lemma_families(method: Seq<char>, path: Seq<char>)
    ensures
        ({
            let fs = router::families();
            &&& fs.len() == 7
            &&& fs[0].serves(method, path) <==> method == "POST"@ && text::occurs(
                path,
                "chat/completions"@,
            )
            &&& fs[1].serves(method, path) <==> method == "POST"@ && path == audio::SPEECH_PATH@
            &&& fs[2].serves(method, path) <==> method == "POST"@ && path
                == audio::TRANSCRIPTIONS_PATH@
            &&& fs[3].serves(method, path) <==> (method == "GET"@ || method == "POST"@) && path
                == audio::VOICES_PATH@
            &&& fs[4].serves(method, path) <==> (method == "GET"@ || method == "POST"@) && path
                == audio::REGISTRY_VOICES_PATH@
            &&& fs[5].serves(method, path) <==> method == "POST"@ && path == images::IMAGES_PATH@
            &&& fs[6].serves(method, path) <==> method == "GET"@ && (path == models::MODELS_PATH@
                || models::MODEL_PREFIX@.is_prefix_of(path))
        }),
{
    let fs = router::families();
    assert(fs[0] == Family::Chat(handlers::chat::ChatCompletions));
    assert(fs[1] == Family::Speech(audio::AudioSpeech));
    assert(fs[2] == Family::Transcriptions(audio::AudioTranscriptions));
    assert(fs[3] == Family::Voices(audio::AudioVoices));
    assert(fs[4] == Family::Registry(audio::VoiceRegistry));
    assert(fs[5] == Family::Images(images::ImagesGenerations));
    assert(fs[6] == Family::Models(models::Models));
}

/// A path without the letter that chat begins with is no chat path.
proof fn lemma_no_chat(path: Seq<char>)
    requires
        forall|i: int| 0 <= i && i + 16 <= path.len() ==> path[i] != 'c',
    ensures
        !text::occurs(path, "chat/completions"@),
{
    reveal_strlit("chat/completions");
    let part = "chat/completions"@;
    assert(part.len() == 16 && part[0] == 'c');
    assert forall|i: int| !text::occurs_at(path, part, i) by {
        if text::occurs_at(path, part, i) {
            assert(path.subrange(i, i + 16)[0] == 'c');
        }
    }
}

/// The paths of the endpoints are distinct, and none is a chat path.
proof fn lemma_paths()
    ensures
        audio::SPEECH_PATH@ != audio::VOICES_PATH@,
        audio::SPEECH_PATH@.len() == 16,
        audio::VOICES_PATH@.len() == 16,
        audio::TRANSCRIPTIONS_PATH@.len() == 24,
        audio::REGISTRY_VOICES_PATH@.len() == 10,
        images::IMAGES_PATH@.len() == 22,
        models::MODELS_PATH@.len() == 10,
        models::MODEL_PREFIX@.len() == 11,
        audio::REGISTRY_VOICES_PATH@ != models::MODELS_PATH@,
        !models::MODEL_PREFIX@.is_prefix_of(audio::SPEECH_PATH@),
        !models::MODEL_PREFIX@.is_prefix_of(audio::VOICES_PATH@),
        !models::MODEL_PREFIX@.is_prefix_of(audio::TRANSCRIPTIONS_PATH@),
        !models::MODEL_PREFIX@.is_prefix_of(images::IMAGES_PATH@),
        !text::occurs(audio::SPEECH_PATH@, "chat/completions"@),
        !text::occurs(audio::VOICES_PATH@, "chat/completions"@),
        !text::occurs(audio::TRANSCRIPTIONS_PATH@, "chat/completions"@),
        !text::occurs(audio::REGISTRY_VOICES_PATH@, "chat/completions"@),
        !text::occurs(images::IMAGES_PATH@, "chat/completions"@),
        !text::occurs(models::MODELS_PATH@, "chat/completions"@),
        plain(audio::SPEECH_PATH@),
        plain(audio::VOICES_PATH@),
        plain(audio::TRANSCRIPTIONS_PATH@),
        plain(audio::REGISTRY_VOICES_PATH@),
        plain(images::IMAGES_PATH@),
        plain(models::MODELS_PATH@),
        plain(models::MODEL_PREFIX@),
        "GET"@ != "POST"@,
{
    reveal_strlit("/v1/audio/speech");
    reveal_strlit("/v1/audio/voices");
    reveal_strlit("/v1/audio/transcriptions");
    reveal_strlit("/v1/voices");
    reveal_strlit("/v1/images/generations");
    reveal_strlit("/v1/models");
    reveal_strlit("/v1/models/");
    let prefix = models::MODEL_PREFIX@;
    assert(prefix[4] == 'm');
    assert(audio::SPEECH_PATH@[10] == 's' && audio::VOICES_PATH@[10] == 'v');
    assert(audio::REGISTRY_VOICES_PATH@[4] == 'v' && models::MODELS_PATH@[4] == 'm');
    assert(audio::SPEECH_PATH@[4] == 'a' && audio::VOICES_PATH@[4] == 'a');
    assert(audio::TRANSCRIPTIONS_PATH@[4] == 'a' && images::IMAGES_PATH@[4] == 'i');
    lemma_no_chat(audio::SPEECH_PATH@);
    lemma_no_chat(audio::VOICES_PATH@);
    lemma_no_chat(audio::TRANSCRIPTIONS_PATH@);
    lemma_no_chat(audio::REGISTRY_VOICES_PATH@);
    lemma_no_chat(images::IMAGES_PATH@);
    lemma_no_chat(models::MODELS_PATH@);
    guarantees::lemma_methods();
}

/// A path of the interface, without a query.
pub open spec fn plain(path: Seq<char>) -> bool {
    path.len() > 2 && path[0] == '/' && path[1] == 'v' && !path.contains('?')
}

/// A request on a path that one family serves is captured, and handled by that family.
proof fn lemma_served(
    s: StateModel,
    req: RequestModel,
    path: Seq<char>,
    k: int,
    at_ms: u64,
    rms: Tree,
)
    requires
        guarantees::goes_to(req, req.method, path),
        plain(path),
        0 < k < 7,
        router::families()[k].serves(req.method, path),
        forall|j: int| 0 <= j < k ==> !(#[trigger] router::families()[j]).serves(req.method, path),
    ensures
        ({
            let entry = capture::capture_entry(req, at_ms, rms);
            let second = router::families()[k].handled(with_capture(s, entry), req, path);
            &&& records(entry, req, at_ms)
            &&& !(second.1 is Wait) ==> router::outcome(s, req, at_ms, rms) == second
        }),
{
    guarantees::lemma_plain(req, req.method, path);
    lemma_first(router::families(), req.method, path, k);
    lemma_records(req, at_ms, rms);
}

/// An image of a reply: its bytes in a text, or in an address that holds them.
pub open spec fn is_image(item: Tree, as_url: bool) -> bool {
    if as_url {
        exists|t: Seq<char>|
            {
                &&& item.str_at("url"@) == Some(#[trigger] ("data:image/png;base64,"@ + t))
                &&& handlers::decoded(t) == images::PNG_1X1@
                &&& item.get("b64_json"@) is None
            }
    } else {
        exists|t: Seq<char>|
            {
                &&& item.str_at("b64_json"@) == Some(t)
                &&& #[trigger] handlers::decoded(t) == images::PNG_1X1@
                &&& item.get("url"@) is None
            }
    }
}

/// A request for images gets exactly as many as it asks for, one where it asks for none or does
/// not say, whatever the format; and each in the format that it asks for, out of which a client
/// decodes the image.
pub proof fn law_images_come_as_asked(s: StateModel, req: RequestModel, at_ms: u64, rms: Tree)
    requires
        guarantees::goes_to(req, "POST"@, "/v1/images/generations"@),
    ensures
        ({
            let (after, action) = router::outcome(s, req, at_ms, rms);
            let n: nat = match req.body.u64_at("n"@) {
                Some(n) => if n > 0 {
                    n as nat
                } else {
                    1
                },
                None => 1,
            };
            &&& after == with_capture(s, after.captures.last())
            &&& exists|t: Tree|
                {
                    let data = t.list_at("data"@)->0;
                    &&& #[trigger] guarantees::says(action, 200, t)
                    &&& t.list_at("data"@) is Some
                    &&& t.get("created"@) == Some(json::num(0))
                    &&& data.len() == n
                    &&& forall|i: int|
                        0 <= i < n ==> is_image(
                            #[trigger] data[i],
                            req.body.str_at("response_format"@) == Some("url"@),
                        )
                }
        }),
{
    lemma_paths();
    lemma_families(req.method, images::IMAGES_PATH@);
    lemma_served(s, req, images::IMAGES_PATH@, 5, at_ms, rms);
    reveal_strlit("url");
    reveal_strlit("b64_json");
    reveal_strlit("created");
    reveal_strlit("data");
    assert("url"@.len() == 3 && "b64_json"@.len() == 8 && "created"@.len() == 7 && "data"@.len()
        == 4);
    let as_url = req.body.str_at("response_format"@) == Some("url"@);
    let text = handlers::base64(images::PNG_1X1@);
    handlers::law_base64_decodes(images::PNG_1X1@);
    let item = images::image_item(as_url);
    assert(is_image(item, as_url)) by {
        if as_url {
            assert(item.str_at("url"@) == Some("data:image/png;base64,"@ + text));
        } else {
            assert(item.str_at("b64_json"@) == Some(text));
        }
    }
    assert(router::families()[5] == Family::Images(images::ImagesGenerations));
    let t = images::images_tree(req.body);
    assert(guarantees::says(router::outcome(s, req, at_ms, rms).1, 200, t));
}

/// The list of models is every model that was set, in order; and one model is found by its id, or
/// with the gateway extension by an alias that it advertises: the first that bears the name, as it
/// was set. A name that none bears is told to be unknown. Nothing changes but for the capture.
pub proof fn law_models_are_listed_and_found(
    s: StateModel,
    req: RequestModel,
    at_ms: u64,
    rms: Tree,
    id: Seq<char>,
)
    requires
        !id.contains('?'),
    ensures
        ({
            let (after, action) = router::outcome(s, req, at_ms, rms);
            &&& guarantees::goes_to(req, "GET"@, "/v1/models"@) ==> {
                &&& after == with_capture(s, after.captures.last())
                &&& exists|t: Tree|
                    {
                        &&& #[trigger] guarantees::says(action, 200, t)
                        &&& t.str_at("object"@) == Some("list"@)
                        &&& t.list_at("data"@) == Some(s.models)
                    }
            }
            &&& guarantees::goes_to(req, "GET"@, "/v1/models/"@ + id) ==> {
                &&& after == with_capture(s, after.captures.last())
                &&& forall|k: int|
                    0 <= k < s.models.len() && #[trigger] bears(
                        s.models[k],
                        id,
                        s.behavior.llamaswap,
                    ) && (forall|j: int|
                        0 <= j < k ==> !bears(#[trigger] s.models[j], id, s.behavior.llamaswap))
                        ==> guarantees::says(action, 200, s.models[k])
                &&& (forall|k: int|
                    0 <= k < s.models.len() ==> !bears(
                        #[trigger] s.models[k],
                        id,
                        s.behavior.llamaswap,
                    )) ==> exists|t: Tree|
                    {
                        &&& #[trigger] guarantees::says(action, 404, t)
                        &&& t.str_at("error"@) == Some("model not found: "@ + id)
                    }
            }
        }),
{
    lemma_paths();
    let action = router::outcome(s, req, at_ms, rms).1;
    assert(router::families()[6] == Family::Models(models::Models));
    if guarantees::goes_to(req, "GET"@, "/v1/models"@) {
        lemma_families(req.method, models::MODELS_PATH@);
        lemma_served(s, req, models::MODELS_PATH@, 6, at_ms, rms);
        reveal_strlit("object");
        reveal_strlit("data");
        assert("object"@.len() == 6 && "data"@.len() == 4);
        let t = Tree::Obj(
            map!["object"@ => Tree::Str("list"@), "data"@ => Tree::Arr(s.models)],
        );
        assert(guarantees::says(action, 200, t));
    }
    if guarantees::goes_to(req, "GET"@, "/v1/models/"@ + id) {
        let prefix = models::MODEL_PREFIX@;
        let path = prefix + id;
        assert(plain(path)) by {
            if path.contains('?') {
                let k = choose|k: int| 0 <= k < path.len() && path[k] == '?';
                if k >= 11 {
                    assert(id[k - 11] == '?');
                    assert(id.contains('?'));
                } else {
                    assert(prefix[k] == '?');
                    assert(prefix.contains('?'));
                }
            }
            assert(path[0] == prefix[0] && path[1] == prefix[1]);
        }
        assert(path.subrange(0, 11) =~= prefix);
        assert(prefix.is_prefix_of(path));
        assert(path.skip(11) =~= id);
        assert(path[4] == prefix[4]);
        reveal_strlit("/v1/models/");
        reveal_strlit("/v1/voices");
        reveal_strlit("/v1/audio/voices");
        assert(path[4] == 'm');
        lemma_families(req.method, path);
        lemma_served(s, req, path, 6, at_ms, rms);
        let on = s.behavior.llamaswap;
        assert forall|k: int|
            0 <= k < s.models.len() && #[trigger] bears(s.models[k], id, on) && (forall|j: int|
                0 <= j < k ==> !bears(#[trigger] s.models[j], id, on)) implies guarantees::says(
            action,
            200,
            s.models[k],
        ) by {
            lemma_found(s.models, id, on, k);
        }
        if forall|k: int| 0 <= k < s.models.len() ==> !bears(#[trigger] s.models[k], id, on) {
            lemma_unfound(s.models, id, on);
            let t = Tree::Obj(map!["error"@ => Tree::Str("model not found: "@ + id)]);
            assert(guarantees::says(action, 404, t));
        }
    }
}

/// The model bears a name: as its id, or as an alias where those count.
pub open spec fn bears(model: Tree, name: Seq<char>, aliases: bool) -> bool {
    ||| model.str_at("id"@) == Some(name)
    ||| {
        &&& aliases
        &&& model.get("meta"@) matches Some(m)
        &&& m.get("llamaswap"@) matches Some(l)
        &&& l.list_at("aliases"@) matches Some(a)
        &&& a.contains(Tree::Str(name))
    }
}

/// The strings of a list.
proof fn lemma_strings(list: Seq<Tree>, name: Seq<char>)
    ensures
        models::strings_of(list).contains(name) <==> list.contains(Tree::Str(name)),
    decreases list.len(),
{
    if list.len() > 0 {
        let rest = list.drop_last();
        let before = models::strings_of(rest);
        lemma_strings(rest, name);
        let all = models::strings_of(list);
        assert(list.last() == list[list.len() - 1]);
        if list.contains(Tree::Str(name)) {
            let k = choose|k: int| 0 <= k < list.len() && list[k] == Tree::Str(name);
            if k < rest.len() {
                assert(rest[k] == Tree::Str(name));
                let j = choose|j: int| 0 <= j < before.len() && before[j] == name;
                assert(all[j] == name);
            } else {
                assert(all[before.len() as int] == name);
            }
        }
        if all.contains(name) {
            let j = choose|j: int| 0 <= j < all.len() && all[j] == name;
            if j < before.len() {
                assert(before[j] == name);
                let k = choose|k: int| 0 <= k < rest.len() && rest[k] == Tree::Str(name);
                assert(list[k] == Tree::Str(name));
            } else {
                assert(list[list.len() - 1] == Tree::Str(name));
            }
        }
    }
}

/// The names that a model answers to are those that it bears.
proof fn lemma_bears(model: Tree, name: Seq<char>, aliases: bool)
    ensures
        models::names_of(model, aliases).contains(name) <==> bears(model, name, aliases),
{
    let names = models::names_of(model, aliases);
    let ids = models::names_of(model, false);
    if model.str_at("id"@) == Some(name) {
        assert(names[0] == name);
    }
    let list = models::get_opt(models::get_opt(model.get("meta"@), "llamaswap"@), "aliases"@);
    let more = models::aliases_of(model);
    if let Some(Tree::Arr(a)) = list {
        lemma_strings(a, name);
    }
    if aliases {
        assert(names == ids + more);
        if more.contains(name) {
            let k = choose|k: int| 0 <= k < more.len() && more[k] == name;
            assert(names[ids.len() + k] == name);
        }
        if names.contains(name) {
            let k = choose|k: int| 0 <= k < names.len() && names[k] == name;
            if k >= ids.len() {
                assert(more[k - ids.len()] == name);
            }
        }
    }
}

/// The first model that bears a name is the one that is found.
proof fn lemma_found(list: Seq<Tree>, id: Seq<char>, aliases: bool, k: int)
    requires
        0 <= k < list.len(),
        bears(list[k], id, aliases),
        forall|j: int| 0 <= j < k ==> !bears(#[trigger] list[j], id, aliases),
    ensures
        models::model_named(list, id, aliases) == Some(list[k]),
    decreases k,
{
    lemma_bears(list[0], id, aliases);
    if k > 0 {
        assert(!bears(list[0], id, aliases));
        let rest = list.skip(1);
        assert forall|j: int| 0 <= j < k - 1 implies !bears(#[trigger] rest[j], id, aliases) by {
            assert(rest[j] == list[j + 1]);
        }
        assert(rest[k - 1] == list[k]);
        lemma_found(rest, id, aliases, k - 1);
    }
}

/// A name that no model bears is not found.
proof fn lemma_unfound(list: Seq<Tree>, id: Seq<char>, aliases: bool)
    requires
        forall|k: int| 0 <= k < list.len() ==> !bears(#[trigger] list[k], id, aliases),
    ensures
        models::model_named(list, id, aliases) is None,
    decreases list.len(),
{
    if list.len() > 0 {
        lemma_bears(list[0], id, aliases);
        assert(!bears(list[0], id, aliases));
        let rest = list.skip(1);
        assert forall|k: int| 0 <= k < rest.len() implies !bears(#[trigger] rest[k], id, aliases) by {
            assert(rest[k] == list[k + 1]);
        }
        lemma_unfound(rest, id, aliases);
    }
}

/// Setting the models, as a list or as the list in an object, sets them to those of the list, and
/// changes nothing else; anything else changes nothing. Asking for them shows them.
pub proof fn law_models_can_be_set(
    s: StateModel,
    req: RequestModel,
    at_ms: u64,
    rms: Tree,
    list: Seq<Tree>,
)
    ensures
        ({
            let (after, action) = router::outcome(s, req, at_ms, rms);
            &&& guarantees::goes_to(req, "PUT"@, "/__admin/models"@) ==> {
                &&& exists|t: Tree| #[trigger]
                    guarantees::says(action, 200, t) && t.get("ok"@) == Some(Tree::Bool(true))
                &&& req.body == Tree::Arr(list) || req.body.list_at("models"@) == Some(list)
                    ==> after == (StateModel { models: config::models_of(list), ..s })
                &&& !(req.body is Arr) && req.body.list_at("models"@) is None ==> after == s
            }
            &&& guarantees::goes_to(req, "GET"@, "/__admin/models"@) ==> {
                &&& after == s
                &&& exists|t: Tree| #[trigger]
                    guarantees::says(action, 200, t) && t.list_at("models"@) == Some(s.models)
            }
        }),
{
    guarantees::lemma_methods();
    guarantees::lemma_subs();
    reveal_strlit("/__admin");
    reveal_strlit("/models");
    reveal_strlit("/__admin/models");
    assert("/__admin/models"@ =~= admin::ADMIN_PREFIX@ + "/models"@);
    let action = router::outcome(s, req, at_ms, rms).1;
    if guarantees::goes_to(req, "PUT"@, "/__admin/models"@) {
        guarantees::lemma_command(s, req, "/models"@, admin::Command::SetModels, at_ms, rms);
        let t = admin::command_step(s, admin::Command::SetModels, req.body).1;
        assert(guarantees::says(action, 200, t));
    }
    if guarantees::goes_to(req, "GET"@, "/__admin/models"@) {
        guarantees::lemma_command(s, req, "/models"@, admin::Command::Models, at_ms, rms);
        let t = admin::command_step(s, admin::Command::Models, req.body).1;
        assert(guarantees::says(action, 200, t));
    }
}

/// The method and the path are those of an endpoint.
pub open spec fn known(method: Seq<char>, path: Seq<char>) -> bool {
    ||| method == "POST"@ && text::occurs(path, "chat/completions"@)
    ||| method == "POST"@ && path == "/v1/audio/speech"@
    ||| method == "POST"@ && path == "/v1/audio/transcriptions"@
    ||| (method == "GET"@ || method == "POST"@) && path == "/v1/audio/voices"@
    ||| (method == "GET"@ || method == "POST"@) && path == "/v1/voices"@
    ||| method == "POST"@ && path == "/v1/images/generations"@
    ||| method == "GET"@ && (path == "/v1/models"@ || "/v1/models/"@.is_prefix_of(path))
}

/// A path that nobody serves is answered with what was asked and with every endpoint that can be;
/// nothing changes but for the capture.
pub proof fn law_unknown_paths_are_told_what_there_is(
    s: StateModel,
    req: RequestModel,
    at_ms: u64,
    rms: Tree,
    path: Seq<char>,
)
    requires
        guarantees::goes_to(req, req.method, path),
        !path.contains('?'),
    ensures
        ({
            let (after, action) = router::outcome(s, req, at_ms, rms);
            &&& !"/__admin"@.is_prefix_of(path) && !"/upstream/"@.is_prefix_of(path) && !known(
                req.method,
                path,
            ) ==> {
                &&& after == with_capture(s, after.captures.last())
                &&& exists|t: Tree|
                    {
                        &&& #[trigger] guarantees::says(action, 404, t)
                        &&& t.str_at("error"@) == Some("not found: "@ + req.method + " "@ + path)
                        &&& t.list_at("endpoints"@) matches Some(e)
                        &&& e.contains(Tree::Str("POST /v1/chat/completions"@))
                        &&& e.contains(Tree::Str("POST /v1/audio/speech"@))
                        &&& e.contains(Tree::Str("POST /v1/audio/transcriptions"@))
                        &&& e.contains(Tree::Str("GET /v1/audio/voices"@))
                        &&& e.contains(Tree::Str("POST /v1/audio/voices"@))
                        &&& e.contains(Tree::Str("GET /v1/voices"@))
                        &&& e.contains(Tree::Str("POST /v1/voices"@))
                        &&& e.contains(Tree::Str("POST /v1/images/generations"@))
                        &&& e.contains(Tree::Str("GET /v1/models"@))
                        &&& e.contains(Tree::Str("GET /v1/models/{id}"@))
                        &&& forall|i: int|
                            0 <= i < admin::ROUTES@.len() ==> e.contains(
                                Tree::Str((#[trigger] admin::ROUTES@[i])@),
                            )
                    }
            }
        }),
{
    guarantees::lemma_path(req, req.method, path);
    let (after, action) = router::outcome(s, req, at_ms, rms);
    if !"/__admin"@.is_prefix_of(path) && !"/upstream/"@.is_prefix_of(path) && !known(
        req.method,
        path,
    ) {
        let fs = router::families();
        lemma_families(req.method, path);
        assert forall|j: int| 0 <= j < fs.len() implies !(#[trigger] fs[j]).serves(
            req.method,
            path,
        ) by {
            assert(j == 0 || j == 1 || j == 2 || j == 3 || j == 4 || j == 5 || j == 6);
        }
        lemma_none(fs, req.method, path);
        lemma_endpoints();
        reveal_strlit("error");
        reveal_strlit("endpoints");
        assert("error"@.len() == 5 && "endpoints"@.len() == 9);
        let t = Tree::Obj(
            map![
                "error"@ => Tree::Str("not found: "@ + req.method + " "@ + path),
                "endpoints"@ => json::text_list(
                    router::routes_of(fs) + handlers::line_texts(admin::ROUTES@),
                ),
            ],
        );
        assert(guarantees::says(action, 404, t));
        let all = router::routes_of(fs) + handlers::line_texts(admin::ROUTES@);
        let e = t.list_at("endpoints"@)->0;
        assert forall|x: Seq<char>| #[trigger] all.contains(x) implies e.contains(Tree::Str(x)) by {
            let k = choose|k: int| 0 <= k < all.len() && all[k] == x;
            assert(e[k] == Tree::Str(x));
        }
        assert forall|i: int| 0 <= i < admin::ROUTES@.len() implies e.contains(
            Tree::Str((#[trigger] admin::ROUTES@[i])@),
        ) by {
            let k = router::routes_of(fs).len() + i;
            assert(all[k] == admin::ROUTES@[i]@);
            assert(all.contains(admin::ROUTES@[i]@));
        }
        assert forall|k: int| 0 <= k < 10 implies all.contains(
            #[trigger] router::routes_of(fs)[k],
        ) by {
            assert(all[k] == router::routes_of(fs)[k]);
        }
    }
}

/// The routes that the families advertise.
proof fn lemma_endpoints()
    ensures
        router::routes_of(router::families()) == seq![
            "POST /v1/chat/completions"@,
            "POST /v1/audio/speech"@,
            "POST /v1/audio/transcriptions"@,
            "GET /v1/audio/voices"@,
            "POST /v1/audio/voices"@,
            "GET /v1/voices"@,
            "POST /v1/voices"@,
            "POST /v1/images/generations"@,
            "GET /v1/models"@,
            "GET /v1/models/{id}"@,
        ],
{
    let fs = router::families();
    reveal_with_fuel(router::routes_of, 8);
    let a6 = fs.drop_last();
    let a5 = a6.drop_last();
    let a4 = a5.drop_last();
    let a3 = a4.drop_last();
    let a2 = a3.drop_last();
    let a1 = a2.drop_last();
    let a0 = a1.drop_last();
    assert(a0.len() == 0);
    assert(router::routes_of(a0) =~= Seq::empty());
    assert(a1.last() == Family::Chat(handlers::chat::ChatCompletions));
    assert(a2.last() == Family::Speech(audio::AudioSpeech));
    assert(a3.last() == Family::Transcriptions(audio::AudioTranscriptions));
    assert(a4.last() == Family::Voices(audio::AudioVoices));
    assert(a5.last() == Family::Registry(audio::VoiceRegistry));
    assert(a6.last() == Family::Images(images::ImagesGenerations));
    assert(fs.last() == Family::Models(models::Models));
    assert(router::routes_of(a1) =~= seq!["POST /v1/chat/completions"@]);
    assert(router::routes_of(a2) =~= router::routes_of(a1) + seq!["POST /v1/audio/speech"@]);
    assert(router::routes_of(a3) =~= router::routes_of(a2) + seq![
        "POST /v1/audio/transcriptions"@,
    ]);
    assert(router::routes_of(a4) =~= router::routes_of(a3) + seq![
        "GET /v1/audio/voices"@,
        "POST /v1/audio/voices"@,
    ]);
    assert(router::routes_of(a5) =~= router::routes_of(a4) + seq![
        "GET /v1/voices"@,
        "POST /v1/voices"@,
    ]);
    assert(router::routes_of(a6) =~= router::routes_of(a5) + seq![
        "POST /v1/images/generations"@,
    ]);
    assert(router::routes_of(fs) =~= seq![
        "POST /v1/chat/completions"@,
        "POST /v1/audio/speech"@,
        "POST /v1/audio/transcriptions"@,
        "GET /v1/audio/voices"@,
        "POST /v1/audio/voices"@,
        "GET /v1/voices"@,
        "POST /v1/voices"@,
        "POST /v1/images/generations"@,
        "GET /v1/models"@,
        "GET /v1/models/{id}"@,
    ]);
}

/// The method and the path below the prefix are those of a command.
pub open spec fn known_command(method: Seq<char>, sub: Seq<char>) -> bool {
    ||| method == "GET"@ && (sub == "/health"@ || sub == "/captures"@ || sub == "/responses"@ || sub
        == "/default"@ || sub == "/behavior"@ || sub == "/models"@)
    ||| method == "POST"@ && (sub == "/reset"@ || sub == "/responses"@ || sub == "/behavior"@)
    ||| method == "PUT"@ && (sub == "/responses"@ || sub == "/default"@ || sub == "/models"@)
    ||| method == "DELETE"@ && (sub == "/responses"@ || sub == "/default"@)
}

/// A path of the control plane that it does not know is answered with what was asked, and nothing
/// changes at all.
pub proof fn law_unknown_commands_change_nothing(
    s: StateModel,
    req: RequestModel,
    at_ms: u64,
    rms: Tree,
    sub: Seq<char>,
)
    requires
        guarantees::goes_to(req, req.method, "/__admin"@ + sub),
        !sub.contains('?'),
        !known_command(req.method, sub),
    ensures
        ({
            let (after, action) = router::outcome(s, req, at_ms, rms);
            &&& after == s
            &&& exists|t: Tree|
                {
                    &&& #[trigger] guarantees::says(action, 404, t)
                    &&& t.str_at("error"@) == Some(
                        "unknown admin endpoint: "@ + req.method + " "@ + sub,
                    )
                }
        }),
{
    guarantees::lemma_admin(s, req, sub, at_ms, rms);
    let t = admin::one_member(
        "error"@,
        Tree::Str("unknown admin endpoint: "@ + req.method + " "@ + sub),
    );
    assert(guarantees::says(router::outcome(s, req, at_ms, rms).1, 404, t));
}

/// The voice that a request asks for is not its own to use: it is another than the preset, and the
/// request does not attest consent.
pub open spec fn unattested(body: Tree) -> bool {
    &&& body.str_at("voice"@) matches Some(v)
    &&& v.len() > 0
    &&& v != "alloy"@
    &&& body.get("consent_attestation"@) is None
}

/// A stream of audio: each frame carries a text out of which a client decodes a piece, the pieces
/// put together are the audio, and the last frame ends the reply; each frame after its pause.
pub open spec fn carries_audio(
    r: ResponseModel,
    pcm: Seq<u8>,
    pace: u64,
    frames: Seq<FrameModel>,
    codes: Seq<Seq<char>>,
) -> bool {
    let pieces = codes.map_values(|t: Seq<char>| handlers::decoded(t));
    &&& r.status == 200
    &&& r.content_type == "text/event-stream"@
    &&& r.body == (if pace > 0 {
        response::BodyModel::Streamed { frames, hang_ms: 0 }
    } else {
        response::BodyModel::Buffered(response::frame_bytes(frames))
    })
    &&& frames.len() == codes.len() + 1
    &&& forall|i: int| 0 <= i < frames.len() ==> (#[trigger] frames[i]).delay_ms == pace
    &&& forall|i: int|
        0 <= i < codes.len() ==> (#[trigger] frames[i]).data == vstd::utf8::encode_utf8(
            "event: speech.audio.delta\ndata: {\"audio\":\""@ + codes[i] + "\"}\n\n"@,
        )
    &&& forall|i: int| 0 <= i < pieces.len() ==> 0 < (#[trigger] pieces[i]).len() <= 1536
    &&& forall|i: int| 0 <= i < pieces.len() - 1 ==> (#[trigger] pieces[i]).len() == 1536
    &&& audio::together(pieces) == pcm
    &&& frames.last().data == vstd::utf8::encode_utf8(
        "event: speech.audio.done\ndata: {}\n\ndata: [DONE]\n\n"@,
    )
}

/// A text is spoken as the audio that is configured for it, or as the built-in one, whose byte at
/// each place tells that place; raw, or as events where the request asks for them. Where consent is
/// asked for, a voice other than the preset is refused without it, and only then.
pub proof fn law_texts_are_spoken(s: StateModel, req: RequestModel, at_ms: u64, rms: Tree)
    requires
        guarantees::goes_to(req, "POST"@, "/v1/audio/speech"@),
    ensures
        ({
            let (after, action) = router::outcome(s, req, at_ms, rms);
            let input = match req.body.str_at("input"@) {
                Some(t) => t,
                None => Seq::<char>::empty(),
            };
            &&& after == with_capture(s, after.captures.last())
            &&& s.behavior.require_voice_consent && unattested(req.body) ==> exists|t: Tree|
                {
                    let e = t.get("error"@)->0;
                    &&& #[trigger] guarantees::says(action, 400, t)
                    &&& t.get("error"@) is Some
                    &&& e.str_at("code"@) == Some("consent_required"@)
                    &&& e.str_at("param"@) == Some("consent_attestation"@)
                    &&& e.str_at("type"@) == Some("invalid_request_error"@)
                }
            &&& !(s.behavior.require_voice_consent && unattested(req.body)) ==> exists|
                pcm: Seq<u8>,
            |
                {
                    &&& #[trigger] speaks(
                        action,
                        pcm,
                        req.body,
                        s.behavior.speech_frame_delay_ms,
                    )
                    &&& state::speech_of(s, input) matches Some(audio) ==> pcm == audio
                    &&& state::speech_of(s, input) is None ==> pcm.len() == 1536 && forall|i: int|
                        0 <= i < 1536 ==> #[trigger] pcm[i] == i % 251
                }
        }),
{
    lemma_paths();
    let path = audio::SPEECH_PATH@;
    lemma_families(req.method, path);
    lemma_served(s, req, path, 1, at_ms, rms);
    assert(router::families()[1] == Family::Speech(audio::AudioSpeech));
    let action = router::outcome(s, req, at_ms, rms).1;
    reveal_strlit("");
    assert(""@ =~= Seq::<char>::empty());
    if s.behavior.require_voice_consent && unattested(req.body) {
        reveal_strlit("message");
        reveal_strlit("type");
        reveal_strlit("param");
        reveal_strlit("code");
        assert("message"@.len() == 7 && "type"@.len() == 4 && "param"@.len() == 5 && "code"@.len()
            == 4);
        assert("type"@[0] == 't' && "code"@[0] == 'c');
        assert(guarantees::says(action, 400, audio::consent_error()));
    } else {
        let pcm = audio::spoken(s, req.body);
        let sse = req.body.str_at("stream_format"@) == Some("sse"@);
        let pace = s.behavior.speech_frame_delay_ms;
        let entry = capture::capture_entry(req, at_ms, rms);
        assert(audio::spoken(with_capture(s, entry), req.body) == pcm);
        assert(!audio::lacks_consent(s.behavior, req.body));
        let reply = audio::speech_reply(pcm, sse, pace);
        assert(action == (ActionModel::Respond { delay_ms: 0, response: reply }));
        if sse {
            lemma_speech_stream(pcm, pace);
        }
        assert(speaks(action, pcm, req.body, pace));
    }
}

/// The action is to send audio at once: raw, or where the request asks for it as events, with so
/// long a pause ahead of each.
pub open spec fn speaks(a: ActionModel, pcm: Seq<u8>, body: Tree, pace: u64) -> bool {
    &&& a matches ActionModel::Respond { delay_ms, response }
    &&& delay_ms == 0
    &&& if body.str_at("stream_format"@) == Some("sse"@) {
        exists|frames: Seq<FrameModel>, codes: Seq<Seq<char>>| #[trigger]
            carries_audio(response, pcm, pace, frames, codes)
    } else {
        response == (ResponseModel {
            status: 200,
            content_type: "audio/pcm"@,
            body: response::BodyModel::Buffered(pcm),
        })
    }
}

/// The frames that audio is cut into.
proof fn lemma_cut(pcm: Seq<u8>)
    ensures
        ({
            let pieces = audio::frames_of(pcm);
            &&& forall|i: int| 0 <= i < pieces.len() ==> 0 < (#[trigger] pieces[i]).len() <= 1536
            &&& forall|i: int| 0 <= i < pieces.len() - 1 ==> (#[trigger] pieces[i]).len() == 1536
        }),
    decreases pcm.len(),
{
    if pcm.len() > 1536 {
        let rest = audio::frames_of(pcm.skip(1536));
        lemma_cut(pcm.skip(1536));
        let pieces = audio::frames_of(pcm);
        assert forall|i: int| 0 <= i < pieces.len() implies 0 < (#[trigger] pieces[i]).len()
            <= 1536 by {
            if i > 0 {
                assert(pieces[i] == rest[i - 1]);
            }
        }
        assert forall|i: int| 0 <= i < pieces.len() - 1 implies (#[trigger] pieces[i]).len()
            == 1536 by {
            if i > 0 {
                assert(pieces[i] == rest[i - 1]);
            }
        }
    }
}

/// A streamed reply carries its audio.
proof fn lemma_speech_stream(pcm: Seq<u8>, pace: u64)
    ensures
        exists|frames: Seq<FrameModel>, codes: Seq<Seq<char>>| #[trigger]
            carries_audio(audio::speech_reply(pcm, true, pace), pcm, pace, frames, codes),
{
    let cut = audio::frames_of(pcm);
    let frames = audio::speech_frames(pcm, pace);
    let codes = cut.map_values(|f: Seq<u8>| handlers::base64(f));
    let pieces = codes.map_values(|t: Seq<char>| handlers::decoded(t));
    lemma_cut(pcm);
    assert forall|i: int| 0 <= i < pieces.len() implies #[trigger] pieces[i] == cut[i] by {
        handlers::law_base64_decodes(cut[i]);
    }
    assert(pieces =~= cut);
    audio::law_events_carry_the_audio(pcm);
    assert(cut.map_values(|f: Seq<u8>| handlers::decoded(handlers::base64(f))) =~= pieces);
    assert(audio::together(pieces) == pcm);
    assert(carries_audio(audio::speech_reply(pcm, true, pace), pcm, pace, frames, codes));
}

/// A transcription gives the configured text, the built-in one where none is, or none at all where
/// that is configured; silence is refused where that is configured, and nothing else ever is.
pub proof fn law_transcriptions_give_the_text(
    s: StateModel,
    req: RequestModel,
    at_ms: u64,
    rms: Tree,
)
    requires
        guarantees::goes_to(req, "POST"@, "/v1/audio/transcriptions"@),
    ensures
        ({
            let (after, action) = router::outcome(s, req, at_ms, rms);
            let refused = s.behavior.reject_silent_audio && audio_probe::silent(req.raw);
            &&& after == with_capture(s, after.captures.last())
            &&& refused ==> exists|t: Tree|
                {
                    let e = t.get("error"@)->0;
                    &&& #[trigger] guarantees::says(action, 400, t)
                    &&& t.get("error"@) is Some
                    &&& e.str_at("type"@) == Some("invalid_request_error"@)
                    &&& e.get("code"@) == Some(Tree::Null)
                    &&& e.str_at("message"@) is Some
                }
            &&& !refused ==> exists|t: Tree|
                {
                    &&& #[trigger] guarantees::says(action, 200, t)
                    &&& t.str_at("text"@) == Some(
                        if s.behavior.empty_transcript {
                            Seq::<char>::empty()
                        } else {
                            match s.behavior.transcript {
                                Some(x) => x,
                                None => "this is a test transcription"@,
                            }
                        },
                    )
                }
        }),
{
    lemma_paths();
    let path = audio::TRANSCRIPTIONS_PATH@;
    lemma_families(req.method, path);
    lemma_served(s, req, path, 2, at_ms, rms);
    assert(router::families()[2] == Family::Transcriptions(audio::AudioTranscriptions));
    let action = router::outcome(s, req, at_ms, rms).1;
    reveal_strlit("");
    assert(""@ =~= Seq::<char>::empty());
    if s.behavior.reject_silent_audio && audio_probe::silent(req.raw) {
        reveal_strlit("message");
        reveal_strlit("type");
        reveal_strlit("code");
        assert("message"@.len() == 7 && "type"@.len() == 4 && "code"@.len() == 4);
        assert("type"@[0] == 't' && "code"@[0] == 'c');
        assert(guarantees::says(action, 400, audio::silence_error()));
    } else {
        let t = Tree::Obj(map!["text"@ => Tree::Str(audio::transcript_of(s.behavior))]);
        assert(guarantees::says(action, 200, t));
    }
}

/// The voices of the audio endpoint: the preset is listed, and a sample becomes a voice of the
/// name that it was given, or of a stock name where it was given none. Nothing is remembered.
pub proof fn law_samples_become_voices(s: StateModel, req: RequestModel, at_ms: u64, rms: Tree)
    ensures
        ({
            let (after, action) = router::outcome(s, req, at_ms, rms);
            let name = match audio::field_of(req.body, "name"@) {
                Some(n) => n,
                None => "cloned-voice"@,
            };
            &&& guarantees::goes_to(req, "GET"@, "/v1/audio/voices"@) ==> {
                &&& after == with_capture(s, after.captures.last())
                &&& exists|t: Tree|
                    {
                        &&& #[trigger] guarantees::says(action, 200, t)
                        &&& t.list_at("voices"@) == Some(seq![Tree::Str("alloy"@)])
                    }
            }
            &&& guarantees::goes_to(req, "POST"@, "/v1/audio/voices"@) ==> {
                &&& after == with_capture(s, after.captures.last())
                &&& exists|t: Tree|
                    {
                        &&& #[trigger] guarantees::says(action, 200, t)
                        &&& t.str_at("id"@) == Some(name)
                        &&& t.str_at("name"@) == Some(name)
                        &&& t.str_at("object"@) == Some("voice"@)
                        &&& t.get("created"@) == Some(json::num(0))
                    }
            }
        }),
{
    lemma_paths();
    let path = audio::VOICES_PATH@;
    lemma_families(req.method, path);
    assert(router::families()[3] == Family::Voices(audio::AudioVoices));
    let action = router::outcome(s, req, at_ms, rms).1;
    if guarantees::goes_to(req, "GET"@, path) {
        lemma_served(s, req, path, 3, at_ms, rms);
        let list = json::text_list(seq![audio::DEFAULT_VOICE@]);
        let t = Tree::Obj(map!["voices"@ => list]);
        assert(list->Arr_0 =~= seq![Tree::Str("alloy"@)]);
        assert(guarantees::says(action, 200, t));
    }
    if guarantees::goes_to(req, "POST"@, path) {
        lemma_served(s, req, path, 3, at_ms, rms);
        reveal_strlit("id");
        reveal_strlit("name");
        reveal_strlit("object");
        reveal_strlit("created");
        assert("id"@.len() == 2 && "name"@.len() == 4 && "object"@.len() == 6 && "created"@.len()
            == 7);
        let name = audio::voice_name(req.body);
        let t = Tree::Obj(
            map![
                "id"@ => Tree::Str(name),
                "name"@ => Tree::Str(name),
                "object"@ => Tree::Str("voice"@),
                "created"@ => json::num(0),
            ],
        );
        assert(guarantees::says(action, 200, t));
    }
}

/// The registry lists the preset and then every enrolled voice, in order, each with its format.
pub proof fn law_the_registry_lists_its_voices(
    s: StateModel,
    req: RequestModel,
    at_ms: u64,
    rms: Tree,
)
    requires
        guarantees::goes_to(req, "GET"@, "/v1/voices"@),
    ensures
        ({
            let (after, action) = router::outcome(s, req, at_ms, rms);
            &&& after == with_capture(s, after.captures.last())
            &&& exists|t: Tree|
                {
                    let list = t.list_at("voices"@)->0;
                    &&& #[trigger] guarantees::says(action, 200, t)
                    &&& t.list_at("voices"@) is Some
                    &&& list.len() == s.voices.len() + 1
                    &&& list[0].str_at("name"@) == Some("alloy"@)
                    &&& forall|i: int|
                        0 <= i < s.voices.len() ==> (#[trigger] list[i + 1]).str_at("name"@)
                            == Some(s.voices[i])
                    &&& forall|i: int|
                        0 <= i < list.len() ==> (#[trigger] list[i]).str_at("format"@) == Some(
                            "wav"@,
                        )
                }
        }),
{
    lemma_paths();
    let path = audio::REGISTRY_VOICES_PATH@;
    lemma_families(req.method, path);
    lemma_served(s, req, path, 4, at_ms, rms);
    assert(router::families()[4] == Family::Registry(audio::VoiceRegistry));
    reveal_strlit("name");
    reveal_strlit("format");
    assert("name"@.len() == 4 && "format"@.len() == 6);
    let t = audio::registry_listing(s.voices);
    let names = seq![audio::DEFAULT_VOICE@] + s.voices;
    let list = t.list_at("voices"@)->0;
    assert forall|i: int| 0 <= i < s.voices.len() implies (#[trigger] list[i + 1]).str_at("name"@)
        == Some(s.voices[i]) by {
        assert(names[i + 1] == s.voices[i]);
    }
    assert(guarantees::says(router::outcome(s, req, at_ms, rms).1, 200, t));
}

/// An enrolment wants consent; it wants a name that is free, unless it is forced; and then the
/// voice is one of the voices, all others stay, and the reply tells its name, its format and the
/// size of the upload.
pub proof fn law_voices_are_enrolled(s: StateModel, req: RequestModel, at_ms: u64, rms: Tree)
    requires
        guarantees::goes_to(req, "POST"@, "/v1/voices"@),
        state::sound(s),
    ensures
        ({
            let (after, action) = router::outcome(s, req, at_ms, rms);
            let name = match audio::field_of(req.body, "name"@) {
                Some(n) => n,
                None => "cloned-voice"@,
            };
            let consent = audio::field_of(req.body, "consent_attestation"@) is Some;
            let force = text::occurs(req.path, "force=true"@);
            let free = !s.voices.contains(name) || force;
            &&& after == (StateModel {
                voices: after.voices,
                ..with_capture(s, after.captures.last())
            })
            &&& !consent ==> {
                &&& after.voices == s.voices
                &&& exists|t: Tree|
                    {
                        &&& #[trigger] guarantees::says(action, 400, t)
                        &&& t.str_at("code"@) == Some("consent_required"@)
                        &&& t.str_at("error"@) is Some
                    }
            }
            &&& consent && !free ==> {
                &&& after.voices == s.voices
                &&& exists|t: Tree|
                    {
                        let e = t.get("error"@)->0;
                        &&& #[trigger] guarantees::says(action, 409, t)
                        &&& t.get("error"@) is Some
                        &&& e.str_at("type"@) == Some("invalid_request_error"@)
                        &&& e.str_at("message"@) == Some(
                            "voice '"@ + name + "' already exists; add ?force=true to overwrite"@,
                        )
                    }
            }
            &&& consent && free ==> {
                &&& forall|k: Seq<char>| #[trigger]
                    after.voices.contains(k) <==> s.voices.contains(k) || k == name
                &&& state::ascending(after.voices)
                &&& exists|t: Tree|
                    {
                        &&& #[trigger] guarantees::says(action, 201, t)
                        &&& t.str_at("name"@) == Some(name)
                        &&& t.get("size_bytes"@) == Some(json::num(req.raw.len() as u64))
                        &&& t.str_at("format"@) == Some(audio::upload_format(req.body))
                    }
            }
        }),
{
    lemma_paths();
    let path = audio::REGISTRY_VOICES_PATH@;
    lemma_families(req.method, path);
    lemma_served(s, req, path, 4, at_ms, rms);
    assert(router::families()[4] == Family::Registry(audio::VoiceRegistry));
    let entry = capture::capture_entry(req, at_ms, rms);
    let captured = with_capture(s, entry);
    let (after, action) = router::outcome(s, req, at_ms, rms);
    assert(after == audio::registry_step(captured, req).0);
    let name = audio::voice_name(req.body);
    state::law_voices_stay_in_order(s.voices, name);
    reveal_strlit("name");
    reveal_strlit("format");
    reveal_strlit("size_bytes");
    reveal_strlit("error");
    reveal_strlit("code");
    reveal_strlit("message");
    reveal_strlit("type");
    assert("name"@.len() == 4 && "format"@.len() == 6 && "size_bytes"@.len() == 10);
    assert("error"@.len() == 5 && "code"@.len() == 4 && "message"@.len() == 7 && "type"@.len()
        == 4);
    if audio::field_of(req.body, "consent_attestation"@) is None {
        assert(guarantees::says(action, 400, audio::upload_error()));
    } else if s.voices.contains(name) && !text::occurs(req.path, "force=true"@) {
        assert(guarantees::says(action, 409, audio::taken_error(name)));
    } else {
        let t = Tree::Obj(
            map![
                "name"@ => Tree::Str(name),
                "format"@ => Tree::Str(audio::upload_format(req.body)),
                "size_bytes"@ => json::num(req.raw.len() as u64),
            ],
        );
        assert(guarantees::says(action, 201, t));
    }
}

} // verus!
