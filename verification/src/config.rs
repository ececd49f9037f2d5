//! The command line: what a server can be told, and the models that it reports.

use vstd::prelude::*;

use vstd::string::*;

use crate::behavior::{self, Behavior, BehaviorModel};
use crate::codec::{self, parse_text};
use crate::json::{self, Json, Members, Tree};
use crate::text::{self, same, to_lowercase};

verus! {

/// The model that is reported and echoed, unless others are configured.
pub const DEFAULT_MODEL: &'static str = "fake-model";

/// The owner of a model that names none.
pub const DEFAULT_OWNER: &'static str = "fake-openai";

/// The host that is bound, unless another is configured.
pub const DEFAULT_HOST: &'static str = "127.0.0.1";

/// The members of a model, with the standard ones filled in where they are missing.
pub open spec fn completed(m: Map<Seq<char>, Tree>) -> Map<Seq<char>, Tree> {
    let m = json::filled(m, "object"@, Tree::Str("model"@));
    let m = json::filled(m, "created"@, json::num(0));
    json::filled(m, "owned_by"@, Tree::Str(DEFAULT_OWNER@))
}

/// The model that a value describes: a string is an id; an object is kept where it has a
/// string for its id; anything else is no model.
pub open spec fn model_of(t: Tree) -> Option<Tree> {
    match t {
        Tree::Str(s) => Some(Tree::Obj(completed(map!["id"@ => Tree::Str(s)]))),
        Tree::Obj(m) => if t.str_at("id"@) is Some {
            Some(Tree::Obj(completed(m)))
        } else {
            None
        },
        _ => None,
    }
}

/// The models that a list of values describes; what is no model is left out.
pub open spec fn models_of(list: Seq<Tree>) -> Seq<Tree>
    decreases list.len(),
{
    if list.len() == 0 {
        Seq::empty()
    } else {
        let before = models_of(list.drop_last());
        match model_of(list.last()) {
            Some(m) => before.push(m),
            None => before,
        }
    }
}

/// The model that a value describes.
pub fn normalize_model(v: &Json) -> (r: Option<Json>)
    ensures
        json::tree_opt(r) == model_of(v@),
{
    let m = match v {
        Json::Str(s) => Members::new().with("id", Json::text(s.as_str())),
        Json::Obj(_) => {
            if v.str_at("id").is_none() {
                return None;
            }
            Members::of(v.copy())
        },
        _ => return None,
    };
    Some(
        m.fill("object", Json::text("model")).fill("created", Json::number(0)).fill(
            "owned_by",
            Json::text(DEFAULT_OWNER),
        ).done(),
    )
}

/// The models that a list of values describes.
pub fn normalize_models(list: &Vec<Json>) -> (r: Vec<Json>)
    ensures
        json::trees(r@) == models_of(json::trees(list@)),
{
    let ghost all = json::trees(list@);
    proof {
        json::lemma_trees(list@);
    }
    let mut out: Vec<Json> = Vec::new();
    let mut i: usize = 0;
    assert(all.take(0) =~= Seq::empty());
    while i < list.len()
        invariant
            i <= list.len(),
            all == json::trees(list@),
            all.len() == list.len(),
            forall|j: int| 0 <= j < list.len() ==> #[trigger] all[j] == json::tree(list@[j]),
            json::trees(out@) == models_of(all.take(i as int)),
        decreases list.len() - i,
    {
        assert(all[i as int] == list@[i as int]@);
        assert(all.take(i + 1).drop_last() =~= all.take(i as int));
        if let Some(m) = normalize_model(&list[i]) {
            proof {
                json::lemma_trees_push(out@, m);
            }
            out.push(m);
        }
        i += 1;
    }
    assert(all.take(i as int) =~= all);
    out
}

/// A model that was filled in once is complete: filling it in again changes nothing, and its
/// id is the one that was given.
pub proof fn law_models_are_settled(t: Tree)
    requires
        model_of(t) is Some,
    ensures
        model_of(model_of(t)->0) == model_of(t),
        model_of(t)->0.str_at("id"@) == (match t {
            Tree::Str(s) => Some(s),
            _ => t.str_at("id"@),
        }),
{
    reveal_strlit("id");
    reveal_strlit("object");
    reveal_strlit("created");
    reveal_strlit("owned_by");
    assert("id"@.len() == 2 && "object"@.len() == 6 && "created"@.len() == 7 && "owned_by"@.len()
        == 8);
}

/// Whatever a caller says of a model is reported as given.
pub proof fn law_models_keep_what_was_given(m: Map<Seq<char>, Tree>, key: Seq<char>)
    requires
        Tree::Obj(m).str_at("id"@) is Some,
        m.dom().contains(key),
    ensures
        model_of(Tree::Obj(m))->0.get(key) == Some(m[key]),
{
}

/// What a server can be told on the command line.
#[derive(Clone, Copy)]
pub enum Flag {
    Host,
    Port,
    Responses,
    DefaultResponse,
    Stdin,
    LogFile,
    LogStdout,
    Models,
    ModelsJson,
    StallTools,
    StallSeconds,
    Heartbeat,
    ConsumeTools,
    ConnectDelay,
    ValidateChat,
    ContextWindow,
    CharsPerToken,
    Llamaswap,
    EmptyTranscript,
    SpeechFile,
    SpeechFor,
    Transcript,
    RejectSilent,
    RequireConsent,
}

/// How a flag is written.
pub open spec fn flag_text(f: Flag) -> Seq<char> {
    match f {
        Flag::Host => "--host"@,
        Flag::Port => "--port"@,
        Flag::Responses => "--responses"@,
        Flag::DefaultResponse => "--default-response"@,
        Flag::Stdin => "--stdin"@,
        Flag::LogFile => "--log-file"@,
        Flag::LogStdout => "--log-stdout"@,
        Flag::Models => "--models"@,
        Flag::ModelsJson => "--models-json"@,
        Flag::StallTools => "--stall-first-with-tools"@,
        Flag::StallSeconds => "--stall-seconds"@,
        Flag::Heartbeat => "--heartbeat-sentinel"@,
        Flag::ConsumeTools => "--consume-only-with-tools"@,
        Flag::ConnectDelay => "--connect-delay-ms"@,
        Flag::ValidateChat => "--validate-chat"@,
        Flag::ContextWindow => "--context-window"@,
        Flag::CharsPerToken => "--chars-per-token"@,
        Flag::Llamaswap => "--llamaswap"@,
        Flag::EmptyTranscript => "--empty-transcript"@,
        Flag::SpeechFile => "--speech-file"@,
        Flag::SpeechFor => "--speech-for"@,
        Flag::Transcript => "--transcript"@,
        Flag::RejectSilent => "--reject-silent-audio"@,
        Flag::RequireConsent => "--require-voice-consent"@,
    }
}

/// The flag that a text is.
pub open spec fn flag_of(key: Seq<char>) -> Option<Flag> {
    if key == "--host"@ {
        Some(Flag::Host)
    } else if key == "--port"@ {
        Some(Flag::Port)
    } else if key == "--responses"@ {
        Some(Flag::Responses)
    } else if key == "--default-response"@ {
        Some(Flag::DefaultResponse)
    } else if key == "--stdin"@ {
        Some(Flag::Stdin)
    } else if key == "--log-file"@ {
        Some(Flag::LogFile)
    } else if key == "--log-stdout"@ {
        Some(Flag::LogStdout)
    } else if key == "--models"@ {
        Some(Flag::Models)
    } else if key == "--models-json"@ {
        Some(Flag::ModelsJson)
    } else if key == "--stall-first-with-tools"@ {
        Some(Flag::StallTools)
    } else if key == "--stall-seconds"@ {
        Some(Flag::StallSeconds)
    } else if key == "--heartbeat-sentinel"@ {
        Some(Flag::Heartbeat)
    } else if key == "--consume-only-with-tools"@ {
        Some(Flag::ConsumeTools)
    } else if key == "--connect-delay-ms"@ {
        Some(Flag::ConnectDelay)
    } else if key == "--validate-chat"@ {
        Some(Flag::ValidateChat)
    } else if key == "--context-window"@ {
        Some(Flag::ContextWindow)
    } else if key == "--chars-per-token"@ {
        Some(Flag::CharsPerToken)
    } else if key == "--llamaswap"@ {
        Some(Flag::Llamaswap)
    } else if key == "--empty-transcript"@ {
        Some(Flag::EmptyTranscript)
    } else if key == "--speech-file"@ {
        Some(Flag::SpeechFile)
    } else if key == "--speech-for"@ {
        Some(Flag::SpeechFor)
    } else if key == "--transcript"@ {
        Some(Flag::Transcript)
    } else if key == "--reject-silent-audio"@ {
        Some(Flag::RejectSilent)
    } else if key == "--require-voice-consent"@ {
        Some(Flag::RequireConsent)
    } else {
        None
    }
}

/// The flag is followed by a value.
pub open spec fn takes_value(f: Flag) -> bool {
    match f {
        Flag::Stdin => false,
        Flag::LogStdout => false,
        Flag::StallTools => false,
        Flag::ConsumeTools => false,
        Flag::ValidateChat => false,
        Flag::Llamaswap => false,
        Flag::EmptyTranscript => false,
        Flag::RejectSilent => false,
        Flag::RequireConsent => false,
        _ => true,
    }
}

/// How a flag is written.
fn flag_name(f: Flag) -> (r: &'static str)
    ensures
        r@ == flag_text(f),
{
    match f {
        Flag::Host => "--host",
        Flag::Port => "--port",
        Flag::Responses => "--responses",
        Flag::DefaultResponse => "--default-response",
        Flag::Stdin => "--stdin",
        Flag::LogFile => "--log-file",
        Flag::LogStdout => "--log-stdout",
        Flag::Models => "--models",
        Flag::ModelsJson => "--models-json",
        Flag::StallTools => "--stall-first-with-tools",
        Flag::StallSeconds => "--stall-seconds",
        Flag::Heartbeat => "--heartbeat-sentinel",
        Flag::ConsumeTools => "--consume-only-with-tools",
        Flag::ConnectDelay => "--connect-delay-ms",
        Flag::ValidateChat => "--validate-chat",
        Flag::ContextWindow => "--context-window",
        Flag::CharsPerToken => "--chars-per-token",
        Flag::Llamaswap => "--llamaswap",
        Flag::EmptyTranscript => "--empty-transcript",
        Flag::SpeechFile => "--speech-file",
        Flag::SpeechFor => "--speech-for",
        Flag::Transcript => "--transcript",
        Flag::RejectSilent => "--reject-silent-audio",
        Flag::RequireConsent => "--require-voice-consent",
    }
}

/// The flag that a text is.
fn read_flag(key: &str) -> (r: Option<Flag>)
    ensures
        r == flag_of(key@),
{
    if same(key, "--host") {
        Some(Flag::Host)
    } else if same(key, "--port") {
        Some(Flag::Port)
    } else if same(key, "--responses") {
        Some(Flag::Responses)
    } else if same(key, "--default-response") {
        Some(Flag::DefaultResponse)
    } else if same(key, "--stdin") {
        Some(Flag::Stdin)
    } else if same(key, "--log-file") {
        Some(Flag::LogFile)
    } else if same(key, "--log-stdout") {
        Some(Flag::LogStdout)
    } else if same(key, "--models") {
        Some(Flag::Models)
    } else if same(key, "--models-json") {
        Some(Flag::ModelsJson)
    } else if same(key, "--stall-first-with-tools") {
        Some(Flag::StallTools)
    } else if same(key, "--stall-seconds") {
        Some(Flag::StallSeconds)
    } else if same(key, "--heartbeat-sentinel") {
        Some(Flag::Heartbeat)
    } else if same(key, "--consume-only-with-tools") {
        Some(Flag::ConsumeTools)
    } else if same(key, "--connect-delay-ms") {
        Some(Flag::ConnectDelay)
    } else if same(key, "--validate-chat") {
        Some(Flag::ValidateChat)
    } else if same(key, "--context-window") {
        Some(Flag::ContextWindow)
    } else if same(key, "--chars-per-token") {
        Some(Flag::CharsPerToken)
    } else if same(key, "--llamaswap") {
        Some(Flag::Llamaswap)
    } else if same(key, "--empty-transcript") {
        Some(Flag::EmptyTranscript)
    } else if same(key, "--speech-file") {
        Some(Flag::SpeechFile)
    } else if same(key, "--speech-for") {
        Some(Flag::SpeechFor)
    } else if same(key, "--transcript") {
        Some(Flag::Transcript)
    } else if same(key, "--reject-silent-audio") {
        Some(Flag::RejectSilent)
    } else if same(key, "--require-voice-consent") {
        Some(Flag::RequireConsent)
    } else {
        None
    }
}

/// Whether the flag is followed by a value.
fn wants_value(f: Flag) -> (r: bool)
    ensures
        r == takes_value(f),
{
    match f {
        Flag::Stdin => false,
        Flag::LogStdout => false,
        Flag::StallTools => false,
        Flag::ConsumeTools => false,
        Flag::ValidateChat => false,
        Flag::Llamaswap => false,
        Flag::EmptyTranscript => false,
        Flag::RejectSilent => false,
        Flag::RequireConsent => false,
        _ => true,
    }
}

/// What the command line says.
pub struct Config {
    pub host: String,
    pub port: u16,
    pub responses_file: Option<String>,
    /// What is answered when the queue is empty.
    pub default_response: Option<Json>,
    pub stdin: bool,
    pub log_file: Option<String>,
    pub log_stdout: bool,
    pub models: Vec<Json>,
    pub behavior: Behavior,
    /// A wav or raw file that is spoken in place of the built-in audio.
    pub speech_file: Option<String>,
    /// Files that are spoken where the text to speak holds a match, each with its match in
    /// lower case.
    pub speech_for: Vec<(String, String)>,
}

/// What a configuration holds.
pub struct ConfigModel {
    pub host: Seq<char>,
    pub port: u16,
    pub responses_file: Option<Seq<char>>,
    pub default_response: Option<Tree>,
    pub stdin: bool,
    pub log_file: Option<Seq<char>>,
    pub log_stdout: bool,
    pub models: Seq<Tree>,
    pub behavior: BehaviorModel,
    pub speech_file: Option<Seq<char>>,
    pub speech_for: Seq<(Seq<char>, Seq<char>)>,
}

/// The texts of a list of pairs.
pub open spec fn pair_texts(v: Seq<(String, String)>) -> Seq<(Seq<char>, Seq<char>)> {
    v.map_values(|p: (String, String)| (p.0@, p.1@))
}

impl View for Config {
    type V = ConfigModel;

    open spec fn view(&self) -> ConfigModel {
        ConfigModel {
            host: self.host@,
            port: self.port,
            responses_file: json::text_opt(self.responses_file),
            default_response: json::tree_opt(self.default_response),
            stdin: self.stdin,
            log_file: json::text_opt(self.log_file),
            log_stdout: self.log_stdout,
            models: json::trees(self.models@),
            behavior: self.behavior@,
            speech_file: json::text_opt(self.speech_file),
            speech_for: pair_texts(self.speech_for@),
        }
    }
}

/// The values of a list of names: each without the white space around it, the empty ones left
/// out.
pub open spec fn named_models(names: Seq<Seq<char>>) -> Seq<Tree>
    decreases names.len(),
{
    if names.len() == 0 {
        Seq::empty()
    } else {
        let before = named_models(names.drop_last());
        let name = text::trim_of(names.last());
        if name.len() == 0 {
            before
        } else {
            before.push(model_of(Tree::Str(name))->0)
        }
    }
}

/// The models that a list of ids with commas between them names.
pub open spec fn listed_models(s: Seq<char>) -> Seq<Tree> {
    named_models(text::split_of(s, ','))
}

/// The models that a list of ids names.
fn parse_models(s: &str) -> (r: Vec<Json>)
    ensures
        json::trees(r@) == listed_models(s@),
{
    let names = text::split(s, ',');
    let ghost all = text::texts(names@);
    let mut out: Vec<Json> = Vec::new();
    let mut i: usize = 0;
    assert(all.take(0) =~= Seq::empty());
    while i < names.len()
        invariant
            i <= names.len(),
            all == text::texts(names@),
            json::trees(out@) == named_models(all.take(i as int)),
        decreases names.len() - i,
    {
        assert(all.take(i + 1).drop_last() =~= all.take(i as int));
        assert(all.take(i + 1).last() == names@[i as int]@);
        let name = text::trim(names[i].as_str());
        if !name.is_empty() {
            if let Some(m) = normalize_model(&Json::text(name)) {
                proof {
                    json::lemma_trees_push(out@, m);
                }
                out.push(m);
            }
        }
        i += 1;
    }
    assert(all.take(i as int) =~= all);
    out
}

/// The configuration of a server that was told nothing.
pub open spec fn default_config() -> ConfigModel {
    ConfigModel {
        host: DEFAULT_HOST@,
        port: 0,
        responses_file: None,
        default_response: None,
        stdin: false,
        log_file: None,
        log_stdout: false,
        models: listed_models(DEFAULT_MODEL@),
        behavior: behavior::default_behavior(),
        speech_file: None,
        speech_for: Seq::empty(),
    }
}

impl Default for Config {
    fn default() -> (r: Config)
        ensures
            r@ == default_config(),
    {
        let r = Config {
            host: DEFAULT_HOST.to_owned(),
            port: 0,
            responses_file: None,
            default_response: None,
            stdin: false,
            log_file: None,
            log_stdout: false,
            models: parse_models(DEFAULT_MODEL),
            behavior: Behavior::default(),
            speech_file: None,
            speech_for: Vec::new(),
        };
        assert(r@.speech_for =~= Seq::empty());
        r
    }
}

/// The configuration with one part of its behavior changed.
pub open spec fn behaving(c: ConfigModel, b: BehaviorModel) -> ConfigModel {
    ConfigModel { behavior: b, ..c }
}

/// The configuration after a flag without a value.
pub open spec fn switched(c: ConfigModel, f: Flag) -> ConfigModel {
    let b = c.behavior;
    match f {
        Flag::Stdin => ConfigModel { stdin: true, ..c },
        Flag::LogStdout => ConfigModel { log_stdout: true, ..c },
        Flag::StallTools => behaving(
            c,
            BehaviorModel { stall_first_with_tools: true, ..b },
        ),
        Flag::ConsumeTools => behaving(
            c,
            BehaviorModel { consume_only_with_tools: true, ..b },
        ),
        Flag::ValidateChat => behaving(
            c,
            BehaviorModel { validate_chat: true, ..b },
        ),
        Flag::Llamaswap => behaving(
            c,
            BehaviorModel { llamaswap: true, ..b },
        ),
        Flag::EmptyTranscript => behaving(
            c,
            BehaviorModel { empty_transcript: true, ..b },
        ),
        Flag::RejectSilent => behaving(
            c,
            BehaviorModel { reject_silent_audio: true, ..b },
        ),
        Flag::RequireConsent => behaving(
            c,
            BehaviorModel { require_voice_consent: true, ..b },
        ),
        _ => c,
    }
}

/// The complaint about a value that is no number.
pub open spec fn bad_number(f: Flag, v: Seq<char>) -> Seq<char> {
    flag_text(f) + ": invalid number '"@ + v + "'"@
}

/// The complaint about a value that is no JSON.
pub open spec fn bad_json(f: Flag, e: Seq<char>) -> Seq<char> {
    flag_text(f) + ": invalid json: "@ + e
}

/// The configuration after a flag whose value is a number of 64 bits.
pub open spec fn counted(c: ConfigModel, f: Flag, n: u64) -> ConfigModel {
    let b = c.behavior;
    match f {
        Flag::StallSeconds => behaving(c, BehaviorModel { stall_seconds: n, ..b }),
        Flag::ConnectDelay => behaving(c, BehaviorModel { connect_delay_ms: n, ..b }),
        Flag::ContextWindow => behaving(c, BehaviorModel { context_window: Some(n), ..b }),
        Flag::CharsPerToken => behaving(c, BehaviorModel { chars_per_token: n, ..b }),
        _ => c,
    }
}

/// The flag's value is a number of 64 bits.
pub open spec fn takes_count(f: Flag) -> bool {
    match f {
        Flag::StallSeconds => true,
        Flag::ConnectDelay => true,
        Flag::ContextWindow => true,
        Flag::CharsPerToken => true,
        _ => false,
    }
}

/// The configuration after a flag with its value, or the complaint about the value.
pub open spec fn valued(c: ConfigModel, f: Flag, v: Seq<char>) -> Result<ConfigModel, Seq<char>> {
    let b = c.behavior;
    if takes_count(f) {
        match text::count_of(v, u64::MAX) {
            Some(n) => Ok(counted(c, f, n)),
            None => Err(bad_number(f, v)),
        }
    } else {
        match f {
            Flag::Host => Ok(ConfigModel { host: v, ..c }),
            Flag::Port => match text::count_of(v, u16::MAX as u64) {
                Some(n) => Ok(ConfigModel { port: n as u16, ..c }),
                None => Err(bad_number(f, v)),
            },
            Flag::Responses => Ok(ConfigModel { responses_file: Some(v), ..c }),
            Flag::DefaultResponse => match codec::read_text(v) {
                Ok(t) => Ok(ConfigModel { default_response: Some(t), ..c }),
                Err(e) => Err(bad_json(f, e)),
            },
            Flag::LogFile => Ok(ConfigModel { log_file: Some(v), ..c }),
            Flag::Models => Ok(ConfigModel { models: listed_models(v), ..c }),
            Flag::ModelsJson => match codec::read_text(v) {
                Ok(Tree::Arr(a)) => Ok(ConfigModel { models: models_of(a), ..c }),
                Ok(_) => Err("--models-json: expected a json array"@),
                Err(e) => Err(bad_json(f, e)),
            },
            Flag::Heartbeat => Ok(
                behaving(c, BehaviorModel { heartbeat_sentinel: v, ..b }),
            ),
            Flag::SpeechFile => Ok(ConfigModel { speech_file: Some(v), ..c }),
            Flag::SpeechFor => match text::after_of(v, "="@) {
                Some(path) => Ok(
                    ConfigModel {
                        speech_for: c.speech_for.push(
                            (text::lowercase(text::before_of(v, "="@)), path),
                        ),
                        ..c
                    },
                ),
                None => Err("--speech-for: expected <match>=<path>"@),
            },
            Flag::Transcript => Ok(behaving(c, BehaviorModel { transcript: Some(v), ..b })),
            _ => Ok(c),
        }
    }
}

/// The configuration after a row of arguments, or the first complaint.
pub open spec fn parsed(c: ConfigModel, args: Seq<Seq<char>>) -> Result<ConfigModel, Seq<char>>
    decreases args.len(),
{
    if args.len() == 0 {
        Ok(c)
    } else {
        let key = text::before_of(args[0], "="@);
        match flag_of(key) {
            None => Err("unknown flag: "@ + key),
            Some(f) => if !takes_value(f) {
                parsed(switched(c, f), args.skip(1))
            } else {
                match text::after_of(args[0], "="@) {
                    Some(v) => match valued(c, f, v) {
                        Ok(d) => parsed(d, args.skip(1)),
                        Err(e) => Err(e),
                    },
                    None => if args.len() == 1 {
                        Err(flag_text(f) + ": requires a value"@)
                    } else {
                        match valued(c, f, args[1]) {
                            Ok(d) => parsed(d, args.skip(2)),
                            Err(e) => Err(e),
                        }
                    },
                }
            },
        }
    }
}

/// Two texts, one after the other.
fn concat(a: &str, b: &str) -> (r: String)
    ensures
        r@ == a@ + b@,
{
    let mut s = a.to_owned();
    s.append(b);
    s
}

/// The number that a value is.
fn parse_num(v: &str, f: Flag, max: u64) -> (r: Result<u64, String>)
    ensures
        match r {
            Ok(n) => text::count_of(v@, max) == Some(n),
            Err(e) => text::count_of(v@, max) is None && e@ == bad_number(f, v@),
        },
{
    match text::parse_count(v, max) {
        Some(n) => Ok(n),
        None => {
            let mut e = concat(flag_name(f), ": invalid number '");
            e.append(v);
            e.append("'");
            Err(e)
        },
    }
}

/// The JSON value that a value spells.
fn parse_json(v: &str, f: Flag) -> (r: Result<Json, String>)
    ensures
        match r {
            Ok(j) => codec::read_text(v@) == Ok::<Tree, Seq<char>>(j@),
            Err(e) => codec::read_text(v@) is Err && e@ == bad_json(
                f,
                codec::read_text(v@)->Err_0,
            ),
        },
{
    match parse_text(v) {
        Ok(j) => Ok(j),
        Err(e) => {
            let mut s = concat(flag_name(f), ": invalid json: ");
            s.append(e.as_str());
            Err(s)
        },
    }
}

impl Config {
    /// Takes in a flag without a value.
    fn switch(&mut self, f: Flag)
        ensures
            final(self)@ == switched(old(self)@, f),
    {
        match f {
            Flag::Stdin => self.stdin = true,
            Flag::LogStdout => self.log_stdout = true,
            Flag::StallTools => self.behavior.stall_first_with_tools = true,
            Flag::ConsumeTools => self.behavior.consume_only_with_tools = true,
            Flag::ValidateChat => self.behavior.validate_chat = true,
            Flag::Llamaswap => self.behavior.llamaswap = true,
            Flag::EmptyTranscript => self.behavior.empty_transcript = true,
            Flag::RejectSilent => self.behavior.reject_silent_audio = true,
            Flag::RequireConsent => self.behavior.require_voice_consent = true,
            _ => {},
        }
    }

    /// Takes in a flag whose value is a number of 64 bits.
    fn count(&mut self, f: Flag, n: u64)
        ensures
            final(self)@ == counted(old(self)@, f, n),
    {
        match f {
            Flag::StallSeconds => self.behavior.stall_seconds = n,
            Flag::ConnectDelay => self.behavior.connect_delay_ms = n,
            Flag::ContextWindow => self.behavior.context_window = Some(n),
            Flag::CharsPerToken => self.behavior.chars_per_token = n,
            _ => {},
        }
    }

    /// Takes in a flag with its value.
    fn set(&mut self, f: Flag, v: &str) -> (r: Result<(), String>)
        ensures
            match r {
                Ok(_) => valued(old(self)@, f, v@) == Ok::<ConfigModel, Seq<char>>(final(self)@),
                Err(e) => valued(old(self)@, f, v@) == Err::<ConfigModel, Seq<char>>(e@),
            },
    {
        match f {
            Flag::StallSeconds | Flag::ConnectDelay | Flag::ContextWindow
            | Flag::CharsPerToken => {
                let n: u64 = match parse_num(v, f, u64::MAX) {
                    Ok(n) => n,
                    Err(e) => return Err(e),
                };
                self.count(f, n);
            },
            Flag::Host => self.host = v.to_owned(),
            Flag::Port => {
                let n: u64 = match parse_num(v, f, u16::MAX as u64) {
                    Ok(n) => n,
                    Err(e) => return Err(e),
                };
                self.port = n as u16;
            },
            Flag::Responses => self.responses_file = Some(v.to_owned()),
            Flag::DefaultResponse => {
                let j = match parse_json(v, f) {
                    Ok(j) => j,
                    Err(e) => return Err(e),
                };
                self.default_response = Some(j);
            },
            Flag::LogFile => self.log_file = Some(v.to_owned()),
            Flag::Models => self.models = parse_models(v),
            Flag::ModelsJson => {
                let j = match parse_json(v, f) {
                    Ok(j) => j,
                    Err(e) => return Err(e),
                };
                match j.as_list() {
                    Some(list) => self.models = normalize_models(list),
                    None => return Err("--models-json: expected a json array".to_owned()),
                }
            },
            Flag::Heartbeat => self.behavior.heartbeat_sentinel = v.to_owned(),
            Flag::SpeechFile => self.speech_file = Some(v.to_owned()),
            Flag::SpeechFor => {
                let path = match text::after(v, "=") {
                    Some(p) => p.to_owned(),
                    None => return Err("--speech-for: expected <match>=<path>".to_owned()),
                };
                self.speech_for.push((to_lowercase(text::before(v, "=")), path));
                assert(self@.speech_for =~= valued(old(self)@, f, v@)->Ok_0.speech_for);
            },
            Flag::Transcript => self.behavior.transcript = Some(v.to_owned()),
            _ => {},
        }
        Ok(())
    }
}

/// Reads the command line.
pub fn parse_args(args: Vec<String>) -> (r: Result<Config, String>)
    ensures
        match r {
            Ok(c) => parsed(default_config(), text::texts(args@)) == Ok::<
                ConfigModel,
                Seq<char>,
            >(c@),
            Err(e) => parsed(default_config(), text::texts(args@)) == Err::<
                ConfigModel,
                Seq<char>,
            >(e@),
        },
{
    let ghost all = text::texts(args@);
    let ghost result = parsed(default_config(), all);
    let mut c = Config::default();
    let mut i: usize = 0;
    assert(all.skip(0) =~= all);
    while i < args.len()
        invariant
            i <= args.len(),
            all == text::texts(args@),
            result == parsed(default_config(), all),
            result == parsed(c@, all.skip(i as int)),
        decreases args.len() - i,
    {
        let ghost left = all.skip(i as int);
        assert(left[0] == args@[i as int]@);
        assert(left.skip(1) =~= all.skip(i + 1));
        let arg = args[i].as_str();
        let key = text::before(arg, "=");
        let f = match read_flag(key) {
            Some(f) => f,
            None => return Err(concat("unknown flag: ", key)),
        };
        if !wants_value(f) {
            c.switch(f);
            i += 1;
            continue ;
        }
        match text::after(arg, "=") {
            Some(v) => {
                if let Err(e) = c.set(f, v) {
                    return Err(e);
                }
                i += 1;
            },
            None => {
                if args.len() - i == 1 {
                    return Err(concat(flag_name(f), ": requires a value"));
                }
                assert(left[1] == args@[i + 1]@);
                assert(left.skip(2) =~= all.skip(i + 2));
                if let Err(e) = c.set(f, args[i + 1].as_str()) {
                    return Err(e);
                }
                i += 2;
            },
        }
    }
    assert(all.skip(i as int) =~= Seq::empty());
    Ok(c)
}

/// What stands ahead of the flags in the help.
pub const USAGE_HEAD: &'static str = "fake-openai - standalone programmable openai-compatible mock\n\nusage: fake-openai [flags]\n\nflags:\n";

/// What the help says of the flag that shows it.
pub const HELP_REST: &'static str = "                   show this help\n";

/// What stands behind the flags in the help.
pub const USAGE_TAIL: &'static str = "\non startup prints: base_url=http://<host>:<port>/v1\n";

/// What the help says of a flag: its value, if it takes one, and what it does.
pub open spec fn help_rest(f: Flag) -> Seq<char> {
    match f {
        Flag::Host => "<addr>             bind host (default 127.0.0.1)\n"@,
        Flag::Port => "<n>                bind port, 0 = free port (default 0)\n"@,
        Flag::Responses => "<path>        load response specs (json array/object or jsonl)\n"@,
        Flag::DefaultResponse => "<json> response when the queue is empty (default: ok stream)\n"@,
        Flag::Stdin => "                  read response specs as jsonl from stdin\n"@,
        Flag::Models => "<a,b,...>        model ids reported by /v1/models (default fake-model)\n"@,
        Flag::ModelsJson => "<json>      model objects for /v1/models, with metadata (array)\n"@,
        Flag::LogFile => "<path>         append captured requests as jsonl\n"@,
        Flag::LogStdout => "             emit captured requests as jsonl to stdout\n"@,
        Flag::StallTools => " stall the first tools-bearing request\n"@,
        Flag::StallSeconds => "<n>       stall duration in seconds (default 5)\n"@,
        Flag::Heartbeat => "<s>  sentinel that exempts heartbeats (default [heartbeat])\n"@,
        Flag::ConsumeTools => "only tools-bearing chat requests pop the queue\n"@,
        Flag::ConnectDelay => "<n>    delay every non-admin request before any bytes\n"@,
        Flag::ValidateChat => "          reject malformed/unauthenticated chat requests\n"@,
        Flag::ContextWindow => "<n>      derive usage from request size; 400 when it exceeds n\n"@,
        Flag::CharsPerToken => "<n>     characters per token for the derived usage (default 4)\n"@,
        Flag::Llamaswap => "              serve llama-swap's /upstream/<model>/v1/* and aliases\n"@,
        Flag::EmptyTranscript => "       transcriptions answer {\"text\": \"\"} (a silent clip)\n"@,
        Flag::Transcript => "<text>       transcriptions answer this text instead of the built-in one\n"@,
        Flag::RejectSilent => "    reject a transcription whose audio is silent\n"@,
        Flag::RequireConsent => "  reject speech in a cloned voice without a consent attestation\n"@,
        Flag::SpeechFile => "<path>      /v1/audio/speech serves this wav/pcm instead of the ramp,\n                          so a client receives real SPEECH over the real path\n"@,
        Flag::SpeechFor => "<match>=<path> serve this wav/pcm where the text to speak holds the match\n"@,
    }
}

/// How the entry of a flag in the help begins.
pub open spec fn help_start(flag: Seq<char>) -> Seq<char> {
    "  "@ + flag + " "@
}

/// The flags in the order in which the help lists them.
pub open spec fn listed_flags() -> Seq<Flag> {
    seq![
        Flag::Host,
        Flag::Port,
        Flag::Responses,
        Flag::DefaultResponse,
        Flag::Stdin,
        Flag::Models,
        Flag::ModelsJson,
        Flag::LogFile,
        Flag::LogStdout,
        Flag::StallTools,
        Flag::StallSeconds,
        Flag::Heartbeat,
        Flag::ConsumeTools,
        Flag::ConnectDelay,
        Flag::ValidateChat,
        Flag::ContextWindow,
        Flag::CharsPerToken,
        Flag::Llamaswap,
        Flag::EmptyTranscript,
        Flag::Transcript,
        Flag::RejectSilent,
        Flag::RequireConsent,
        Flag::SpeechFile,
        Flag::SpeechFor,
    ]
}

/// The entries of a row of flags.
pub open spec fn entries(fs: Seq<Flag>) -> Seq<char>
    decreases fs.len(),
{
    if fs.len() == 0 {
        Seq::<char>::empty()
    } else {
        entries(fs.drop_last()) + help_start(flag_text(fs.last())) + help_rest(fs.last())
    }
}

/// The text that `--help` shows: an entry for each flag.
pub open spec fn usage_text() -> Seq<char> {
    USAGE_HEAD@ + entries(listed_flags()) + help_start("--help"@) + HELP_REST@ + USAGE_TAIL@
}

/// What the help says of a flag.
fn flag_help(f: Flag) -> (r: &'static str)
    ensures
        r@ == help_rest(f),
{
    match f {
        Flag::Host => "<addr>             bind host (default 127.0.0.1)\n",
        Flag::Port => "<n>                bind port, 0 = free port (default 0)\n",
        Flag::Responses => "<path>        load response specs (json array/object or jsonl)\n",
        Flag::DefaultResponse => "<json> response when the queue is empty (default: ok stream)\n",
        Flag::Stdin => "                  read response specs as jsonl from stdin\n",
        Flag::Models => "<a,b,...>        model ids reported by /v1/models (default fake-model)\n",
        Flag::ModelsJson => "<json>      model objects for /v1/models, with metadata (array)\n",
        Flag::LogFile => "<path>         append captured requests as jsonl\n",
        Flag::LogStdout => "             emit captured requests as jsonl to stdout\n",
        Flag::StallTools => " stall the first tools-bearing request\n",
        Flag::StallSeconds => "<n>       stall duration in seconds (default 5)\n",
        Flag::Heartbeat => "<s>  sentinel that exempts heartbeats (default [heartbeat])\n",
        Flag::ConsumeTools => "only tools-bearing chat requests pop the queue\n",
        Flag::ConnectDelay => "<n>    delay every non-admin request before any bytes\n",
        Flag::ValidateChat => "          reject malformed/unauthenticated chat requests\n",
        Flag::ContextWindow => "<n>      derive usage from request size; 400 when it exceeds n\n",
        Flag::CharsPerToken => "<n>     characters per token for the derived usage (default 4)\n",
        Flag::Llamaswap => "              serve llama-swap's /upstream/<model>/v1/* and aliases\n",
        Flag::EmptyTranscript => "       transcriptions answer {\"text\": \"\"} (a silent clip)\n",
        Flag::Transcript => "<text>       transcriptions answer this text instead of the built-in one\n",
        Flag::RejectSilent => "    reject a transcription whose audio is silent\n",
        Flag::RequireConsent => "  reject speech in a cloned voice without a consent attestation\n",
        Flag::SpeechFile => "<path>      /v1/audio/speech serves this wav/pcm instead of the ramp,\n                          so a client receives real SPEECH over the real path\n",
        Flag::SpeechFor => "<match>=<path> serve this wav/pcm where the text to speak holds the match\n",
    }
}

/// Adds the entry of a flag.
fn push_entry(u: &mut String, flag: &str, rest: &str)
    ensures
        final(u)@ == old(u)@ + help_start(flag@) + rest@,
{
    u.append("  ");
    u.append(flag);
    u.append(" ");
    u.append(rest);
    assert(u@ =~= old(u)@ + help_start(flag@) + rest@);
}

/// The text that `--help` shows.
pub fn usage() -> (r: String)
    ensures
        r@ == usage_text(),
{
    let flags = [
        Flag::Host,
        Flag::Port,
        Flag::Responses,
        Flag::DefaultResponse,
        Flag::Stdin,
        Flag::Models,
        Flag::ModelsJson,
        Flag::LogFile,
        Flag::LogStdout,
        Flag::StallTools,
        Flag::StallSeconds,
        Flag::Heartbeat,
        Flag::ConsumeTools,
        Flag::ConnectDelay,
        Flag::ValidateChat,
        Flag::ContextWindow,
        Flag::CharsPerToken,
        Flag::Llamaswap,
        Flag::EmptyTranscript,
        Flag::Transcript,
        Flag::RejectSilent,
        Flag::RequireConsent,
        Flag::SpeechFile,
        Flag::SpeechFor,
    ];
    assert(flags@ =~= listed_flags());
    let mut u = USAGE_HEAD.to_owned();
    let mut i: usize = 0;
    assert(flags@.take(0) =~= Seq::empty());
    assert(u@ =~= USAGE_HEAD@ + entries(flags@.take(0)));
    while i < flags.len()
        invariant
            i <= flags.len(),
            u@ == USAGE_HEAD@ + entries(flags@.take(i as int)),
        decreases flags.len() - i,
    {
        push_entry(&mut u, flag_name(flags[i]), flag_help(flags[i]));
        proof {
            let now = flags@.take(i + 1);
            assert(now.drop_last() =~= flags@.take(i as int));
            assert(u@ =~= USAGE_HEAD@ + entries(now));
        }
        i += 1;
    }
    assert(flags@.take(i as int) =~= flags@);
    push_entry(&mut u, "--help", HELP_REST);
    u.append(USAGE_TAIL);
    u
}

/// Some line of a text begins so.
pub open spec fn has_line(s: Seq<char>, start: Seq<char>) -> bool {
    exists|i: int| #[trigger] line_at(s, start, i)
}

/// A line that begins so stands at a place.
pub open spec fn line_at(s: Seq<char>, start: Seq<char>, i: int) -> bool {
    text::occurs_at(s, start, i) && (i == 0 || s[i - 1] == '\n')
}

/// A line that a text has, it has with more text behind it.
proof fn lemma_line_kept(s: Seq<char>, more: Seq<char>, start: Seq<char>)
    requires
        has_line(s, start),
    ensures
        has_line(s + more, start),
{
    let i = choose|i: int| #[trigger] line_at(s, start, i);
    assert((s + more).subrange(i, i + start.len()) =~= s.subrange(i, i + start.len()));
    assert(line_at(s + more, start, i));
}

/// What is put behind the end of a line begins a line.
proof fn lemma_line_begun(s: Seq<char>, start: Seq<char>)
    requires
        s.len() > 0,
        s.last() == '\n',
    ensures
        has_line(s + start, start),
{
    assert((s + start).subrange(s.len() as int, (s.len() + start.len()) as int) =~= start);
    assert(line_at(s + start, start, s.len() as int));
}

/// What the help says of a flag ends its line.
proof fn lemma_help_ends(f: Flag)
    ensures
        help_rest(f).len() > 0,
        help_rest(f).last() == '\n',
{
    match f {
        Flag::Host => {
            reveal_strlit("<addr>             bind host (default 127.0.0.1)\n");
            assert("<addr>             bind host (default 127.0.0.1)\n"@.len() == 49);
        },
        Flag::Port => {
            reveal_strlit("<n>                bind port, 0 = free port (default 0)\n");
            assert("<n>                bind port, 0 = free port (default 0)\n"@.len() == 56);
        },
        Flag::Responses => {
            reveal_strlit("<path>        load response specs (json array/object or jsonl)\n");
            assert("<path>        load response specs (json array/object or jsonl)\n"@.len() == 63);
        },
        Flag::DefaultResponse => {
            reveal_strlit("<json> response when the queue is empty (default: ok stream)\n");
            assert("<json> response when the queue is empty (default: ok stream)\n"@.len() == 61);
        },
        Flag::Stdin => {
            reveal_strlit("                  read response specs as jsonl from stdin\n");
            assert("                  read response specs as jsonl from stdin\n"@.len() == 58);
        },
        Flag::Models => {
            reveal_strlit("<a,b,...>        model ids reported by /v1/models (default fake-model)\n");
            assert("<a,b,...>        model ids reported by /v1/models (default fake-model)\n"@.len() == 71);
        },
        Flag::ModelsJson => {
            reveal_strlit("<json>      model objects for /v1/models, with metadata (array)\n");
            assert("<json>      model objects for /v1/models, with metadata (array)\n"@.len() == 64);
        },
        Flag::LogFile => {
            reveal_strlit("<path>         append captured requests as jsonl\n");
            assert("<path>         append captured requests as jsonl\n"@.len() == 49);
        },
        Flag::LogStdout => {
            reveal_strlit("             emit captured requests as jsonl to stdout\n");
            assert("             emit captured requests as jsonl to stdout\n"@.len() == 55);
        },
        Flag::StallTools => {
            reveal_strlit(" stall the first tools-bearing request\n");
            assert(" stall the first tools-bearing request\n"@.len() == 39);
        },
        Flag::StallSeconds => {
            reveal_strlit("<n>       stall duration in seconds (default 5)\n");
            assert("<n>       stall duration in seconds (default 5)\n"@.len() == 48);
        },
        Flag::Heartbeat => {
            reveal_strlit("<s>  sentinel that exempts heartbeats (default [heartbeat])\n");
            assert("<s>  sentinel that exempts heartbeats (default [heartbeat])\n"@.len() == 60);
        },
        Flag::ConsumeTools => {
            reveal_strlit("only tools-bearing chat requests pop the queue\n");
            assert("only tools-bearing chat requests pop the queue\n"@.len() == 47);
        },
        Flag::ConnectDelay => {
            reveal_strlit("<n>    delay every non-admin request before any bytes\n");
            assert("<n>    delay every non-admin request before any bytes\n"@.len() == 54);
        },
        Flag::ValidateChat => {
            reveal_strlit("          reject malformed/unauthenticated chat requests\n");
            assert("          reject malformed/unauthenticated chat requests\n"@.len() == 57);
        },
        Flag::ContextWindow => {
            reveal_strlit("<n>      derive usage from request size; 400 when it exceeds n\n");
            assert("<n>      derive usage from request size; 400 when it exceeds n\n"@.len() == 63);
        },
        Flag::CharsPerToken => {
            reveal_strlit("<n>     characters per token for the derived usage (default 4)\n");
            assert("<n>     characters per token for the derived usage (default 4)\n"@.len() == 63);
        },
        Flag::Llamaswap => {
            reveal_strlit("              serve llama-swap's /upstream/<model>/v1/* and aliases\n");
            assert("              serve llama-swap's /upstream/<model>/v1/* and aliases\n"@.len() == 68);
        },
        Flag::EmptyTranscript => {
            reveal_strlit("       transcriptions answer {\"text\": \"\"} (a silent clip)\n");
            assert("       transcriptions answer {\"text\": \"\"} (a silent clip)\n"@.len() == 58);
        },
        Flag::Transcript => {
            reveal_strlit("<text>       transcriptions answer this text instead of the built-in one\n");
            assert("<text>       transcriptions answer this text instead of the built-in one\n"@.len() == 73);
        },
        Flag::RejectSilent => {
            reveal_strlit("    reject a transcription whose audio is silent\n");
            assert("    reject a transcription whose audio is silent\n"@.len() == 49);
        },
        Flag::RequireConsent => {
            reveal_strlit("  reject speech in a cloned voice without a consent attestation\n");
            assert("  reject speech in a cloned voice without a consent attestation\n"@.len() == 64);
        },
        Flag::SpeechFile => {
            reveal_strlit("<path>      /v1/audio/speech serves this wav/pcm instead of the ramp,\n                          so a client receives real SPEECH over the real path\n");
            assert("<path>      /v1/audio/speech serves this wav/pcm instead of the ramp,\n                          so a client receives real SPEECH over the real path\n"@.len() == 148);
        },
        Flag::SpeechFor => {
            reveal_strlit("<match>=<path> serve this wav/pcm where the text to speak holds the match\n");
            assert("<match>=<path> serve this wav/pcm where the text to speak holds the match\n"@.len() == 74);
        },
    }
}

/// Behind the end of a line, the entries of a row of flags end a line, and each begins one.
proof fn lemma_entries(ahead: Seq<char>, fs: Seq<Flag>)
    requires
        ahead.len() > 0,
        ahead.last() == '\n',
    ensures
        (ahead + entries(fs)).last() == '\n',
        forall|k: int|
            0 <= k < fs.len() ==> has_line(
                ahead + entries(fs),
                help_start(flag_text(#[trigger] fs[k])),
            ),
    decreases fs.len(),
{
    if fs.len() == 0 {
        assert(ahead + entries(fs) =~= ahead);
    } else {
        let rest = fs.drop_last();
        let f = fs.last();
        lemma_entries(ahead, rest);
        lemma_help_ends(f);
        let before = ahead + entries(rest);
        let start = help_start(flag_text(f));
        let whole = ahead + entries(fs);
        assert(whole =~= before + start + help_rest(f));
        assert(whole =~= before + (start + help_rest(f)));
        lemma_line_begun(before, start);
        lemma_line_kept(before + start, help_rest(f), start);
        assert forall|k: int| 0 <= k < fs.len() implies has_line(
            whole,
            help_start(flag_text(#[trigger] fs[k])),
        ) by {
            if k < rest.len() {
                assert(rest[k] == fs[k]);
                lemma_line_kept(before, start + help_rest(f), help_start(flag_text(rest[k])));
            }
        }
    }
}

/// Where the help lists a flag.
proof fn lemma_listed(f: Flag) -> (k: int)
    ensures
        0 <= k < listed_flags().len(),
        listed_flags()[k] == f,
{
    match f {
        Flag::Host => 0,
        Flag::Port => 1,
        Flag::Responses => 2,
        Flag::DefaultResponse => 3,
        Flag::Stdin => 4,
        Flag::Models => 5,
        Flag::ModelsJson => 6,
        Flag::LogFile => 7,
        Flag::LogStdout => 8,
        Flag::StallTools => 9,
        Flag::StallSeconds => 10,
        Flag::Heartbeat => 11,
        Flag::ConsumeTools => 12,
        Flag::ConnectDelay => 13,
        Flag::ValidateChat => 14,
        Flag::ContextWindow => 15,
        Flag::CharsPerToken => 16,
        Flag::Llamaswap => 17,
        Flag::EmptyTranscript => 18,
        Flag::Transcript => 19,
        Flag::RejectSilent => 20,
        Flag::RequireConsent => 21,
        Flag::SpeechFile => 22,
        Flag::SpeechFor => 23,
    }
}

/// The help is complete: every flag that the command line knows, and `--help` itself, has a line
/// that begins with two spaces, the flag and a space.
pub proof fn law_help_lists_every_flag(key: Seq<char>)
    requires
        flag_of(key) is Some || key == "--help"@,
    ensures
        has_line(usage_text(), help_start(key)),
{
    reveal_strlit("fake-openai - standalone programmable openai-compatible mock\n\nusage: fake-openai [flags]\n\nflags:\n");
    assert(USAGE_HEAD@.len() == 97);
    assert(USAGE_HEAD@.last() == '\n');
    lemma_entries(USAGE_HEAD@, listed_flags());
    let before = USAGE_HEAD@ + entries(listed_flags());
    let start = help_start("--help"@);
    assert(usage_text() =~= before + start + (HELP_REST@ + USAGE_TAIL@));
    if let Some(f) = flag_of(key) {
        assert(key == flag_text(f));
        let k = lemma_listed(f);
        assert(listed_flags()[k] == f);
        assert(has_line(before, help_start(key)));
        assert(usage_text() =~= before + (start + HELP_REST@ + USAGE_TAIL@));
        lemma_line_kept(before, start + HELP_REST@ + USAGE_TAIL@, help_start(key));
    } else {
        lemma_line_begun(before, start);
        lemma_line_kept(before + start, HELP_REST@ + USAGE_TAIL@, start);
    }
}

/// Some argument asks for help.
pub open spec fn asks_for_help(args: Seq<Seq<char>>) -> bool {
    args.contains("--help"@) || args.contains("-h"@)
}

/// Whether some argument asks for help.
pub fn wants_help(args: &Vec<String>) -> (r: bool)
    ensures
        r == asks_for_help(text::texts(args@)),
{
    let ghost all = text::texts(args@);
    let mut i: usize = 0;
    while i < args.len()
        invariant
            i <= args.len(),
            all == text::texts(args@),
            forall|j: int| 0 <= j < i ==> #[trigger] all[j] != "--help"@ && all[j] != "-h"@,
        decreases args.len() - i,
    {
        assert(all[i as int] == args@[i as int]@);
        if same(args[i].as_str(), "--help") || same(args[i].as_str(), "-h") {
            return true;
        }
        i += 1;
    }
    false
}

/// The line that tells a parent process where the server listens.
pub open spec fn base_url_line(host: Seq<char>, port: u16) -> Seq<char> {
    "base_url=http://"@ + host + ":"@ + text::decimal(port as nat) + "/v1"@
}

/// The line that tells a parent process where the server listens.
pub fn announcement(host: &str, port: u16) -> (r: String)
    ensures
        r@ == base_url_line(host@, port),
{
    let mut s = concat("base_url=http://", host);
    s.append(":");
    s.append(text::number_text(port as u64).as_str());
    s.append("/v1");
    s
}

/// What stands on either side of the first equals sign.
proof fn lemma_halves(key: Seq<char>, value: Seq<char>)
    requires
        !key.contains('='),
    ensures
        text::before_of(key + "="@ + value, "="@) == key,
        text::after_of(key + "="@ + value, "="@) == Some(value),
        text::before_of(key, "="@) == key,
        text::after_of(key, "="@) is None,
{
    reveal_strlit("=");
    let mark = "="@;
    assert(mark.len() == 1 && mark[0] == '=');
    let arg = key + mark + value;
    assert(arg.subrange(key.len() as int, key.len() as int + 1) =~= mark);
    assert forall|j: int| j < key.len() implies !text::occurs_at(arg, mark, j) by {
        if text::occurs_at(arg, mark, j) {
            assert(arg.subrange(j, j + 1)[0] == mark[0]);
            assert(key[j] == '=');
        }
    }
    text::lemma_position_is(arg, mark, key.len() as int);
    assert(arg.take(key.len() as int) =~= key);
    assert(arg.skip(key.len() as int + 1) =~= value);
    assert forall|j: int| !text::occurs_at(key, mark, j) by {
        if text::occurs_at(key, mark, j) {
            assert(key.subrange(j, j + 1)[0] == mark[0]);
            assert(key[j] == '=');
        }
    }
}

/// A flag takes its value from behind an equals sign or from the next argument, to the same
/// effect.
pub proof fn law_values_inline_or_next(
    c: ConfigModel,
    key: Seq<char>,
    value: Seq<char>,
    rest: Seq<Seq<char>>,
)
    requires
        flag_of(key) matches Some(f) && takes_value(f),
        !key.contains('='),
    ensures
        parsed(c, seq![key + "="@ + value] + rest) == parsed(c, seq![key, value] + rest),
{
    lemma_halves(key, value);
    let one = seq![key + "="@ + value] + rest;
    let two = seq![key, value] + rest;
    assert(one.skip(1) =~= rest);
    assert(two.skip(2) =~= rest);
    assert(one[0] == key + "="@ + value && two[0] == key && two[1] == value);
}

/// Arguments are taken in from left to right: those ahead first, and those behind on top of
/// them, where no flag is parted from its value.
pub proof fn law_arguments_in_order(c: ConfigModel, first: Seq<Seq<char>>, later: Seq<Seq<char>>)
    requires
        parsed(c, first) is Ok,
    ensures
        parsed(c, first + later) == parsed(parsed(c, first)->Ok_0, later),
    decreases first.len(),
{
    let both = first + later;
    if first.len() == 0 {
        assert(both =~= later);
    } else {
        assert(both[0] == first[0]);
        assert(both.skip(1) =~= first.skip(1) + later);
        let f = flag_of(text::before_of(first[0], "="@))->0;
        if !takes_value(f) {
            law_arguments_in_order(switched(c, f), first.skip(1), later);
        } else if text::after_of(first[0], "="@) is Some {
            let d = valued(c, f, text::after_of(first[0], "="@)->0)->Ok_0;
            law_arguments_in_order(d, first.skip(1), later);
        } else {
            assert(both[1] == first[1]);
            assert(both.skip(2) =~= first.skip(2) + later);
            law_arguments_in_order(valued(c, f, first[1])->Ok_0, first.skip(2), later);
        }
    }
}

/// The models of two lists in one are those of the first, then those of the second; each item is
/// a model or is left out.
pub proof fn law_models_of_lists(a: Seq<Tree>, b: Seq<Tree>)
    ensures
        models_of(a + b) == models_of(a) + models_of(b),
        a.len() == 1 ==> models_of(a) == (match model_of(a[0]) {
            Some(m) => seq![m],
            None => Seq::empty(),
        }),
    decreases b.len(),
{
    if a.len() == 1 {
        assert(a.drop_last() =~= Seq::empty());
        assert(models_of(a.drop_last()) =~= Seq::empty());
        assert(models_of(a) =~= (match model_of(a[0]) {
            Some(m) => seq![m],
            None => Seq::empty(),
        }));
    }
    if b.len() == 0 {
        assert(a + b =~= a);
        assert(models_of(a) + models_of(b) =~= models_of(a));
    } else {
        law_models_of_lists(a, b.drop_last());
        assert((a + b).drop_last() =~= a + b.drop_last());
        assert(models_of(a + b) =~= models_of(a) + models_of(b));
    }
}

/// A text is a model of that id; an object with a text for its id is the model it describes, with
/// everything it says; whatever a model does not say is filled in: that it is a model, when it was
/// made, and whose it is; and nothing is added beyond that. Nothing else is a model.
pub proof fn law_a_model_is_a_text_or_an_object_with_an_id(t: Tree)
    ensures
        model_of(t) is Some <==> t is Str || (t is Obj && t.str_at("id"@) is Some),
        model_of(t) matches Some(m) ==> {
            &&& t matches Tree::Str(s) ==> m.str_at("id"@) == Some(s)
            &&& forall|k: Seq<char>| #[trigger]
                t.get(k) is Some ==> m.get(k) == t.get(k)
            &&& t.get("object"@) is None ==> m.str_at("object"@) == Some("model"@)
            &&& t.get("created"@) is None ==> m.get("created"@) == Some(json::num(0))
            &&& t.get("owned_by"@) is None ==> m.str_at("owned_by"@) == Some("fake-openai"@)
            &&& forall|k: Seq<char>|
                t.get(k) is None && k != "id"@ && k != "object"@ && k != "created"@ && k
                    != "owned_by"@ ==> #[trigger] m.get(k) is None
        },
{
    reveal_strlit("id");
    reveal_strlit("object");
    reveal_strlit("created");
    reveal_strlit("owned_by");
    assert("id"@.len() == 2 && "object"@.len() == 6 && "created"@.len() == 7 && "owned_by"@.len()
        == 8);
}

/// The arguments lead from one configuration to another, whatever follows them.
pub open spec fn leads_to(c: ConfigModel, args: Seq<Seq<char>>, d: ConfigModel) -> bool {
    forall|rest: Seq<Seq<char>>| #[trigger] parsed(c, args + rest) == parsed(d, rest)
}

/// The arguments are complained about, whatever follows them.
pub open spec fn fails(c: ConfigModel, args: Seq<Seq<char>>, e: Seq<char>) -> bool {
    forall|rest: Seq<Seq<char>>| #[trigger]
        parsed(c, args + rest) == Err::<ConfigModel, Seq<char>>(e)
}

/// The texts of the flags are distinct.
#[verifier::rlimit(40)]
proof fn lemma_flag_texts()
    ensures
        "--host"@.len() == 6 && "--host"@[2] == 'h',
        "--port"@.len() == 6 && "--port"@[2] == 'p',
        "--responses"@.len() == 11 && "--responses"@[2] == 'r',
        "--default-response"@.len() == 18 && "--default-response"@[2] == 'd',
        "--stdin"@.len() == 7 && "--stdin"@[2] == 's',
        "--log-file"@.len() == 10 && "--log-file"@[2] == 'l',
        "--log-stdout"@.len() == 12 && "--log-stdout"@[2] == 'l',
        "--models"@.len() == 8 && "--models"@[2] == 'm',
        "--models-json"@.len() == 13 && "--models-json"@[2] == 'm',
        "--stall-first-with-tools"@.len() == 24 && "--stall-first-with-tools"@[2] == 's',
        "--stall-seconds"@.len() == 15 && "--stall-seconds"@[2] == 's',
        "--heartbeat-sentinel"@.len() == 20 && "--heartbeat-sentinel"@[2] == 'h',
        "--consume-only-with-tools"@.len() == 25 && "--consume-only-with-tools"@[2] == 'c',
        "--connect-delay-ms"@.len() == 18 && "--connect-delay-ms"@[2] == 'c',
        "--validate-chat"@.len() == 15 && "--validate-chat"@[2] == 'v',
        "--context-window"@.len() == 16 && "--context-window"@[2] == 'c',
        "--chars-per-token"@.len() == 17 && "--chars-per-token"@[2] == 'c',
        "--llamaswap"@.len() == 11 && "--llamaswap"@[2] == 'l',
        "--empty-transcript"@.len() == 18 && "--empty-transcript"@[2] == 'e',
        "--speech-file"@.len() == 13 && "--speech-file"@[2] == 's',
        "--speech-for"@.len() == 12 && "--speech-for"@[2] == 's',
        "--transcript"@.len() == 12 && "--transcript"@[2] == 't',
        "--reject-silent-audio"@.len() == 21 && "--reject-silent-audio"@[2] == 'r',
        "--require-voice-consent"@.len() == 23 && "--require-voice-consent"@[2] == 'r',
        !"--host"@.contains('='),
        !"--port"@.contains('='),
        !"--responses"@.contains('='),
        !"--default-response"@.contains('='),
        !"--stdin"@.contains('='),
        !"--log-file"@.contains('='),
        !"--log-stdout"@.contains('='),
        !"--models"@.contains('='),
        !"--models-json"@.contains('='),
        !"--stall-first-with-tools"@.contains('='),
        !"--stall-seconds"@.contains('='),
        !"--heartbeat-sentinel"@.contains('='),
        !"--consume-only-with-tools"@.contains('='),
        !"--connect-delay-ms"@.contains('='),
        !"--validate-chat"@.contains('='),
        !"--context-window"@.contains('='),
        !"--chars-per-token"@.contains('='),
        !"--llamaswap"@.contains('='),
        !"--empty-transcript"@.contains('='),
        !"--speech-file"@.contains('='),
        !"--speech-for"@.contains('='),
        !"--transcript"@.contains('='),
        !"--reject-silent-audio"@.contains('='),
        !"--require-voice-consent"@.contains('='),
{
    reveal_strlit("--host");
    reveal_strlit("--port");
    reveal_strlit("--responses");
    reveal_strlit("--default-response");
    reveal_strlit("--stdin");
    reveal_strlit("--log-file");
    reveal_strlit("--log-stdout");
    reveal_strlit("--models");
    reveal_strlit("--models-json");
    reveal_strlit("--stall-first-with-tools");
    reveal_strlit("--stall-seconds");
    reveal_strlit("--heartbeat-sentinel");
    reveal_strlit("--consume-only-with-tools");
    reveal_strlit("--connect-delay-ms");
    reveal_strlit("--validate-chat");
    reveal_strlit("--context-window");
    reveal_strlit("--chars-per-token");
    reveal_strlit("--llamaswap");
    reveal_strlit("--empty-transcript");
    reveal_strlit("--speech-file");
    reveal_strlit("--speech-for");
    reveal_strlit("--transcript");
    reveal_strlit("--reject-silent-audio");
    reveal_strlit("--require-voice-consent");
    assert("--host"@.len() == 6 && "--host"@[2] == 'h');
    assert("--port"@.len() == 6 && "--port"@[2] == 'p');
    assert("--responses"@.len() == 11 && "--responses"@[2] == 'r');
    assert("--default-response"@.len() == 18 && "--default-response"@[2] == 'd');
    assert("--stdin"@.len() == 7 && "--stdin"@[2] == 's');
    assert("--log-file"@.len() == 10 && "--log-file"@[2] == 'l');
    assert("--log-stdout"@.len() == 12 && "--log-stdout"@[2] == 'l');
    assert("--models"@.len() == 8 && "--models"@[2] == 'm');
    assert("--models-json"@.len() == 13 && "--models-json"@[2] == 'm');
    assert("--stall-first-with-tools"@.len() == 24 && "--stall-first-with-tools"@[2] == 's');
    assert("--stall-seconds"@.len() == 15 && "--stall-seconds"@[2] == 's');
    assert("--heartbeat-sentinel"@.len() == 20 && "--heartbeat-sentinel"@[2] == 'h');
    assert("--consume-only-with-tools"@.len() == 25 && "--consume-only-with-tools"@[2] == 'c');
    assert("--connect-delay-ms"@.len() == 18 && "--connect-delay-ms"@[2] == 'c');
    assert("--validate-chat"@.len() == 15 && "--validate-chat"@[2] == 'v');
    assert("--context-window"@.len() == 16 && "--context-window"@[2] == 'c');
    assert("--chars-per-token"@.len() == 17 && "--chars-per-token"@[2] == 'c');
    assert("--llamaswap"@.len() == 11 && "--llamaswap"@[2] == 'l');
    assert("--empty-transcript"@.len() == 18 && "--empty-transcript"@[2] == 'e');
    assert("--speech-file"@.len() == 13 && "--speech-file"@[2] == 's');
    assert("--speech-for"@.len() == 12 && "--speech-for"@[2] == 's');
    assert("--transcript"@.len() == 12 && "--transcript"@[2] == 't');
    assert("--reject-silent-audio"@.len() == 21 && "--reject-silent-audio"@[2] == 'r');
    assert("--require-voice-consent"@.len() == 23 && "--require-voice-consent"@[2] == 'r');
}

/// A flag is read as itself.
#[verifier::rlimit(40)]
proof fn lemma_flag(f: Flag)
    ensures
        flag_of(flag_text(f)) == Some(f),
        !flag_text(f).contains('='),
{
    lemma_flag_texts();
}

/// What a flag without a value leads to.
proof fn lemma_switched(c: ConfigModel, f: Flag)
    requires
        !takes_value(f),
    ensures
        leads_to(c, seq![flag_text(f)], switched(c, f)),
{
    lemma_flag(f);
    let key = flag_text(f);
    lemma_halves(key, Seq::<char>::empty());
    let here = seq![key];
    assert forall|rest: Seq<Seq<char>>| #[trigger]
        parsed(c, here + rest) == parsed(switched(c, f), rest) by {
        let args = here + rest;
        assert(args[0] == key);
        assert(args.skip(1) =~= rest);
    }
}

/// What a flag with a value leads to.
proof fn lemma_valued(c: ConfigModel, f: Flag, v: Seq<char>)
    requires
        takes_value(f),
    ensures
        valued(c, f, v) matches Ok(d) ==> leads_to(c, seq![flag_text(f), v], d),
        valued(c, f, v) matches Err(e) ==> fails(c, seq![flag_text(f), v], e),
{
    lemma_flag(f);
    let key = flag_text(f);
    lemma_halves(key, Seq::<char>::empty());
    let here = seq![key, v];
    assert forall|rest: Seq<Seq<char>>| #[trigger]
        parsed(c, here + rest) == (match valued(c, f, v) {
            Ok(d) => parsed(d, rest),
            Err(e) => Err(e),
        }) by {
        let args = here + rest;
        assert(args[0] == key && args[1] == v);
        assert(args.skip(2) =~= rest);
    }
}

/// Each flag without a value turns on what it names, and nothing else.
pub proof fn law_switches_turn_on_what_they_name(c: ConfigModel)
    ensures
        leads_to(c, seq!["--stdin"@], ConfigModel { stdin: true, ..c }),
        leads_to(c, seq!["--log-stdout"@], ConfigModel { log_stdout: true, ..c }),
        leads_to(c, seq!["--stall-first-with-tools"@], behaving(c, BehaviorModel { stall_first_with_tools: true, ..c.behavior })),
        leads_to(c, seq!["--consume-only-with-tools"@], behaving(c, BehaviorModel { consume_only_with_tools: true, ..c.behavior })),
        leads_to(c, seq!["--validate-chat"@], behaving(c, BehaviorModel { validate_chat: true, ..c.behavior })),
        leads_to(c, seq!["--llamaswap"@], behaving(c, BehaviorModel { llamaswap: true, ..c.behavior })),
        leads_to(c, seq!["--empty-transcript"@], behaving(c, BehaviorModel { empty_transcript: true, ..c.behavior })),
        leads_to(c, seq!["--reject-silent-audio"@], behaving(c, BehaviorModel { reject_silent_audio: true, ..c.behavior })),
        leads_to(c, seq!["--require-voice-consent"@], behaving(c, BehaviorModel { require_voice_consent: true, ..c.behavior })),
{
    lemma_switched(c, Flag::Stdin);
    lemma_switched(c, Flag::LogStdout);
    lemma_switched(c, Flag::StallTools);
    lemma_switched(c, Flag::ConsumeTools);
    lemma_switched(c, Flag::ValidateChat);
    lemma_switched(c, Flag::Llamaswap);
    lemma_switched(c, Flag::EmptyTranscript);
    lemma_switched(c, Flag::RejectSilent);
    lemma_switched(c, Flag::RequireConsent);
}

/// Each flag with a text sets what it names to that text, and nothing else.
pub proof fn law_texts_are_taken_as_given(c: ConfigModel, v: Seq<char>)
    ensures
        leads_to(c, seq!["--host"@, v], ConfigModel { host: v, ..c }),
        leads_to(c, seq!["--responses"@, v], ConfigModel { responses_file: Some(v), ..c }),
        leads_to(c, seq!["--log-file"@, v], ConfigModel { log_file: Some(v), ..c }),
        leads_to(c, seq!["--speech-file"@, v], ConfigModel { speech_file: Some(v), ..c }),
        leads_to(c, seq!["--heartbeat-sentinel"@, v], behaving(c, BehaviorModel { heartbeat_sentinel: v, ..c.behavior })),
        leads_to(c, seq!["--transcript"@, v], behaving(c, BehaviorModel { transcript: Some(v), ..c.behavior })),
        leads_to(c, seq!["--models"@, v], ConfigModel { models: listed_models(v), ..c }),
{
    lemma_valued(c, Flag::Host, v);
    lemma_valued(c, Flag::Responses, v);
    lemma_valued(c, Flag::LogFile, v);
    lemma_valued(c, Flag::SpeechFile, v);
    lemma_valued(c, Flag::Heartbeat, v);
    lemma_valued(c, Flag::Transcript, v);
    lemma_valued(c, Flag::Models, v);
}

/// Each flag with a number sets what it names to that number, and nothing else; what is no number
/// of the right size is complained about.
pub proof fn law_numbers_are_taken_as_given(c: ConfigModel, v: Seq<char>)
    ensures
        text::count_of(v, u64::MAX) matches Some(n) ==> leads_to(
            c,
            seq!["--stall-seconds"@, v],
            behaving(c, BehaviorModel { stall_seconds: n, ..c.behavior }),
        ),
        text::count_of(v, u64::MAX) is None ==> fails(c, seq!["--stall-seconds"@, v], "--stall-seconds"@ + ": invalid number '"@ + v + "'"@),
        text::count_of(v, u64::MAX) matches Some(n) ==> leads_to(
            c,
            seq!["--connect-delay-ms"@, v],
            behaving(c, BehaviorModel { connect_delay_ms: n, ..c.behavior }),
        ),
        text::count_of(v, u64::MAX) is None ==> fails(c, seq!["--connect-delay-ms"@, v], "--connect-delay-ms"@ + ": invalid number '"@ + v + "'"@),
        text::count_of(v, u64::MAX) matches Some(n) ==> leads_to(
            c,
            seq!["--context-window"@, v],
            behaving(c, BehaviorModel { context_window: Some(n), ..c.behavior }),
        ),
        text::count_of(v, u64::MAX) is None ==> fails(c, seq!["--context-window"@, v], "--context-window"@ + ": invalid number '"@ + v + "'"@),
        text::count_of(v, u64::MAX) matches Some(n) ==> leads_to(
            c,
            seq!["--chars-per-token"@, v],
            behaving(c, BehaviorModel { chars_per_token: n, ..c.behavior }),
        ),
        text::count_of(v, u64::MAX) is None ==> fails(c, seq!["--chars-per-token"@, v], "--chars-per-token"@ + ": invalid number '"@ + v + "'"@),
        text::count_of(v, u16::MAX as u64) matches Some(n) ==> leads_to(
            c,
            seq!["--port"@, v],
            ConfigModel { port: n as u16, ..c },
        ),
        text::count_of(v, u16::MAX as u64) is None ==> fails(
            c,
            seq!["--port"@, v],
            "--port"@ + ": invalid number '"@ + v + "'"@,
        ),
{
    lemma_valued(c, Flag::StallSeconds, v);
    lemma_valued(c, Flag::ConnectDelay, v);
    lemma_valued(c, Flag::ContextWindow, v);
    lemma_valued(c, Flag::CharsPerToken, v);
    lemma_valued(c, Flag::Port, v);
}

/// Each flag with a JSON value sets what it names to that value, and nothing else: any value for
/// the fallback, a list for the models. What is no JSON is complained about in the reader's words.
pub proof fn law_values_are_read(c: ConfigModel, v: Seq<char>)
    ensures
        codec::read_text(v) matches Ok(t) ==> leads_to(
            c,
            seq!["--default-response"@, v],
            ConfigModel { default_response: Some(t), ..c },
        ),
        codec::read_text(v) matches Ok(Tree::Arr(a)) ==> leads_to(
            c,
            seq!["--models-json"@, v],
            ConfigModel { models: models_of(a), ..c },
        ),
        codec::read_text(v) matches Ok(t) ==> !(t is Arr) ==> fails(
            c,
            seq!["--models-json"@, v],
            "--models-json: expected a json array"@,
        ),
        codec::read_text(v) matches Err(e) ==> fails(
            c,
            seq!["--default-response"@, v],
            "--default-response"@ + ": invalid json: "@ + e,
        ) && fails(c, seq!["--models-json"@, v], "--models-json"@ + ": invalid json: "@ + e),
{
    lemma_valued(c, Flag::DefaultResponse, v);
    lemma_valued(c, Flag::ModelsJson, v);
}

/// A match with its file adds to those that were given before: the match is what stands ahead of
/// the first equals sign, in lower case, and the file is what stands behind it. A value without
/// one is complained about.
pub proof fn law_matches_are_collected(c: ConfigModel, phrase: Seq<char>, path: Seq<char>)
    requires
        !phrase.contains('='),
    ensures
        leads_to(
            c,
            seq!["--speech-for"@, phrase + "="@ + path],
            ConfigModel {
                speech_for: c.speech_for.push((text::lowercase(phrase), path)),
                ..c
            },
        ),
        fails(c, seq!["--speech-for"@, phrase], "--speech-for: expected <match>=<path>"@),
{
    lemma_halves(phrase, path);
    lemma_valued(c, Flag::SpeechFor, phrase + "="@ + path);
    lemma_valued(c, Flag::SpeechFor, phrase);
}

/// A flag that is not known is complained about by its name; so is one whose value is missing.
pub proof fn law_unknown_flags_are_refused(
    c: ConfigModel,
    key: Seq<char>,
    value: Seq<char>,
    f: Flag,
)
    requires
        !key.contains('='),
    ensures
        (forall|g: Flag| key != #[trigger] flag_text(g)) ==> fails(
            c,
            seq![key],
            "unknown flag: "@ + key,
        ) && fails(c, seq![key + "="@ + value], "unknown flag: "@ + key),
        takes_value(f) ==> parsed(c, seq![flag_text(f)]) == Err::<ConfigModel, Seq<char>>(
            flag_text(f) + ": requires a value"@,
        ),
{
    lemma_halves(key, value);
    if forall|g: Flag| key != #[trigger] flag_text(g) {
        if let Some(g) = flag_of(key) {
            assert(key == flag_text(g));
        }
        let arg = key + "="@ + value;
        let one = seq![key];
        let two = seq![arg];
        assert forall|rest: Seq<Seq<char>>| #[trigger]
            parsed(c, one + rest) == Err::<ConfigModel, Seq<char>>("unknown flag: "@ + key) by {
            assert((one + rest)[0] == key);
        }
        assert forall|rest: Seq<Seq<char>>| #[trigger]
            parsed(c, two + rest) == Err::<ConfigModel, Seq<char>>("unknown flag: "@ + key) by {
            assert((two + rest)[0] == arg);
        }
    }
    lemma_flag(f);
    lemma_halves(flag_text(f), value);
    assert(seq![flag_text(f)][0] == flag_text(f));
}

/// The models of a list of ids with commas between them: those ahead of a comma, then those behind
/// it; an id without the white space around it, and none where nothing is left.
pub proof fn law_ids_are_listed_with_commas(a: Seq<char>, b: Seq<char>, id: Seq<char>)
    requires
        !id.contains(','),
    ensures
        listed_models(a + seq![','] + b) == listed_models(a) + listed_models(b),
        text::trim_of(id).len() == 0 ==> listed_models(id).len() == 0,
        text::trim_of(id).len() > 0 ==> {
            &&& listed_models(id).len() == 1
            &&& model_of(Tree::Str(text::trim_of(id))) == Some(listed_models(id)[0])
        },
{
    text::law_a_text_is_split_at_its_marks(a, ',', b);
    lemma_named_models(text::split_of(a, ','), text::split_of(b, ','));
    text::law_a_text_without_marks_is_one_piece(id, ',');
    let one = seq![id];
    assert(one.drop_last() =~= Seq::empty());
    assert(named_models(one.drop_last()) =~= Seq::empty());
    assert(one.last() == id);
}

/// The models of two rows of names are those of the one, then those of the other.
proof fn lemma_named_models(a: Seq<Seq<char>>, b: Seq<Seq<char>>)
    ensures
        named_models(a + b) == named_models(a) + named_models(b),
    decreases b.len(),
{
    if b.len() == 0 {
        assert(a + b =~= a);
        assert(named_models(a) + named_models(b) =~= named_models(a));
    } else {
        lemma_named_models(a, b.drop_last());
        assert((a + b).drop_last() =~= a + b.drop_last());
        assert(named_models(a + b) =~= named_models(a) + named_models(b));
    }
}

/// A server that was told nothing listens on the local host at a free port, reports the one stock
/// model, has nothing programmed, logs nothing, and has every check and extension off.
pub proof fn law_the_defaults_are_plain()
    ensures
        ({
            let c = default_config();
            &&& c.host == "127.0.0.1"@
            &&& c.port == 0
            &&& c.responses_file is None
            &&& c.default_response is None
            &&& !c.stdin
            &&& c.log_file is None
            &&& !c.log_stdout
            &&& c.speech_file is None
            &&& c.speech_for.len() == 0
            &&& c.models.len() == 1
            &&& c.models[0].str_at("id"@) == Some("fake-model"@)
            &&& !c.behavior.stall_first_with_tools
            &&& c.behavior.stall_seconds == 5
            &&& c.behavior.heartbeat_sentinel == "[heartbeat]"@
            &&& !c.behavior.consume_only_with_tools
            &&& c.behavior.connect_delay_ms == 0
            &&& !c.behavior.validate_chat
            &&& !c.behavior.reject_silent_audio
            &&& !c.behavior.require_voice_consent
            &&& c.behavior.context_window is None
            &&& c.behavior.chars_per_token == 4
            &&& !c.behavior.llamaswap
            &&& c.behavior.speech_frame_delay_ms == 0
            &&& !c.behavior.empty_transcript
            &&& c.behavior.transcript is None
        }),
{
    reveal_strlit("fake-model");
    let id = DEFAULT_MODEL@;
    let none = Seq::<char>::empty();
    assert(id.len() == 10 && id[0] == 'f' && id[9] == 'l');
    assert(!id.contains(','));
    text::law_trimming_takes_off_white_space(none, id, none);
    assert(none + id + none =~= id);
    law_ids_are_listed_with_commas(none, none, id);
    law_models_are_settled(Tree::Str(id));
}

/// The line that tells where the server listens is the address of its interface.
pub proof fn law_the_address_is_announced(host: Seq<char>, port: u16)
    ensures
        base_url_line(host, port) == "base_url=http://"@ + host + ":"@ + text::decimal(port as nat)
            + "/v1"@,
        text::count_of(text::decimal(port as nat), u16::MAX as u64) == Some(port as u64),
{
    text::law_counts_are_decimal(port as nat, u16::MAX as u64);
}

/// Help is asked for by either of its names, wherever it stands, and by nothing else.
pub proof fn law_help_is_asked_for_by_name(ahead: Seq<Seq<char>>, behind: Seq<Seq<char>>)
    ensures
        asks_for_help(ahead + seq!["--help"@] + behind),
        asks_for_help(ahead + seq!["-h"@] + behind),
        (forall|i: int|
            0 <= i < ahead.len() ==> #[trigger] ahead[i] != "--help"@ && ahead[i] != "-h"@)
            ==> !asks_for_help(ahead),
{
    let long = ahead + seq!["--help"@] + behind;
    let short = ahead + seq!["-h"@] + behind;
    assert(long[ahead.len() as int] == "--help"@);
    assert(short[ahead.len() as int] == "-h"@);
}

/// A flag without a value is the same with one behind an equals sign.
pub proof fn law_switches_ignore_a_value(c: ConfigModel, f: Flag, value: Seq<char>, rest: Seq<Seq<char>>)
    requires
        !takes_value(f),
    ensures
        parsed(c, seq![flag_text(f) + "="@ + value] + rest) == parsed(
            c,
            seq![flag_text(f)] + rest,
        ),
{
    lemma_flag(f);
    let key = flag_text(f);
    lemma_halves(key, value);
    let one = seq![key + "="@ + value] + rest;
    let two = seq![key] + rest;
    assert(one[0] == key + "="@ + value && two[0] == key);
    assert(one.skip(1) =~= rest);
    assert(two.skip(1) =~= rest);
}

} // verus!
