//! The state of a running server: what it has captured, what it will answer, and how it
//! behaves.

use std::collections::VecDeque;

use vstd::prelude::*;

use crate::behavior::{self, should_stall, Behavior, BehaviorModel};
use crate::config::{self, normalize_models, Config, ConfigModel};
use crate::json::{self, copy_list, Json, Members, Tree};
use crate::responses::{self, push_specs, ResponseSpec, SpecModel};
use crate::text::{self, comes_before, copy_texts, same, to_lowercase};

verus! {

/// The four bytes of a tag, as characters.
pub open spec fn tag_at(bytes: Seq<u8>, at: int, tag: Seq<char>) -> bool {
    bytes.subrange(at, at + 4) == vstd::utf8::encode_utf8(tag)
}

/// The number of four bytes, the lowest first.
pub open spec fn length_at(bytes: Seq<u8>, at: int) -> nat {
    (bytes[at] + 0x100 * bytes[at + 1] + 0x1_0000 * bytes[at + 2] + 0x100_0000 * bytes[at
        + 3]) as nat
}

/// The content of the first chunk tagged `data`, from a place on; a length that reaches past
/// the end is cut there.
pub open spec fn data_chunk(bytes: Seq<u8>, at: int) -> Option<Seq<u8>>
    decreases (if at < bytes.len() { bytes.len() - at } else { 0 }),
{
    if 0 <= at && at + 8 <= bytes.len() {
        let len = length_at(bytes, at + 4);
        if tag_at(bytes, at, "data"@) {
            let end = if at + 8 + len < bytes.len() {
                at + 8 + len
            } else {
                bytes.len() as int
            };
            Some(bytes.subrange(at + 8, end))
        } else {
            data_chunk(bytes, at + 8 + len + len % 2)
        }
    } else {
        None
    }
}

/// The samples of a wav file, or the bytes themselves where they are none.
pub open spec fn pcm_of(bytes: Seq<u8>) -> Seq<u8> {
    if bytes.len() < 12 || !tag_at(bytes, 0, "RIFF"@) {
        bytes
    } else {
        match data_chunk(bytes, 12) {
            Some(d) => d,
            None => bytes,
        }
    }
}

/// Whether a tag stands at a place.
fn has_tag(bytes: &Vec<u8>, at: usize, tag: &str) -> (r: bool)
    requires
        at + 4 <= bytes.len(),
    ensures
        r == tag_at(bytes@, at as int, tag@),
{
    let t = tag.as_bytes();
    let here = vstd::slice::slice_subrange(bytes.as_slice(), at, at + 4);
    if t.len() != 4 {
        return false;
    }
    let same = here[0] == t[0] && here[1] == t[1] && here[2] == t[2] && here[3] == t[3];
    if same {
        assert(here@ =~= t@);
    }
    same
}

/// The samples of a wav file, or the bytes as they are: the chunks of a RIFF file are walked
/// up to the one tagged `data`.
pub fn raw_pcm(bytes: Vec<u8>) -> (r: Vec<u8>)
    ensures
        r@ == pcm_of(bytes@),
{
    if bytes.len() < 12 || !has_tag(&bytes, 0, "RIFF") {
        return bytes;
    }
    let mut at: usize = 12;
    while bytes.len() - at >= 8
        invariant
            at <= bytes@.len(),
            bytes@.len() >= 12,
            tag_at(bytes@, 0, "RIFF"@),
            data_chunk(bytes@, 12) == data_chunk(bytes@, at as int),
        decreases bytes@.len() - at,
    {
        let len: u64 = bytes[at + 4] as u64 + 0x100 * (bytes[at + 5] as u64) + 0x1_0000 * (bytes[at
            + 6] as u64) + 0x100_0000 * (bytes[at + 7] as u64);
        let left: usize = bytes.len() - at - 8;
        if has_tag(&bytes, at, "data") {
            let end: usize = if len < left as u64 {
                at + 8 + len as usize
            } else {
                bytes.len()
            };
            let data = vstd::slice::slice_subrange(bytes.as_slice(), at + 8, end);
            return vstd::slice::slice_to_vec(data);
        }
        let step: u64 = len + len % 2;
        if step > left as u64 {
            assert(data_chunk(bytes@, at + 8 + len + len % 2) is None);
            return bytes;
        }
        at = at + 8 + step as usize;
    }
    bytes
}

/// The state of a server.
pub struct State {
    captures: Vec<Json>,
    responses: VecDeque<ResponseSpec>,
    default_response: Option<ResponseSpec>,
    behavior: Behavior,
    stalled_once: bool,
    models: Vec<Json>,
    voices: Vec<String>,
    log_file: bool,
    log_stdout: bool,
    speech_pcm: Option<Vec<u8>>,
    speech_variants: Vec<(String, Vec<u8>)>,
}

/// What a state holds.
#[verifier::ext_equal]
pub struct StateModel {
    /// The requests that came in, in order.
    pub captures: Seq<Tree>,
    /// The programmed responses that are still to come, in order.
    pub responses: Seq<SpecModel>,
    /// What is answered when none is left; the built-in stream where nothing is set.
    pub default_response: Option<SpecModel>,
    pub behavior: BehaviorModel,
    /// The one stall has been spent.
    pub stalled_once: bool,
    pub models: Seq<Tree>,
    /// The names of the enrolled voices, in order, each once.
    pub voices: Seq<Seq<char>>,
    /// Captures are mirrored to a file.
    pub log_file: bool,
    /// Captures are mirrored to the standard output.
    pub log_stdout: bool,
    /// The audio that is spoken in place of the built-in one.
    pub speech_pcm: Option<Seq<u8>>,
    /// The audio that is spoken where the text holds a match, by matches in lower case.
    pub speech_variants: Seq<(Seq<char>, Seq<u8>)>,
}

/// What a list of matches with their audio holds.
pub open spec fn variant_models(v: Seq<(String, Vec<u8>)>) -> Seq<(Seq<char>, Seq<u8>)> {
    v.map_values(|p: (String, Vec<u8>)| (p.0@, p.1@))
}

/// The bytes of an optional list.
pub open spec fn bytes_opt(v: Option<Vec<u8>>) -> Option<Seq<u8>> {
    match v {
        Some(b) => Some(b@),
        None => None,
    }
}

/// What an optional spec holds.
pub open spec fn spec_opt(s: Option<ResponseSpec>) -> Option<SpecModel> {
    match s {
        Some(r) => Some(r@),
        None => None,
    }
}

impl View for State {
    type V = StateModel;

    closed spec fn view(&self) -> StateModel {
        StateModel {
            captures: json::trees(self.captures@),
            responses: responses::spec_models(self.responses@),
            default_response: spec_opt(self.default_response),
            behavior: self.behavior@,
            stalled_once: self.stalled_once,
            models: json::trees(self.models@),
            voices: text::texts(self.voices@),
            log_file: self.log_file,
            log_stdout: self.log_stdout,
            speech_pcm: bytes_opt(self.speech_pcm),
            speech_variants: variant_models(self.speech_variants@),
        }
    }
}

/// Names in order, each once.
pub open spec fn ascending(names: Seq<Seq<char>>) -> bool {
    forall|i: int, j: int|
        0 <= i < j < names.len() ==> text::precedes(#[trigger] names[i], #[trigger] names[j])
}

/// No response carries a prompt derived from a request.
pub open spec fn underived(specs: Seq<SpecModel>) -> bool {
    forall|i: int| 0 <= i < specs.len() ==> (#[trigger] specs[i]).derived_prompt is None
}

/// The responses on lines of text carry no derived prompt.
proof fn lemma_lines_underived(lines: Seq<Seq<char>>)
    ensures
        underived(responses::line_specs(lines)),
    decreases lines.len(),
{
    if lines.len() > 0 {
        lemma_lines_underived(lines.drop_last());
    }
}

/// The responses of a file carry no derived prompt.
proof fn lemma_file_underived(content: Seq<char>)
    ensures
        underived(responses::file_specs(content)),
{
    lemma_lines_underived(text::split_of(content, '\n'));
}

/// What every state keeps: the voices stand in order, each once, and neither the programmed
/// responses nor the fallback carry a prompt derived from a request.
pub open spec fn sound(s: StateModel) -> bool {
    &&& ascending(s.voices)
    &&& underived(s.responses)
    &&& s.default_response matches Some(p) ==> p.derived_prompt is None
}

/// The names with one more at its place, unless it is there already.
pub open spec fn enrolled(names: Seq<Seq<char>>, name: Seq<char>) -> Seq<Seq<char>>
    decreases names.len(),
{
    if names.len() == 0 {
        seq![name]
    } else if names.last() == name {
        names
    } else if text::precedes(names.last(), name) {
        names.push(name)
    } else {
        enrolled(names.drop_last(), name).push(names.last())
    }
}

/// The audio for a list of matches: that of the first match that stands in the text.
pub open spec fn variant_for(
    variants: Seq<(Seq<char>, Seq<u8>)>,
    lowered: Seq<char>,
) -> Option<Seq<u8>>
    decreases variants.len(),
{
    if variants.len() == 0 {
        None
    } else if text::occurs(lowered, variants[0].0) {
        Some(variants[0].1)
    } else {
        variant_for(variants.skip(1), lowered)
    }
}

/// The audio that is spoken for a text in lower case, where any is configured for it.
pub open spec fn matching_speech(s: StateModel, lowered: Seq<char>) -> Option<Seq<u8>> {
    match variant_for(s.speech_variants, lowered) {
        Some(pcm) => Some(pcm),
        None => s.speech_pcm,
    }
}

/// The audio that is spoken for a text, where any is configured for it.
pub open spec fn speech_of(s: StateModel, input: Seq<char>) -> Option<Seq<u8>> {
    matching_speech(s, text::lowercase(input))
}

/// Texts of one lower case are spoken alike, and a text is spoken the same way every time,
/// whatever was spoken before.
pub proof fn law_speech_goes_by_the_text(s: StateModel, t: StateModel, a: Seq<char>, b: Seq<char>)
    requires
        text::lowercase(a) == text::lowercase(b),
        s.speech_variants == t.speech_variants,
        s.speech_pcm == t.speech_pcm,
    ensures
        speech_of(s, a) == speech_of(t, b),
{
}

/// An ASCII text is spoken like any that differs from it in nothing but case.
pub proof fn law_speech_ignores_case(s: StateModel, a: Seq<char>, b: Seq<char>)
    requires
        text::is_ascii_text(a),
        text::same_ignoring_case(a, b),
    ensures
        speech_of(s, a) == speech_of(s, b),
{
    text::law_lower_case_ignores_case(a, b);
}

/// Among ASCII texts, a match that was configured in any case speaks for a text that holds it in
/// any case, where no match ahead of it does.
pub proof fn law_the_first_match_speaks(
    s: StateModel,
    given: Seq<Seq<char>>,
    input: Seq<char>,
    k: int,
)
    requires
        given.len() == s.speech_variants.len(),
        forall|i: int|
            0 <= i < given.len() ==> text::is_ascii_text(#[trigger] given[i])
                && s.speech_variants[i].0 == text::lowercase(given[i]),
        text::is_ascii_text(input),
        0 <= k < given.len(),
        text::occurs_ignoring_case(input, given[k]),
        forall|i: int| 0 <= i < k ==> !text::occurs_ignoring_case(input, #[trigger] given[i]),
    ensures
        speech_of(s, input) == Some(s.speech_variants[k].1),
{
    let lowered = text::lowercase(input);
    assert forall|i: int| 0 <= i <= k implies (text::occurs(
        lowered,
        (#[trigger] s.speech_variants[i]).0,
    ) <==> i == k) by {
        assert(text::is_ascii_text(given[i]));
        text::law_searching_in_lower_case_ignores_case(input, given[i]);
    }
    lemma_variant_for(s.speech_variants, lowered, k);
}

/// The first match is the one that counts.
proof fn lemma_variant_for(variants: Seq<(Seq<char>, Seq<u8>)>, lowered: Seq<char>, k: int)
    requires
        0 <= k < variants.len(),
        forall|i: int|
            0 <= i <= k ==> (text::occurs(lowered, (#[trigger] variants[i]).0) <==> i == k),
    ensures
        variant_for(variants, lowered) == Some(variants[k].1),
    decreases k,
{
    assert(text::occurs(lowered, variants[0].0) <==> 0 == k);
    if k > 0 {
        assert forall|i: int| 0 <= i <= k - 1 implies (text::occurs(
            lowered,
            (#[trigger] variants.skip(1)[i]).0,
        ) <==> i == k - 1) by {
            assert(variants.skip(1)[i] == variants[i + 1]);
        }
        lemma_variant_for(variants.skip(1), lowered, k - 1);
    }
}

/// Each match with the samples of its file, in the order in which they were configured.
pub open spec fn paired(
    speech_for: Seq<(Seq<char>, Seq<char>)>,
    contents: Seq<Seq<u8>>,
) -> Seq<(Seq<char>, Seq<u8>)> {
    Seq::new(speech_for.len(), |i: int| (speech_for[i].0, pcm_of(contents[i])))
}

/// The bytes of a list of files.
pub open spec fn contents_models(v: Seq<Vec<u8>>) -> Seq<Seq<u8>> {
    v.map_values(|b: Vec<u8>| b@)
}

/// The state of a server that has just started.
pub open spec fn started(
    c: ConfigModel,
    speech: Option<Seq<u8>>,
    contents: Seq<Seq<u8>>,
) -> StateModel {
    StateModel {
        captures: Seq::empty(),
        responses: Seq::empty(),
        default_response: match c.default_response {
            Some(t) => Some(responses::spec_of(t)),
            None => None,
        },
        behavior: c.behavior,
        stalled_once: false,
        models: c.models,
        voices: Seq::empty(),
        log_file: c.log_file is Some,
        log_stdout: c.log_stdout,
        speech_pcm: match speech {
            Some(b) => Some(pcm_of(b)),
            None => None,
        },
        speech_variants: paired(c.speech_for, contents),
    }
}

/// A flag or, where it is not given, what it was.
pub open spec fn bool_or(v: Option<bool>, otherwise: bool) -> bool {
    match v {
        Some(b) => b,
        None => otherwise,
    }
}

/// The behavior with what a value says of it; what it does not say, or says in another kind of
/// value than expected, stays. A window or a transcript that is there but is none clears it.
pub open spec fn merged(b: BehaviorModel, t: Tree) -> BehaviorModel {
    BehaviorModel {
        stall_first_with_tools: bool_or(
            t.bool_at("stall_first_with_tools"@),
            b.stall_first_with_tools,
        ),
        stall_seconds: responses::number_or(t.u64_at("stall_seconds"@), b.stall_seconds),
        heartbeat_sentinel: match t.str_at("heartbeat_sentinel"@) {
            Some(s) => s,
            None => b.heartbeat_sentinel,
        },
        consume_only_with_tools: bool_or(
            t.bool_at("consume_only_with_tools"@),
            b.consume_only_with_tools,
        ),
        connect_delay_ms: responses::number_or(t.u64_at("connect_delay_ms"@), b.connect_delay_ms),
        validate_chat: bool_or(
            t.bool_at("validate_chat"@),
            b.validate_chat,
        ),
        reject_silent_audio: bool_or(
            t.bool_at("reject_silent_audio"@),
            b.reject_silent_audio,
        ),
        require_voice_consent: bool_or(
            t.bool_at("require_voice_consent"@),
            b.require_voice_consent,
        ),
        context_window: match t.get("context_window"@) {
            Some(v) => v.as_u64(),
            None => b.context_window,
        },
        chars_per_token: responses::number_or(t.u64_at("chars_per_token"@), b.chars_per_token),
        llamaswap: bool_or(
            t.bool_at("llamaswap"@),
            b.llamaswap,
        ),
        empty_transcript: bool_or(
            t.bool_at("empty_transcript"@),
            b.empty_transcript,
        ),
        speech_frame_delay_ms: responses::number_or(t.u64_at("speech_frame_delay_ms"@), b.speech_frame_delay_ms),
        transcript: match t.get("transcript"@) {
            Some(v) => v.as_str(),
            None => b.transcript,
        },
    }
}

/// The value that describes a behavior.
pub open spec fn behavior_tree(b: BehaviorModel) -> Tree {
    Tree::Obj(
        map![
            "stall_first_with_tools"@ => Tree::Bool(b.stall_first_with_tools),
            "stall_seconds"@ => json::num(b.stall_seconds),
            "heartbeat_sentinel"@ => Tree::Str(b.heartbeat_sentinel),
            "consume_only_with_tools"@ => Tree::Bool(b.consume_only_with_tools),
            "connect_delay_ms"@ => json::num(b.connect_delay_ms),
            "validate_chat"@ => Tree::Bool(b.validate_chat),
            "reject_silent_audio"@ => Tree::Bool(b.reject_silent_audio),
            "require_voice_consent"@ => Tree::Bool(b.require_voice_consent),
            "context_window"@ => match b.context_window {
                Some(n) => json::num(n),
                None => Tree::Null,
            },
            "chars_per_token"@ => json::num(b.chars_per_token),
            "llamaswap"@ => Tree::Bool(b.llamaswap),
            "empty_transcript"@ => Tree::Bool(b.empty_transcript),
            "speech_frame_delay_ms"@ => json::num(b.speech_frame_delay_ms),
            "transcript"@ => match b.transcript {
                Some(s) => Tree::Str(s),
                None => Tree::Null,
            },
        ],
    )
}

/// The value under `default`: the fallback, or null.
pub open spec fn default_tree(d: Option<SpecModel>) -> Tree {
    Tree::Obj(
        map!["default"@ => match d {
            Some(s) => responses::spec_tree(s),
            None => Tree::Null,
        }],
    )
}

/// The list of models that a value sets, if it sets one: a list, or the list under `models`.
pub open spec fn model_list(t: Tree) -> Option<Seq<Tree>> {
    match t {
        Tree::Arr(a) => Some(a),
        _ => t.list_at("models"@),
    }
}

/// Each match of a configuration with the samples of its file, given the contents of the files
/// in the order in which the configuration names them.
pub fn speech_variants(c: &Config, contents: Vec<Vec<u8>>) -> (r: Vec<(String, Vec<u8>)>)
    requires
        contents.len() == c@.speech_for.len(),
    ensures
        variant_models(r@) == paired(c@.speech_for, contents_models(contents@)),
{
    let ghost all = contents@;
    let mut out: Vec<(String, Vec<u8>)> = Vec::new();
    for bytes in it: contents
        invariant
            it.seq() == all,
            all.len() == c.speech_for.len(),
            out.len() == it.index(),
            forall|j: int|
                0 <= j < it.index() ==> (#[trigger] out@[j]).0@ == c.speech_for@[j].0@
                    && out@[j].1@ == pcm_of(all[j]@),
    {
        let i: usize = out.len();
        let m = c.speech_for[i].0.clone();
        out.push((m, raw_pcm(bytes)));
    }
    assert(variant_models(out@) =~= paired(c@.speech_for, contents_models(all)));
    out
}

impl State {
    /// What every state keeps.
    pub open spec fn wf(&self) -> bool {
        sound(self@)
    }

    /// The state of a server that starts with a configuration. The contents of the files that it
    /// names are handed in: that of the speech file, and those of the files with a match, in the
    /// order in which the configuration names them.
    pub fn from_config(c: &Config, speech: Option<Vec<u8>>, contents: Vec<Vec<u8>>) -> (r: State)
        requires
            speech is Some == c@.speech_file is Some,
            contents.len() == c@.speech_for.len(),
        ensures
            r@ == started(c@, bytes_opt(speech), contents_models(contents@)),
            r.wf(),
    {
        let default_response = match &c.default_response {
            Some(j) => Some(ResponseSpec::from_value(j)),
            None => None,
        };
        let speech_pcm = match speech {
            Some(b) => Some(raw_pcm(b)),
            None => None,
        };
        let r = State {
            captures: Vec::new(),
            responses: VecDeque::new(),
            default_response,
            behavior: c.behavior.copy(),
            stalled_once: false,
            models: copy_list(&c.models),
            voices: Vec::new(),
            log_file: c.log_file.is_some(),
            log_stdout: c.log_stdout,
            speech_pcm,
            speech_variants: speech_variants(c, contents),
        };
        assert(r@.responses =~= Seq::empty());
        assert(r@.voices =~= Seq::empty());
        r
    }

    /// The audio for a text: the first match, whatever the case of its letters, else the speech
    /// file, else none.
    pub fn speech_for(&self, input: &str) -> (r: Option<&[u8]>)
        ensures
            match r {
                Some(b) => speech_of(self@, input@) == Some(b@),
                None => speech_of(self@, input@) is None,
            },
    {
        let lowered = to_lowercase(input);
        self.speech_matching(lowered.as_str())
    }

    /// The audio for a text in lower case.
    pub fn speech_matching(&self, lowered: &str) -> (r: Option<&[u8]>)
        ensures
            match r {
                Some(b) => matching_speech(self@, lowered@) == Some(b@),
                None => matching_speech(self@, lowered@) is None,
            },
    {
        let ghost all = self@.speech_variants;
        let mut i: usize = 0;
        assert(all.skip(0) =~= all);
        while i < self.speech_variants.len()
            invariant
                i <= self.speech_variants.len(),
                all == variant_models(self.speech_variants@),
                self@.speech_variants == all,
                variant_for(all, lowered@) == variant_for(all.skip(i as int), lowered@),
            decreases self.speech_variants.len() - i,
        {
            assert(all.skip(i as int)[0] == all[i as int]);
            if text::contains(lowered, self.speech_variants[i].0.as_str()) {
                return Some(self.speech_variants[i].1.as_slice());
            }
            assert(all.skip(i as int).skip(1) =~= all.skip(i + 1));
            i += 1;
        }
        assert(all.skip(i as int) =~= Seq::empty());
        match &self.speech_pcm {
            Some(b) => Some(b.as_slice()),
            None => None,
        }
    }

    /// The fallback.
    pub fn default_response(&self) -> (r: Option<ResponseSpec>)
        ensures
            spec_opt(r) == self@.default_response,
    {
        match &self.default_response {
            Some(s) => Some(s.copy()),
            None => None,
        }
    }

    /// The fallback as a value.
    pub fn default_response_value(&self) -> (r: Json)
        ensures
            r@ == default_tree(self@.default_response),
    {
        let v = match &self.default_response {
            Some(s) => s.to_value(),
            None => Json::Null,
        };
        Members::new().with("default", v).done()
    }

    /// Sets the fallback.
    pub fn set_default_response(&mut self, body: &Json)
        ensures
            final(self)@ == (StateModel {
                default_response: Some(responses::spec_of(body@)),
                ..old(self)@
            }),
            old(self).wf() ==> final(self).wf(),
    {
        self.default_response = Some(ResponseSpec::from_value(body));
    }

    /// Goes back to the built-in fallback.
    pub fn clear_default_response(&mut self)
        ensures
            final(self)@ == (StateModel { default_response: None, ..old(self)@ }),
            old(self).wf() ==> final(self).wf(),
    {
        self.default_response = None;
    }

    /// Forgets the captures and the voices, and arms the stall again.
    pub fn reset(&mut self)
        ensures
            final(self)@ == (StateModel {
                captures: Seq::empty(),
                voices: Seq::empty(),
                stalled_once: false,
                ..old(self)@
            }),
            old(self).wf() ==> final(self).wf(),
    {
        self.captures = Vec::new();
        self.voices = Vec::new();
        self.stalled_once = false;
        assert(self@.voices =~= Seq::empty());
    }

    /// The captures.
    pub fn captures_snapshot(&self) -> (r: Vec<Json>)
        ensures
            json::trees(r@) == self@.captures,
    {
        copy_list(&self.captures)
    }

    /// How many captures there are.
    pub fn capture_count(&self) -> (r: usize)
        ensures
            r == self@.captures.len(),
    {
        proof {
            json::lemma_trees(self.captures@);
        }
        self.captures.len()
    }

    /// Adds a capture.
    pub fn capture(&mut self, entry: Json)
        ensures
            final(self)@ == (StateModel {
                captures: old(self)@.captures.push(entry@),
                ..old(self)@
            }),
            old(self).wf() ==> final(self).wf(),
    {
        proof {
            json::lemma_trees_push(self.captures@, entry);
        }
        self.captures.push(entry);
    }

    /// How many programmed responses are still to come.
    pub fn pending(&self) -> (r: usize)
        ensures
            r == self@.responses.len(),
    {
        self.responses.len()
    }

    /// The programmed responses that are still to come, as values: programming these values
    /// programs the same responses.
    pub fn responses_snapshot(&self) -> (r: Vec<Json>)
        ensures
            json::trees(r@) == self@.responses.map_values(
                |s: SpecModel| responses::spec_tree(s),
            ),
            responses::specs_in(Tree::Arr(json::trees(r@))) == self@.responses.map_values(
                |s: SpecModel| SpecModel { derived_prompt: None, ..s },
            ),
    {
        let ghost all = self@.responses;
        let mut out: Vec<Json> = Vec::new();
        let mut i: usize = 0;
        while i < self.responses.len()
            invariant
                i <= self.responses.len(),
                all == responses::spec_models(self.responses@),
                out.len() == i,
                forall|j: int|
                    0 <= j < i ==> json::tree(#[trigger] out@[j]) == responses::spec_tree(all[j])
                        && responses::spec_of(json::tree(out@[j])) == (SpecModel {
                        derived_prompt: None,
                        ..all[j]
                    }),
            decreases self.responses.len() - i,
        {
            out.push(self.responses[i].to_value());
            i += 1;
        }
        proof {
            json::lemma_trees(out@);
            assert(json::trees(out@) =~= all.map_values(|s: SpecModel| responses::spec_tree(s)));
            assert(responses::specs_in(Tree::Arr(json::trees(out@))) =~= all.map_values(
                |s: SpecModel| SpecModel { derived_prompt: None, ..s },
            ));
        }
        out
    }

    /// Appends responses; how many there are then.
    pub fn responses_append(&mut self, body: &Json) -> (r: usize)
        ensures
            final(self)@ == (StateModel {
                responses: old(self)@.responses + responses::specs_in(body@),
                ..old(self)@
            }),
            r == final(self)@.responses.len(),
            old(self).wf() ==> final(self).wf(),
    {
        push_specs(&mut self.responses, body);
        self.responses.len()
    }

    /// Replaces the responses; how many there are then.
    pub fn responses_replace(&mut self, body: &Json) -> (r: usize)
        ensures
            final(self)@ == (StateModel {
                responses: responses::specs_in(body@),
                ..old(self)@
            }),
            r == final(self)@.responses.len(),
            old(self).wf() ==> final(self).wf(),
    {
        self.responses = VecDeque::new();
        assert(responses::spec_models(self.responses@) =~= Seq::empty());
        push_specs(&mut self.responses, body);
        assert(responses::spec_models(self.responses@) =~= responses::specs_in(body@));
        self.responses.len()
    }

    /// Drops the responses.
    pub fn responses_clear(&mut self)
        ensures
            final(self)@ == (StateModel { responses: Seq::empty(), ..old(self)@ }),
            old(self).wf() ==> final(self).wf(),
    {
        self.responses = VecDeque::new();
        assert(responses::spec_models(self.responses@) =~= Seq::empty());
    }

    /// Appends the responses of a file, by its content.
    pub fn responses_load(&mut self, content: &str)
        ensures
            final(self)@ == (StateModel {
                responses: old(self)@.responses + responses::file_specs(content@),
                ..old(self)@
            }),
            old(self).wf() ==> final(self).wf(),
    {
        responses::load_file(&mut self.responses, content);
        proof {
            lemma_file_underived(content@);
        }
    }

    /// Appends the response on a line of text, if there is one.
    pub fn responses_line(&mut self, line: &str)
        ensures
            final(self)@ == (StateModel {
                responses: match responses::line_spec(line@) {
                    Some(s) => old(self)@.responses.push(s),
                    None => old(self)@.responses,
                },
                ..old(self)@
            }),
            old(self).wf() ==> final(self).wf(),
    {
        responses::push_line(&mut self.responses, line);
    }

    /// Takes the next response, if there is one.
    pub fn next_response(&mut self) -> (r: Option<ResponseSpec>)
        ensures
            match r {
                Some(s) => old(self)@.responses.len() > 0 && s@ == old(self)@.responses[0]
                    && final(self)@ == (StateModel {
                    responses: old(self)@.responses.skip(1),
                    ..old(self)@
                }),
                None => old(self)@.responses.len() == 0 && final(self)@ == old(self)@,
            },
            old(self).wf() ==> final(self).wf(),
    {
        let ghost before = self@.responses;
        match self.responses.pop_front() {
            Some(s) => {
                assert(self@.responses =~= before.skip(1));
                Some(s)
            },
            None => {
                assert(self@.responses =~= before);
                None
            },
        }
    }

    /// Whether the gateway extension is on.
    pub fn llamaswap_enabled(&self) -> (r: bool)
        ensures
            r == self@.behavior.llamaswap,
    {
        self.behavior.llamaswap
    }

    /// The models.
    pub fn models_snapshot(&self) -> (r: Vec<Json>)
        ensures
            json::trees(r@) == self@.models,
    {
        copy_list(&self.models)
    }

    /// Sets the models, from a list or from the list under `models`; any other value changes
    /// nothing.
    pub fn set_models(&mut self, body: &Json)
        ensures
            final(self)@ == (match model_list(body@) {
                Some(list) => StateModel { models: config::models_of(list), ..old(self)@ },
                None => old(self)@,
            }),
            old(self).wf() ==> final(self).wf(),
    {
        let list = match body {
            Json::Arr(a) => a,
            _ => match body.list_at("models") {
                Some(a) => a,
                None => return ,
            },
        };
        self.models = normalize_models(list);
    }
}

/// The flag of a member or, where it is not given, what it was.
fn flag_at(body: &Json, key: &str, otherwise: bool) -> (r: bool)
    ensures
        r == bool_or(body@.bool_at(key@), otherwise),
{
    match body.bool_at(key) {
        Some(b) => b,
        None => otherwise,
    }
}

/// The number of a member or, where it is not given, what it was.
fn count_at(body: &Json, key: &str, otherwise: u64) -> (r: u64)
    ensures
        r == responses::number_or(body@.u64_at(key@), otherwise),
{
    match body.u64_at(key) {
        Some(n) => n,
        None => otherwise,
    }
}

/// The text of a member or, where it is not given, what it was.
fn text_at(body: &Json, key: &str, otherwise: &str) -> (r: String)
    ensures
        r@ == (match body@.str_at(key@) {
            Some(s) => s,
            None => otherwise@,
        }),
{
    match body.str_at(key) {
        Some(s) => s.to_owned(),
        None => otherwise.to_owned(),
    }
}

/// The names of a behavior's members are distinct.
pub proof fn lemma_behavior_keys()
    ensures
        "stall_first_with_tools"@.len() == 22,
        "stall_seconds"@.len() == 13,
        "heartbeat_sentinel"@.len() == 18,
        "consume_only_with_tools"@.len() == 23,
        "connect_delay_ms"@.len() == 16,
        "validate_chat"@.len() == 13,
        "reject_silent_audio"@.len() == 19,
        "require_voice_consent"@.len() == 21,
        "context_window"@.len() == 14,
        "chars_per_token"@.len() == 15,
        "llamaswap"@.len() == 9,
        "empty_transcript"@.len() == 16,
        "speech_frame_delay_ms"@.len() == 21,
        "transcript"@.len() == 10,
        "stall_seconds"@ != "validate_chat"@,
        "connect_delay_ms"@ != "empty_transcript"@,
        "require_voice_consent"@ != "speech_frame_delay_ms"@,
{
    reveal_strlit("stall_first_with_tools");
    reveal_strlit("stall_seconds");
    reveal_strlit("heartbeat_sentinel");
    reveal_strlit("consume_only_with_tools");
    reveal_strlit("connect_delay_ms");
    reveal_strlit("validate_chat");
    reveal_strlit("reject_silent_audio");
    reveal_strlit("require_voice_consent");
    reveal_strlit("context_window");
    reveal_strlit("chars_per_token");
    reveal_strlit("llamaswap");
    reveal_strlit("empty_transcript");
    reveal_strlit("speech_frame_delay_ms");
    reveal_strlit("transcript");
    assert("stall_seconds"@[0] == 's' && "validate_chat"@[0] == 'v');
    assert("connect_delay_ms"@[0] == 'c' && "empty_transcript"@[0] == 'e');
    assert("require_voice_consent"@[0] == 'r' && "speech_frame_delay_ms"@[0] == 's');
}

/// Merging what describes a behavior gives that behavior, whatever there was before.
proof fn lemma_behavior_back(b: BehaviorModel, old_: BehaviorModel)
    requires
        json::num(b.stall_seconds).as_u64() == Some(b.stall_seconds),
        json::num(b.connect_delay_ms).as_u64() == Some(b.connect_delay_ms),
        json::num(b.chars_per_token).as_u64() == Some(b.chars_per_token),
        json::num(b.speech_frame_delay_ms).as_u64() == Some(b.speech_frame_delay_ms),
        b.context_window matches Some(n) ==> json::num(n).as_u64() == Some(n),
    ensures
        merged(old_, behavior_tree(b)) == b,
{
    lemma_behavior_keys();
}

/// Taking in the same value twice is taking it in once.
pub proof fn lemma_merged_twice(b: BehaviorModel, t: Tree)
    ensures
        merged(merged(b, t), t) == merged(b, t),
{
}

/// Where a name belongs in a row of names.
proof fn lemma_enrolled(names: Seq<Seq<char>>, name: Seq<char>, i: int)
    requires
        ascending(names),
        0 <= i <= names.len(),
        forall|j: int| i <= j < names.len() ==> text::precedes(name, #[trigger] names[j]),
        i > 0 ==> names[i - 1] == name || text::precedes(names[i - 1], name),
    ensures
        i > 0 && names[i - 1] == name ==> names.contains(name) && enrolled(names, name) == names,
        !(i > 0 && names[i - 1] == name) ==> !names.contains(name) && enrolled(names, name)
            == names.insert(i, name),
    decreases names.len(),
{
    if i > 0 && names[i - 1] == name {
        assert(names.contains(name));
    } else {
        if names.contains(name) {
            let k = choose|k: int| 0 <= k < names.len() && names[k] == name;
            text::lemma_precedes_irreflexive(name);
            if k < i - 1 {
                assert(text::precedes(names[k], names[i - 1]));
                text::lemma_precedes_transitive(name, names[i - 1], name);
            }
            assert(false);
        }
    }
    if i < names.len() {
        let last = names.last();
        assert(text::precedes(name, names[names.len() - 1]));
        text::lemma_precedes_irreflexive(name);
        if text::precedes(last, name) {
            text::lemma_precedes_transitive(name, last, name);
        }
        let rest = names.drop_last();
        assert forall|j: int| i <= j < rest.len() implies text::precedes(
            name,
            #[trigger] rest[j],
        ) by {
            assert(rest[j] == names[j]);
        }
        lemma_enrolled(rest, name, i);
        if i > 0 && names[i - 1] == name {
            assert(rest.push(last) =~= names);
        } else {
            assert(rest.insert(i, name).push(last) =~= names.insert(i, name));
        }
    } else if !(i > 0 && names[i - 1] == name) {
        assert(names.insert(i, name) =~= names.push(name));
        if names.len() == 0 {
            assert(names.push(name) =~= seq![name]);
        }
    }
}

/// Enrolling a voice keeps the names in order, each once, and adds exactly that name.
pub proof fn law_voices_stay_in_order(names: Seq<Seq<char>>, name: Seq<char>)
    requires
        ascending(names),
    ensures
        ascending(enrolled(names, name)),
        forall|k: Seq<char>| #[trigger]
            enrolled(names, name).contains(k) <==> names.contains(k) || k == name,
    decreases names.len(),
{
    let e = enrolled(names, name);
    if names.len() == 0 {
        assert(e[0] == name);
    } else {
        let last = names.last();
        assert(last == names[names.len() - 1]);
        let rest = names.drop_last();
        if last == name {
            assert(names.contains(name));
        } else if text::precedes(last, name) {
            assert forall|i: int, j: int| 0 <= i < j < e.len() implies text::precedes(
                #[trigger] e[i],
                #[trigger] e[j],
            ) by {
                if j == names.len() {
                    if i < names.len() - 1 {
                        assert(text::precedes(names[i], names[names.len() - 1]));
                        text::lemma_precedes_transitive(names[i], last, name);
                    }
                } else {
                    assert(text::precedes(names[i], names[j]));
                }
            }
            assert forall|k: Seq<char>| #[trigger]
                e.contains(k) <==> names.contains(k) || k == name by {
                if names.contains(k) {
                    let i = choose|i: int| 0 <= i < names.len() && names[i] == k;
                    assert(e[i] == k);
                }
                assert(e[names.len() as int] == name);
            }
        } else {
            text::lemma_precedes_total(last, name);
            law_voices_stay_in_order(rest, name);
            let inner = enrolled(rest, name);
            assert forall|i: int| 0 <= i < inner.len() implies text::precedes(
                #[trigger] inner[i],
                last,
            ) by {
                assert(inner.contains(inner[i]));
                if rest.contains(inner[i]) {
                    let k = choose|k: int| 0 <= k < rest.len() && rest[k] == inner[i];
                    assert(text::precedes(names[k], names[names.len() - 1]));
                }
            }
            assert forall|i: int, j: int| 0 <= i < j < e.len() implies text::precedes(
                #[trigger] e[i],
                #[trigger] e[j],
            ) by {
                if j < inner.len() {
                    assert(text::precedes(inner[i], inner[j]));
                }
            }
            assert forall|k: Seq<char>| #[trigger]
                e.contains(k) <==> names.contains(k) || k == name by {
                if inner.contains(k) {
                    let i = choose|i: int| 0 <= i < inner.len() && inner[i] == k;
                    assert(e[i] == k);
                }
                if rest.contains(k) {
                    let i = choose|i: int| 0 <= i < rest.len() && rest[i] == k;
                    assert(names[i] == k);
                }
                if names.contains(k) && k != last {
                    let i = choose|i: int| 0 <= i < names.len() && names[i] == k;
                    assert(rest[i] == k);
                }
                assert(e[inner.len() as int] == last);
                if e.contains(k) && k != last {
                    let i = choose|i: int| 0 <= i < e.len() && e[i] == k;
                    assert(inner[i] == k);
                }
            }
        }
    }
}

impl State {
    /// How the server behaves.
    pub fn behavior(&self) -> (r: &Behavior)
        ensures
            r@ == self@.behavior,
    {
        &self.behavior
    }

    /// The behavior as a value. Merging it anywhere gives this behavior again.
    pub fn behavior_value(&self) -> (r: Json)
        ensures
            r@ == behavior_tree(self@.behavior),
            forall|b: BehaviorModel| #[trigger] merged(b, r@) == self@.behavior,
    {
        let b = &self.behavior;
        let window = match b.context_window {
            Some(n) => Json::number(n),
            None => Json::Null,
        };
        let transcript = match &b.transcript {
            Some(s) => Json::text(s.as_str()),
            None => Json::Null,
        };
        let r = Members::new()
            .with("stall_first_with_tools", Json::Bool(b.stall_first_with_tools))
            .with("stall_seconds", Json::number(b.stall_seconds))
            .with("heartbeat_sentinel", Json::text(b.heartbeat_sentinel.as_str()))
            .with("consume_only_with_tools", Json::Bool(b.consume_only_with_tools))
            .with("connect_delay_ms", Json::number(b.connect_delay_ms))
            .with("validate_chat", Json::Bool(b.validate_chat))
            .with("reject_silent_audio", Json::Bool(b.reject_silent_audio))
            .with("require_voice_consent", Json::Bool(b.require_voice_consent))
            .with("context_window", window)
            .with("chars_per_token", Json::number(b.chars_per_token))
            .with("llamaswap", Json::Bool(b.llamaswap))
            .with("empty_transcript", Json::Bool(b.empty_transcript))
            .with("speech_frame_delay_ms", Json::number(b.speech_frame_delay_ms))
            .with("transcript", transcript)
            .done();
        proof {
            assert forall|o: BehaviorModel| #[trigger] merged(o, r@) == self@.behavior by {
                lemma_behavior_back(self@.behavior, o);
            }
        }
        r
    }

    /// Takes in what a value says of the behavior.
    #[verifier::rlimit(40)]
    pub fn behavior_merge(&mut self, body: &Json)
        ensures
            final(self)@ == (StateModel {
                behavior: merged(old(self)@.behavior, body@),
                ..old(self)@
            }),
            old(self).wf() ==> final(self).wf(),
    {
        let b = &self.behavior;
        let context_window = match body.get("context_window") {
            Some(v) => v.as_u64(),
            None => b.context_window,
        };
        let transcript = match body.get("transcript") {
            Some(v) => match v.as_str() {
                Some(s) => Some(s.to_owned()),
                None => None,
            },
            None => b.transcript.clone(),
        };
        self.behavior = Behavior {
            stall_first_with_tools: flag_at(body, "stall_first_with_tools", b.stall_first_with_tools),
            stall_seconds: count_at(body, "stall_seconds", b.stall_seconds),
            heartbeat_sentinel: text_at(body, "heartbeat_sentinel", b.heartbeat_sentinel.as_str()),
            consume_only_with_tools: flag_at(body, "consume_only_with_tools", b.consume_only_with_tools),
            connect_delay_ms: count_at(body, "connect_delay_ms", b.connect_delay_ms),
            validate_chat: flag_at(body, "validate_chat", b.validate_chat),
            reject_silent_audio: flag_at(body, "reject_silent_audio", b.reject_silent_audio),
            require_voice_consent: flag_at(body, "require_voice_consent", b.require_voice_consent),
            context_window,
            chars_per_token: count_at(body, "chars_per_token", b.chars_per_token),
            llamaswap: flag_at(body, "llamaswap", b.llamaswap),
            empty_transcript: flag_at(body, "empty_transcript", b.empty_transcript),
            speech_frame_delay_ms: count_at(body, "speech_frame_delay_ms", b.speech_frame_delay_ms),
            transcript,
        };
    }

    /// The names of the enrolled voices.
    pub fn voice_names(&self) -> (r: Vec<String>)
        ensures
            text::texts(r@) == self@.voices,
    {
        copy_texts(&self.voices)
    }

    /// Enrols a voice, unless the name is taken and the enrolment is not forced; whether it was.
    pub fn enrol_voice(&mut self, name: &str, force: bool) -> (r: bool)
        requires
            old(self).wf(),
        ensures
            final(self).wf(),
            r == (force || !old(self)@.voices.contains(name@)),
            final(self)@ == (if r {
                StateModel { voices: enrolled(old(self)@.voices, name@), ..old(self)@ }
            } else {
                old(self)@
            }),
    {
        let ghost names = self@.voices;
        let mut i: usize = self.voices.len();
        while i > 0 && comes_before(name, self.voices[i - 1].as_str())
            invariant
                i <= self.voices.len(),
                names == text::texts(self.voices@),
                forall|j: int| i <= j < names.len() ==> text::precedes(name@, #[trigger] names[j]),
            decreases i,
        {
            assert(names[i - 1] == self.voices@[i - 1]@);
            i -= 1;
        }
        proof {
            if i > 0 {
                assert(names[i - 1] == self.voices@[i - 1]@);
                text::lemma_precedes_total(name@, names[i - 1]);
            }
            lemma_enrolled(names, name@, i as int);
            law_voices_stay_in_order(names, name@);
        }
        if i > 0 && same(self.voices[i - 1].as_str(), name) {
            return force;
        }
        self.voices.insert(i, name.to_owned());
        assert(text::texts(self.voices@) =~= names.insert(i as int, name@));
        true
    }

    /// Whether the request is the one to stall, and for how many seconds; the latch closes
    /// behind it.
    pub fn stall(&mut self, path: &str, body: &Json) -> (r: Option<u64>)
        ensures
            r == (if behavior::stalls(
                old(self)@.behavior,
                old(self)@.stalled_once,
                path@,
                body@,
            ) {
                Some(old(self)@.behavior.stall_seconds)
            } else {
                None
            }),
            final(self)@ == (StateModel {
                stalled_once: old(self)@.stalled_once || r is Some,
                ..old(self)@
            }),
            old(self).wf() ==> final(self).wf(),
    {
        if should_stall(&self.behavior, &mut self.stalled_once, path, body) {
            Some(self.behavior.stall_seconds)
        } else {
            None
        }
    }

    /// Whether captures are mirrored anywhere.
    pub fn logs(&self) -> (r: bool)
        ensures
            r == (self@.log_stdout || self@.log_file),
    {
        self.log_stdout || self.log_file
    }
}

/// The first match that stands in a text decides its audio; where none does, the speech file
/// speaks, if there is one.
pub proof fn law_matches_go_in_order(s: StateModel, input: Seq<char>, k: int)
    requires
        0 <= k <= s.speech_variants.len(),
        forall|i: int|
            0 <= i < k ==> !text::occurs(
                text::lowercase(input),
                (#[trigger] s.speech_variants[i]).0,
            ),
    ensures
        k < s.speech_variants.len() && text::occurs(
            text::lowercase(input),
            s.speech_variants[k].0,
        ) ==> speech_of(s, input) == Some(s.speech_variants[k].1),
        k == s.speech_variants.len() ==> speech_of(s, input) == s.speech_pcm,
{
    let lowered = text::lowercase(input);
    if k < s.speech_variants.len() {
        if text::occurs(lowered, s.speech_variants[k].0) {
            lemma_variant_for(s.speech_variants, lowered, k);
        }
    } else {
        lemma_no_variant(s.speech_variants, lowered);
    }
}

/// Where no match stands in the text there is no audio for it.
proof fn lemma_no_variant(variants: Seq<(Seq<char>, Seq<u8>)>, lowered: Seq<char>)
    requires
        forall|i: int|
            0 <= i < variants.len() ==> !text::occurs(lowered, (#[trigger] variants[i]).0),
    ensures
        variant_for(variants, lowered) is None,
    decreases variants.len(),
{
    if variants.len() > 0 {
        assert(!text::occurs(lowered, variants[0].0));
        let rest = variants.skip(1);
        assert forall|i: int| 0 <= i < rest.len() implies !text::occurs(
            lowered,
            (#[trigger] rest[i]).0,
        ) by {
            assert(rest[i] == variants[i + 1]);
        }
        lemma_no_variant(rest, lowered);
    }
}

/// The bytes are a row of chunks, none of them tagged `data`: a tag, a length of four bytes with
/// the lowest first, so many bytes, and one more where the length is odd.
pub open spec fn other_chunks(b: Seq<u8>) -> bool
    decreases b.len(),
{
    b.len() == 0 || {
        &&& b.len() >= 8
        &&& b.take(4) != vstd::utf8::encode_utf8("data"@)
        &&& b.len() >= 8 + length_at(b, 4) + length_at(b, 4) % 2
        &&& other_chunks(b.skip(8 + length_at(b, 4) as int + (length_at(b, 4) % 2) as int))
    }
}

/// The samples of a wav file are the content of its data chunk, whatever chunks stand ahead of it
/// and whatever stands behind; a length that reaches past the end is cut there. Bytes that do not
/// begin like a wav file are samples already.
pub proof fn law_the_samples_of_a_wav_are_its_data(
    head: Seq<u8>,
    other: Seq<u8>,
    size: Seq<u8>,
    data: Seq<u8>,
    behind: Seq<u8>,
)
    requires
        head.len() == 12,
        size.len() == 4,
        other_chunks(other),
        length_at(size, 0) == data.len() || (length_at(size, 0) > data.len() && behind.len() == 0),
    ensures
        head.take(4) == vstd::utf8::encode_utf8("RIFF"@) ==> pcm_of(
            head + other + vstd::utf8::encode_utf8("data"@) + size + data + behind,
        ) == data,
        head.take(4) != vstd::utf8::encode_utf8("RIFF"@) ==> pcm_of(head + other) == head + other,
{
    let tag = vstd::utf8::encode_utf8("data"@);
    let bytes = head + other + tag + size + data + behind;
    lemma_tags();
    if head.take(4) == vstd::utf8::encode_utf8("RIFF"@) {
        assert(bytes.subrange(0, 4) =~= head.take(4));
        assert(bytes.skip(12) =~= other + tag + size + data + behind);
        lemma_data_chunk(bytes, 12, other, size, data, behind);
    } else {
        let plain = head + other;
        assert(plain.subrange(0, 4) =~= head.take(4));
    }
}

/// The tags of a wav file have four bytes.
proof fn lemma_tags()
    ensures
        vstd::utf8::encode_utf8("data"@).len() == 4,
{
    reveal_strlit("data");
    reveal_with_fuel(vstd::utf8::encode_utf8, 5);
    vstd::utf8::is_ascii_chars_encode_utf8("data"@);
}

/// Walking over other chunks leads to the data chunk.
proof fn lemma_data_chunk(
    bytes: Seq<u8>,
    at: int,
    other: Seq<u8>,
    size: Seq<u8>,
    data: Seq<u8>,
    behind: Seq<u8>,
)
    requires
        0 <= at <= bytes.len(),
        size.len() == 4,
        other_chunks(other),
        bytes.skip(at) == other + vstd::utf8::encode_utf8("data"@) + size + data + behind,
        length_at(size, 0) == data.len() || (length_at(size, 0) > data.len() && behind.len() == 0),
    ensures
        data_chunk(bytes, at) == Some(data),
    decreases other.len(),
{
    let tag = vstd::utf8::encode_utf8("data"@);
    lemma_tags();
    let left = bytes.skip(at);
    assert forall|i: int| 0 <= i < left.len() implies #[trigger] left[i] == bytes[at + i] by {}
    if other.len() == 0 {
        assert(other =~= Seq::<u8>::empty());
        assert(left =~= tag + size + data + behind);
        assert(bytes.subrange(at, at + 4) =~= left.take(4));
        assert(left.take(4) =~= tag);
        assert(bytes[at + 4] == left[4] && bytes[at + 5] == left[5]);
        assert(bytes[at + 6] == left[6] && bytes[at + 7] == left[7]);
        assert(left[4] == size[0] && left[5] == size[1] && left[6] == size[2] && left[7] == size[3]);
        let len = length_at(bytes, at + 4);
        assert(len == length_at(size, 0));
        let end = if at + 8 + len < bytes.len() {
            at + 8 + len
        } else {
            bytes.len() as int
        };
        assert(bytes.subrange(at + 8, end) =~= left.subrange(8, end - at));
        assert(left.subrange(8, end - at) =~= data);
    } else {
        let len = length_at(other, 4);
        let n = 8 + len as int + (len % 2) as int;
        assert(bytes.subrange(at, at + 4) =~= left.take(4));
        assert(left.take(4) =~= other.take(4));
        assert(bytes[at + 4] == left[4] && bytes[at + 5] == left[5]);
        assert(bytes[at + 6] == left[6] && bytes[at + 7] == left[7]);
        assert(left[4] == other[4] && left[5] == other[5] && left[6] == other[6] && left[7]
            == other[7]);
        assert(length_at(bytes, at + 4) == len);
        assert(bytes.skip(at + n) =~= left.skip(n));
        assert(left.skip(n) =~= other.skip(n) + tag + size + data + behind);
        lemma_data_chunk(bytes, at + n, other.skip(n), size, data, behind);
    }
}

/// A server starts as it is configured: its behavior, its models, its logs and its audio are those
/// of the configuration, nothing is captured, enrolled or programmed, the stall is armed, and its
/// fallback is the value that was given.
pub proof fn law_a_server_starts_as_configured(
    c: ConfigModel,
    speech: Option<Seq<u8>>,
    contents: Seq<Seq<u8>>,
)
    requires
        contents.len() == c.speech_for.len(),
    ensures
        ({
            let s = started(c, speech, contents);
            &&& s.captures.len() == 0
            &&& s.responses.len() == 0
            &&& s.voices.len() == 0
            &&& !s.stalled_once
            &&& s.behavior == c.behavior
            &&& s.models == c.models
            &&& s.log_stdout == c.log_stdout
            &&& s.log_file <==> c.log_file is Some
            &&& s.default_response is Some <==> c.default_response is Some
            &&& c.default_response matches Some(t) ==> s.default_response == Some(
                responses::spec_of(t),
            )
            &&& s.speech_pcm == (match speech {
                Some(b) => Some(pcm_of(b)),
                None => None,
            })
            &&& s.speech_variants.len() == c.speech_for.len()
            &&& forall|i: int|
                0 <= i < c.speech_for.len() ==> (#[trigger] s.speech_variants[i]) == (
                    c.speech_for[i].0,
                    pcm_of(contents[i]),
                )
        }),
{
}

} // verus!
