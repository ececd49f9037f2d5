//! The audio endpoints: speech, transcriptions, voices, and the registry of voices.

use vstd::prelude::*;
use vstd::string::*;

use crate::audio_probe::{self, is_silent};
use crate::behavior::BehaviorModel;
use crate::handlers::{self, b64, respond, Action, ActionModel, Handler};
use crate::json::{self, list_of_texts, Json, Members, Tree};
use crate::response::{
    self, flatten, Frame, FrameModel, HttpResponse, ParsedRequest, RequestModel, ResponseModel,
    CONTENT_TYPE_SSE,
};
use crate::state::{self, State, StateModel};
use crate::text::{self, same};

verus! {

/// The path of speech.
pub const SPEECH_PATH: &'static str = "/v1/audio/speech";

/// The path of transcriptions.
pub const TRANSCRIPTIONS_PATH: &'static str = "/v1/audio/transcriptions";

/// The path of voices.
pub const VOICES_PATH: &'static str = "/v1/audio/voices";

/// The path of the registry of voices.
pub const REGISTRY_VOICES_PATH: &'static str = "/v1/voices";

/// The content type of raw audio.
pub const CONTENT_TYPE_PCM: &'static str = "audio/pcm";

/// The length of the built-in audio, and of one streamed frame: a multiple of three, so that
/// the text of a full frame needs no padding.
pub const PCM_FRAME_LEN: usize = 1536;

/// The period of the built-in audio: a prime, and so coprime with the width of a sample.
pub const PCM_RAMP_PERIOD: usize = 251;

/// The text that every transcription gives, unless another is configured.
pub const STT_TRANSCRIPT: &'static str = "this is a test transcription";

/// The preset voice.
pub const DEFAULT_VOICE: &'static str = "alloy";

/// The name of a cloned voice that was given none.
pub const CLONED_VOICE: &'static str = "cloned-voice";

/// The format of an upload whose name has no ending.
pub const DEFAULT_VOICE_FORMAT: &'static str = "wav";

/// The built-in audio: every byte tells its position, so that audio that was shifted, cut or
/// put in another order shows.
pub open spec fn ramp() -> Seq<u8> {
    Seq::new(PCM_FRAME_LEN as nat, |i: int| (i % PCM_RAMP_PERIOD as int) as u8)
}

/// The built-in audio.
fn pcm_ramp() -> (r: Vec<u8>)
    ensures
        r@ == ramp(),
{
    let mut out: Vec<u8> = Vec::new();
    let mut i: usize = 0;
    while i < PCM_FRAME_LEN
        invariant
            i <= PCM_FRAME_LEN,
            out@ == ramp().take(i as int),
        decreases PCM_FRAME_LEN - i,
    {
        out.push((i % PCM_RAMP_PERIOD) as u8);
        i += 1;
        assert(out@ =~= ramp().take(i as int));
    }
    assert(ramp().take(i as int) =~= ramp());
    out
}

/// Audio that slipped shows at every byte: unless the slip is a multiple of the period, no byte
/// of the built-in audio stands where the slip puts it.
pub proof fn law_a_slip_shows(i: int, slip: int)
    requires
        0 <= i,
        0 < slip,
        i + slip < PCM_FRAME_LEN,
        slip % (PCM_RAMP_PERIOD as int) != 0,
    ensures
        ramp()[i] != ramp()[i + slip],
{
    let p = PCM_RAMP_PERIOD as int;
    if i % p == (i + slip) % p {
        vstd::arithmetic::div_mod::lemma_fundamental_div_mod(i, p);
        vstd::arithmetic::div_mod::lemma_fundamental_div_mod(i + slip, p);
        let k = (i + slip) / p - i / p;
        assert(slip == p * k) by (nonlinear_arith)
            requires
                i == p * (i / p) + i % p,
                i + slip == p * ((i + slip) / p) + (i + slip) % p,
                i % p == (i + slip) % p,
                k == (i + slip) / p - i / p,
        ;
        vstd::arithmetic::div_mod::lemma_mod_multiples_basic(k, p);
        assert(p * k == k * p) by (nonlinear_arith);
    }
}

/// Audio cut into frames: full ones, and a last one that may be shorter.
pub open spec fn frames_of(pcm: Seq<u8>) -> Seq<Seq<u8>>
    decreases pcm.len(),
{
    if pcm.len() == 0 {
        Seq::empty()
    } else if pcm.len() <= PCM_FRAME_LEN {
        seq![pcm]
    } else {
        seq![pcm.take(PCM_FRAME_LEN as int)] + frames_of(pcm.skip(PCM_FRAME_LEN as int))
    }
}

/// The event that carries one frame of audio.
pub open spec fn audio_event(frame: Seq<u8>) -> Seq<char> {
    "event: speech.audio.delta\ndata: {\"audio\":\""@ + handlers::base64(frame) + "\"}\n\n"@
}

/// The events that end a reply.
pub const SPEECH_DONE: &'static str = "event: speech.audio.done\ndata: {}\n\ndata: [DONE]\n\n";

/// The frame of a streamed reply that carries one frame of audio.
pub open spec fn audio_carrier(frame: Seq<u8>, pace: u64) -> FrameModel {
    FrameModel { delay_ms: pace, data: vstd::utf8::encode_utf8(audio_event(frame)) }
}

/// The frames of a streamed reply that carry a row of frames of audio.
pub open spec fn audio_carriers(frames: Seq<Seq<u8>>, pace: u64) -> Seq<FrameModel> {
    frames.map_values(|f: Seq<u8>| audio_carrier(f, pace))
}

/// The frames of a streamed reply, each with the pause ahead of it.
pub open spec fn speech_frames(pcm: Seq<u8>, pace: u64) -> Seq<FrameModel> {
    audio_carriers(frames_of(pcm), pace).push(FrameModel { delay_ms: pace, data: vstd::utf8::encode_utf8(SPEECH_DONE@) })
}

/// The reply with some audio: raw, or as events, and those in one go or paced.
pub open spec fn speech_reply(pcm: Seq<u8>, sse: bool, pace: u64) -> ResponseModel {
    if sse && pace > 0 {
        response::timed_reply(200, CONTENT_TYPE_SSE@, speech_frames(pcm, pace), 0)
    } else if sse {
        response::sse_reply(200, response::frame_bytes(speech_frames(pcm, 0)))
    } else {
        response::plain(200, CONTENT_TYPE_PCM@, pcm)
    }
}

/// The request names a voice of its own and does not attest consent.
pub open spec fn lacks_consent(b: BehaviorModel, body: Tree) -> bool {
    &&& b.require_voice_consent
    &&& body.str_at("voice"@) matches Some(v)
    &&& v.len() > 0
    &&& v != DEFAULT_VOICE@
    &&& body.get("consent_attestation"@) is None
}

/// The refusal of a cloned voice.
pub open spec fn consent_error() -> Tree {
    Tree::Obj(
        map![
            "error"@ => Tree::Obj(
                map![
                    "message"@ => Tree::Str(
                        "voice cloning requires a 'consent_attestation' field in the request body"@,
                    ),
                    "type"@ => Tree::Str("invalid_request_error"@),
                    "param"@ => Tree::Str("consent_attestation"@),
                    "code"@ => Tree::Str("consent_required"@),
                ],
            ),
        ],
    )
}

/// The audio that is spoken for a request.
pub open spec fn spoken(s: StateModel, body: Tree) -> Seq<u8> {
    let input = match body.str_at("input"@) {
        Some(t) => t,
        None => ""@,
    };
    match state::speech_of(s, input) {
        Some(pcm) => pcm,
        None => ramp(),
    }
}

/// The request asks for events.
pub open spec fn asks_for_sse(body: Tree) -> bool {
    body.str_at("stream_format"@) == Some("sse"@)
}

/// The family of speech.
pub struct AudioSpeech;

/// The refusal of a cloned voice.
fn consent_body() -> (r: Json)
    ensures
        r@ == consent_error(),
{
    let e = Members::new().with(
        "message",
        Json::text("voice cloning requires a 'consent_attestation' field in the request body"),
    ).with("type", Json::text("invalid_request_error")).with(
        "param",
        Json::text("consent_attestation"),
    ).with("code", Json::text("consent_required")).done();
    Members::new().with("error", e).done()
}

/// The refusal of a cloned voice, where it is due.
fn consent_refusal(state: &State, body: &Json) -> (r: Option<HttpResponse>)
    ensures
        r is Some == lacks_consent(state@.behavior, body@),
        r matches Some(h) ==> h@ == response::json_reply(400, consent_error()),
{
    if !state.behavior().require_voice_consent {
        return None;
    }
    let voice = match body.str_at("voice") {
        Some(v) => v,
        None => return None,
    };
    if voice.is_empty() || same(voice, DEFAULT_VOICE) {
        return None;
    }
    if body.get("consent_attestation").is_some() {
        return None;
    }
    Some(HttpResponse::json(400, &consent_body()))
}

/// The event that carries one frame of audio.
fn audio_frame(frame: &[u8], pace: u64) -> (r: Frame)
    ensures
        r@ == audio_carrier(frame@, pace),
{
    let mut e = "event: speech.audio.delta\ndata: {\"audio\":\"".to_owned();
    e.append(b64(frame).as_str());
    e.append("\"}\n\n");
    Frame { delay_ms: pace, data: e.as_str().as_bytes_vec() }
}

/// The frames of a streamed reply.
fn cut(pcm: &[u8], pace: u64) -> (r: Vec<Frame>)
    ensures
        response::frame_models(r@) == speech_frames(pcm@, pace),
{
    let mut out: Vec<Frame> = Vec::new();
    let n: usize = pcm.len();
    let mut i: usize = 0;
    assert(pcm@.skip(0) =~= pcm@);
    assert(response::frame_models(out@) + audio_carriers(frames_of(pcm@), pace)
        =~= audio_carriers(frames_of(pcm@), pace));
    while i < n
        invariant
            i <= n,
            n == pcm.len(),
            response::frame_models(out@) + audio_carriers(frames_of(pcm@.skip(i as int)), pace)
                == audio_carriers(frames_of(pcm@), pace),
        decreases n - i,
    {
        let ghost left = pcm@.skip(i as int);
        let ghost before = response::frame_models(out@);
        let size: usize = if n - i < PCM_FRAME_LEN {
            n - i
        } else {
            PCM_FRAME_LEN
        };
        let frame = vstd::slice::slice_subrange(pcm, i, i + size);
        out.push(audio_frame(frame, pace));
        i = i + size;
        proof {
            assert(frame@ =~= left.take(size as int));
            assert(response::frame_models(out@) =~= before.push(audio_carrier(frame@, pace)));
            assert(pcm@.skip(i as int) =~= left.skip(size as int));
            if left.len() <= PCM_FRAME_LEN {
                assert(frame@ =~= left);
                assert(frames_of(left) =~= seq![frame@]);
                assert(frames_of(left.skip(size as int)) =~= Seq::empty());
            } else {
                assert(frames_of(left) == seq![frame@] + frames_of(left.skip(size as int)));
            }
            assert(before + audio_carriers(frames_of(left), pace) =~= response::frame_models(out@)
                + audio_carriers(frames_of(left.skip(size as int)), pace));
        }
    }
    assert(frames_of(pcm@.skip(i as int)) =~= Seq::empty());
    assert(response::frame_models(out@) =~= audio_carriers(frames_of(pcm@), pace));
    out.push(Frame { delay_ms: pace, data: SPEECH_DONE.as_bytes_vec() });
    assert(response::frame_models(out@) =~= speech_frames(pcm@, pace));
    out
}

/// The reply with some audio.
fn speech(pcm: &[u8], sse: bool, pace: u64) -> (r: HttpResponse)
    ensures
        r@ == speech_reply(pcm@, sse, pace),
{
    if sse && pace > 0 {
        HttpResponse::streamed(200, CONTENT_TYPE_SSE, cut(pcm, pace), 0)
    } else if sse {
        HttpResponse::sse(200, flatten(cut(pcm, 0)))
    } else {
        HttpResponse::new(200, CONTENT_TYPE_PCM, vstd::slice::slice_to_vec(pcm))
    }
}

impl Handler for AudioSpeech {
    open spec fn serves(&self, method: Seq<char>, path: Seq<char>) -> bool {
        method == "POST"@ && path == SPEECH_PATH@
    }

    open spec fn advertised(&self) -> Seq<Seq<char>> {
        seq!["POST /v1/audio/speech"@]
    }

    open spec fn handled(&self, s: StateModel, req: RequestModel, path: Seq<char>) -> (
        StateModel,
        ActionModel,
    ) {
        (
            s,
            handlers::at_once(
                if lacks_consent(s.behavior, req.body) {
                    response::json_reply(400, consent_error())
                } else {
                    speech_reply(
                        spoken(s, req.body),
                        asks_for_sse(req.body),
                        s.behavior.speech_frame_delay_ms,
                    )
                },
            ),
        )
    }

    fn matches(&self, method: &str, path: &str) -> (r: bool) {
        same(method, "POST") && same(path, SPEECH_PATH)
    }

    fn handle(&self, state: &mut State, req: &ParsedRequest, path: &str) -> (r: Action) {
        if let Some(refusal) = consent_refusal(state, &req.body) {
            return respond(refusal);
        }
        let sse = match req.body.str_at("stream_format") {
            Some(f) => same(f, "sse"),
            None => false,
        };
        let input = match req.body.str_at("input") {
            Some(t) => t,
            None => "",
        };
        let pace: u64 = state.behavior().speech_frame_delay_ms;
        match state.speech_for(input) {
            Some(pcm) => respond(speech(pcm, sse, pace)),
            None => respond(speech(pcm_ramp().as_slice(), sse, pace)),
        }
    }

    fn routes(&self) -> (r: &'static [&'static str]) {
        let r: &'static [&'static str] = &["POST /v1/audio/speech"];
        assert(handlers::line_texts(r@) =~= self.advertised());
        r
    }
}

/// All the bytes of a row of frames.
pub open spec fn together(frames: Seq<Seq<u8>>) -> Seq<u8>
    decreases frames.len(),
{
    if frames.len() == 0 {
        Seq::<u8>::empty()
    } else {
        frames[0] + together(frames.skip(1))
    }
}

/// What a client that decodes each event in turn puts together.
pub open spec fn received(pcm: Seq<u8>) -> Seq<u8> {
    together(frames_of(pcm).map_values(|f: Seq<u8>| handlers::decoded(handlers::base64(f))))
}

/// Both transports carry the same audio: decoded event by event, the stream gives the bytes of
/// the raw reply, in order, none added and none missing.
pub proof fn law_events_carry_the_audio(pcm: Seq<u8>)
    ensures
        received(pcm) == pcm,
    decreases pcm.len(),
{
    let decode = |f: Seq<u8>| handlers::decoded(handlers::base64(f));
    let all = frames_of(pcm).map_values(decode);
    if pcm.len() == 0 {
        assert(all =~= Seq::empty());
        assert(received(pcm) =~= pcm);
    } else if pcm.len() <= PCM_FRAME_LEN {
        handlers::law_base64_decodes(pcm);
        assert(all =~= seq![pcm]);
        assert(all.skip(1) =~= Seq::empty());
        assert(together(all.skip(1)) =~= Seq::empty());
        assert(received(pcm) =~= pcm);
    } else {
        let first = pcm.take(PCM_FRAME_LEN as int);
        let rest = pcm.skip(PCM_FRAME_LEN as int);
        handlers::law_base64_decodes(first);
        law_events_carry_the_audio(rest);
        assert(all[0] == first);
        assert(all.skip(1) =~= frames_of(rest).map_values(decode));
        assert(received(pcm) =~= first + rest);
        assert(first + rest =~= pcm);
    }
}

/// Pacing changes no byte of a spoken reply.
pub proof fn law_paced_speech_is_the_same(pcm: Seq<u8>, pace: u64, other: u64)
    ensures
        response::body_bytes(speech_reply(pcm, true, pace).body) == response::body_bytes(
            speech_reply(pcm, true, other).body,
        ),
{
    let a = speech_frames(pcm, pace);
    let b = speech_frames(pcm, other);
    let c = speech_frames(pcm, 0);
    response::lemma_frame_bytes_untimed(a, b);
    response::lemma_frame_bytes_untimed(a, c);
}

/// The family of transcriptions.
pub struct AudioTranscriptions;

/// The refusal of silence.
pub open spec fn silence_error() -> Tree {
    Tree::Obj(
        map![
            "error"@ => Tree::Obj(
                map![
                    "message"@ => Tree::Str(
                        "the audio is silent -- nothing was said into this request"@,
                    ),
                    "type"@ => Tree::Str("invalid_request_error"@),
                    "code"@ => Tree::Null,
                ],
            ),
        ],
    )
}

/// The text that a transcription gives.
pub open spec fn transcript_of(b: BehaviorModel) -> Seq<char> {
    if b.empty_transcript {
        ""@
    } else {
        match b.transcript {
            Some(t) => t,
            None => STT_TRANSCRIPT@,
        }
    }
}

/// The reply to an upload.
pub open spec fn transcription_reply(b: BehaviorModel, raw: Seq<u8>) -> ResponseModel {
    if b.reject_silent_audio && audio_probe::silent(raw) {
        response::json_reply(400, silence_error())
    } else {
        response::json_reply(200, Tree::Obj(map!["text"@ => Tree::Str(transcript_of(b))]))
    }
}

/// The refusal of silence.
fn silence_body() -> (r: Json)
    ensures
        r@ == silence_error(),
{
    let e = Members::new().with(
        "message",
        Json::text("the audio is silent -- nothing was said into this request"),
    ).with("type", Json::text("invalid_request_error")).with("code", Json::Null).done();
    Members::new().with("error", e).done()
}

impl Handler for AudioTranscriptions {
    open spec fn serves(&self, method: Seq<char>, path: Seq<char>) -> bool {
        method == "POST"@ && path == TRANSCRIPTIONS_PATH@
    }

    open spec fn advertised(&self) -> Seq<Seq<char>> {
        seq!["POST /v1/audio/transcriptions"@]
    }

    open spec fn handled(&self, s: StateModel, req: RequestModel, path: Seq<char>) -> (
        StateModel,
        ActionModel,
    ) {
        (s, handlers::at_once(transcription_reply(s.behavior, req.raw)))
    }

    fn matches(&self, method: &str, path: &str) -> (r: bool) {
        same(method, "POST") && same(path, TRANSCRIPTIONS_PATH)
    }

    fn handle(&self, state: &mut State, req: &ParsedRequest, path: &str) -> (r: Action) {
        let b = state.behavior();
        if b.reject_silent_audio && is_silent(req.raw.as_slice()) {
            return respond(HttpResponse::json(400, &silence_body()));
        }
        let t = if b.empty_transcript {
            ""
        } else {
            match &b.transcript {
                Some(t) => t.as_str(),
                None => STT_TRANSCRIPT,
            }
        };
        let body = Members::new().with("text", Json::text(t)).done();
        respond(HttpResponse::json(200, &body))
    }

    fn routes(&self) -> (r: &'static [&'static str]) {
        let r: &'static [&'static str] = &["POST /v1/audio/transcriptions"];
        assert(handlers::line_texts(r@) =~= self.advertised());
        r
    }
}

/// What stands behind the name of a part, in an upload that is kept as text.
pub open spec fn behind_name(body: Tree, field: Seq<char>) -> Option<Seq<char>> {
    match body.str_at("_raw"@) {
        Some(t) => text::after_of(t, "name=\""@ + field + "\""@),
        None => None,
    }
}

/// The value of a text part: the first line behind its headers, without the white space around
/// it; an empty one counts as none.
pub open spec fn field_of(body: Tree, field: Seq<char>) -> Option<Seq<char>> {
    match behind_name(body, field) {
        Some(rest) => match text::after_of(rest, "\r\n\r\n"@) {
            Some(v) => {
                let value = text::trim_of(text::before_of(v, "\r\n"@));
                if value.len() == 0 {
                    None
                } else {
                    Some(value)
                }
            },
            None => None,
        },
        None => None,
    }
}

/// The name of the file of a part, from the line that names the part.
pub open spec fn filename_of(body: Tree, field: Seq<char>) -> Option<Seq<char>> {
    match behind_name(body, field) {
        Some(rest) => match text::after_of(text::before_of(rest, "\r\n"@), "filename=\""@) {
            Some(f) => Some(text::before_of(f, "\""@)),
            None => None,
        },
        None => None,
    }
}

/// What stands behind the name of a part.
fn after_name<'a>(body: &'a Json, field: &str) -> (r: Option<&'a str>)
    ensures
        match r {
            Some(t) => behind_name(body@, field@) == Some(t@),
            None => behind_name(body@, field@) is None,
        },
{
    match body.str_at("_raw") {
        Some(t) => {
            let mut marker = "name=\"".to_owned();
            marker.append(field);
            marker.append("\"");
            text::after(t, marker.as_str())
        },
        None => None,
    }
}

/// The value of a text part.
fn multipart_field(body: &Json, field: &str) -> (r: Option<String>)
    ensures
        json::text_opt(r) == field_of(body@, field@),
{
    let rest = match after_name(body, field) {
        Some(t) => t,
        None => return None,
    };
    match text::after(rest, "\r\n\r\n") {
        Some(v) => {
            let value = text::trim(text::before(v, "\r\n"));
            if value.is_empty() {
                None
            } else {
                Some(value.to_owned())
            }
        },
        None => None,
    }
}

/// The name of the file of a part.
fn multipart_filename(body: &Json, field: &str) -> (r: Option<String>)
    ensures
        json::text_opt(r) == filename_of(body@, field@),
{
    let rest = match after_name(body, field) {
        Some(t) => t,
        None => return None,
    };
    match text::after(text::before(rest, "\r\n"), "filename=\"") {
        Some(f) => Some(text::before(f, "\"").to_owned()),
        None => None,
    }
}

/// The name that a voice is given.
pub open spec fn voice_name(body: Tree) -> Seq<char> {
    match field_of(body, "name"@) {
        Some(n) => n,
        None => CLONED_VOICE@,
    }
}

/// The name that a voice is given.
fn name_of(body: &Json) -> (r: String)
    ensures
        r@ == voice_name(body@),
{
    match multipart_field(body, "name") {
        Some(n) => n,
        None => CLONED_VOICE.to_owned(),
    }
}

/// The family of voices.
pub struct AudioVoices;

/// The reply: the preset, or the voice that a sample became.
pub open spec fn voices_reply(method: Seq<char>, body: Tree) -> ResponseModel {
    if method != "POST"@ {
        response::json_reply(
            200,
            Tree::Obj(map!["voices"@ => json::text_list(seq![DEFAULT_VOICE@])]),
        )
    } else {
        let name = voice_name(body);
        response::json_reply(
            200,
            Tree::Obj(
                map![
                    "id"@ => Tree::Str(name),
                    "name"@ => Tree::Str(name),
                    "object"@ => Tree::Str("voice"@),
                    "created"@ => json::num(0),
                ],
            ),
        )
    }
}

impl Handler for AudioVoices {
    open spec fn serves(&self, method: Seq<char>, path: Seq<char>) -> bool {
        (method == "GET"@ || method == "POST"@) && path == VOICES_PATH@
    }

    open spec fn advertised(&self) -> Seq<Seq<char>> {
        seq!["GET /v1/audio/voices"@, "POST /v1/audio/voices"@]
    }

    open spec fn handled(&self, s: StateModel, req: RequestModel, path: Seq<char>) -> (
        StateModel,
        ActionModel,
    ) {
        (s, handlers::at_once(voices_reply(req.method, req.body)))
    }

    fn matches(&self, method: &str, path: &str) -> (r: bool) {
        (same(method, "GET") || same(method, "POST")) && same(path, VOICES_PATH)
    }

    fn handle(&self, state: &mut State, req: &ParsedRequest, path: &str) -> (r: Action) {
        if !same(req.method.as_str(), "POST") {
            let mut names: Vec<String> = Vec::new();
            names.push(DEFAULT_VOICE.to_owned());
            assert(text::texts(names@) =~= seq![DEFAULT_VOICE@]);
            let body = Members::new().with("voices", list_of_texts(names.as_slice())).done();
            return respond(HttpResponse::json(200, &body));
        }
        let name = name_of(&req.body);
        let body = Members::new().with("id", Json::text(name.as_str())).with(
            "name",
            Json::text(name.as_str()),
        ).with("object", Json::text("voice")).with("created", Json::number(0)).done();
        respond(HttpResponse::json(200, &body))
    }

    fn routes(&self) -> (r: &'static [&'static str]) {
        let r: &'static [&'static str] = &["GET /v1/audio/voices", "POST /v1/audio/voices"];
        assert(handlers::line_texts(r@) =~= self.advertised());
        r
    }
}

/// The family of the registry.
pub struct VoiceRegistry;

/// One voice of the listing.
pub open spec fn voice_entry(name: Seq<char>) -> Tree {
    Tree::Obj(
        map!["name"@ => Tree::Str(name), "format"@ => Tree::Str(DEFAULT_VOICE_FORMAT@)],
    )
}

/// The listing: the preset, then the enrolled voices in order.
pub open spec fn registry_listing(voices: Seq<Seq<char>>) -> Tree {
    Tree::Obj(
        map![
            "voices"@ => Tree::Arr(
                (seq![DEFAULT_VOICE@] + voices).map_values(|n: Seq<char>| voice_entry(n)),
            ),
        ],
    )
}

/// The refusal of an upload without consent.
pub open spec fn upload_error() -> Tree {
    Tree::Obj(
        map![
            "error"@ => Tree::Str("voice upload requires consent_attestation"@),
            "code"@ => Tree::Str("consent_required"@),
        ],
    )
}

/// The refusal of a name that is taken.
pub open spec fn taken_error(name: Seq<char>) -> Tree {
    Tree::Obj(
        map![
            "error"@ => Tree::Obj(
                map![
                    "message"@ => Tree::Str(
                        "voice '"@ + name + "' already exists; add ?force=true to overwrite"@,
                    ),
                    "type"@ => Tree::Str("invalid_request_error"@),
                ],
            ),
        ],
    )
}

/// The format of an upload: the ending of its file's name.
pub open spec fn upload_format(body: Tree) -> Seq<char> {
    match filename_of(body, "voice"@) {
        Some(f) => match text::after_last_of(f, '.') {
            Some(e) => e,
            None => DEFAULT_VOICE_FORMAT@,
        },
        None => DEFAULT_VOICE_FORMAT@,
    }
}

/// The state and the reply after a request to the registry: a listing, or an enrolment, which
/// wants consent, and a free name unless it is forced.
pub open spec fn registry_step(s: StateModel, req: RequestModel) -> (StateModel, ResponseModel) {
    let name = voice_name(req.body);
    if req.method != "POST"@ {
        (s, response::json_reply(200, registry_listing(s.voices)))
    } else if field_of(req.body, "consent_attestation"@) is None {
        (s, response::json_reply(400, upload_error()))
    } else if s.voices.contains(name) && !text::occurs(req.path, "force=true"@) {
        (s, response::json_reply(409, taken_error(name)))
    } else {
        (
            StateModel { voices: state::enrolled(s.voices, name), ..s },
            response::json_reply(
                201,
                Tree::Obj(
                    map![
                        "name"@ => Tree::Str(name),
                        "format"@ => Tree::Str(upload_format(req.body)),
                        "size_bytes"@ => json::num(req.raw.len() as u64),
                    ],
                ),
            ),
        )
    }
}

/// One voice of the listing.
fn entry(name: &str) -> (r: Json)
    ensures
        r@ == voice_entry(name@),
{
    Members::new().with("name", Json::text(name)).with(
        "format",
        Json::text(DEFAULT_VOICE_FORMAT),
    ).done()
}

/// The listing.
fn listing(voices: &Vec<String>) -> (r: Json)
    ensures
        r@ == registry_listing(text::texts(voices@)),
{
    let ghost names = seq![DEFAULT_VOICE@] + text::texts(voices@);
    let mut out: Vec<Json> = Vec::new();
    out.push(entry(DEFAULT_VOICE));
    let mut i: usize = 0;
    while i < voices.len()
        invariant
            i <= voices.len(),
            names == seq![DEFAULT_VOICE@] + text::texts(voices@),
            out.len() == i + 1,
            forall|j: int|
                0 <= j <= i ==> json::tree(#[trigger] out@[j]) == voice_entry(names[j]),
        decreases voices.len() - i,
    {
        assert(names[i + 1] == voices@[i as int]@);
        out.push(entry(voices[i].as_str()));
        i += 1;
    }
    proof {
        json::lemma_trees(out@);
        assert(json::trees(out@) =~= names.map_values(|n: Seq<char>| voice_entry(n)));
    }
    Members::new().with("voices", Json::Arr(out)).done()
}

/// The refusal of an upload without consent.
fn upload_body() -> (r: Json)
    ensures
        r@ == upload_error(),
{
    Members::new().with("error", Json::text("voice upload requires consent_attestation")).with(
        "code",
        Json::text("consent_required"),
    ).done()
}

/// The refusal of a name that is taken.
fn taken_body(name: &str) -> (r: Json)
    ensures
        r@ == taken_error(name@),
{
    let mut message = "voice '".to_owned();
    message.append(name);
    message.append("' already exists; add ?force=true to overwrite");
    let e = Members::new().with("message", Json::Str(message)).with(
        "type",
        Json::text("invalid_request_error"),
    ).done();
    Members::new().with("error", e).done()
}

/// The format of an upload.
fn format_of(body: &Json) -> (r: String)
    ensures
        r@ == upload_format(body@),
{
    match multipart_filename(body, "voice") {
        Some(f) => match text::after_last(f.as_str(), '.') {
            Some(e) => e,
            None => DEFAULT_VOICE_FORMAT.to_owned(),
        },
        None => DEFAULT_VOICE_FORMAT.to_owned(),
    }
}

impl Handler for VoiceRegistry {
    open spec fn serves(&self, method: Seq<char>, path: Seq<char>) -> bool {
        (method == "GET"@ || method == "POST"@) && path == REGISTRY_VOICES_PATH@
    }

    open spec fn advertised(&self) -> Seq<Seq<char>> {
        seq!["GET /v1/voices"@, "POST /v1/voices"@]
    }

    open spec fn handled(&self, s: StateModel, req: RequestModel, path: Seq<char>) -> (
        StateModel,
        ActionModel,
    ) {
        (registry_step(s, req).0, handlers::at_once(registry_step(s, req).1))
    }

    fn matches(&self, method: &str, path: &str) -> (r: bool) {
        (same(method, "GET") || same(method, "POST")) && same(path, REGISTRY_VOICES_PATH)
    }

    fn handle(&self, state: &mut State, req: &ParsedRequest, path: &str) -> (r: Action) {
        if !same(req.method.as_str(), "POST") {
            return respond(HttpResponse::json(200, &listing(&state.voice_names())));
        }
        if multipart_field(&req.body, "consent_attestation").is_none() {
            return respond(HttpResponse::json(400, &upload_body()));
        }
        let name = name_of(&req.body);
        let force = text::contains(req.path.as_str(), "force=true");
        if !state.enrol_voice(name.as_str(), force) {
            return respond(HttpResponse::json(409, &taken_body(name.as_str())));
        }
        let body = Members::new().with("name", Json::text(name.as_str())).with(
            "format",
            Json::Str(format_of(&req.body)),
        ).with("size_bytes", Json::number(req.raw.len() as u64)).done();
        respond(HttpResponse::json(201, &body))
    }

    fn routes(&self) -> (r: &'static [&'static str]) {
        let r: &'static [&'static str] = &["GET /v1/voices", "POST /v1/voices"];
        assert(handlers::line_texts(r@) =~= self.advertised());
        r
    }
}

/// The registry remembers: a name that was enrolled once is listed, and is refused the next
/// time, unless that enrolment is forced.
pub proof fn law_the_registry_remembers(s: StateModel, first: RequestModel, again: RequestModel)
    requires
        state::sound(s),
        first.method == "POST"@,
        field_of(first.body, "consent_attestation"@) is Some,
        again.method == "POST"@,
        field_of(again.body, "consent_attestation"@) is Some,
        voice_name(again.body) == voice_name(first.body),
        !text::occurs(again.path, "force=true"@),
    ensures
        ({
            let kept = registry_step(s, first).0;
            kept.voices.contains(voice_name(first.body)) && registry_step(kept, again) == (
                kept,
                response::json_reply(409, taken_error(voice_name(first.body))),
            )
        }),
{
    state::law_voices_stay_in_order(s.voices, voice_name(first.body));
}

/// The value of a part of an upload is the line behind its headers, without the white space around
/// it; a line of white space alone counts as none. An upload without such a part has no value.
pub proof fn law_fields_are_read_from_their_parts(
    body: Tree,
    field: Seq<char>,
    ahead: Seq<char>,
    headers: Seq<char>,
    value: Seq<char>,
    behind: Seq<char>,
)
    requires
        ({
            let name = "name=\""@ + field + "\""@;
            let rest = headers + "\r\n\r\n"@ + (value + "\r\n"@ + behind);
            &&& body.str_at("_raw"@) == Some(ahead + name + rest)
            &&& forall|i: int| i < ahead.len() ==> !text::occurs_at(ahead + name + rest, name, i)
            &&& forall|i: int| i < headers.len() ==> !text::occurs_at(rest, "\r\n\r\n"@, i)
            &&& forall|i: int|
                i < value.len() ==> !text::occurs_at(value + "\r\n"@ + behind, "\r\n"@, i)
        }),
    ensures
        field_of(body, field) == (if text::trim_of(value).len() > 0 {
            Some(text::trim_of(value))
        } else {
            None
        }),
{
    let name = "name=\""@ + field + "\""@;
    let line = value + "\r\n"@ + behind;
    let rest = headers + "\r\n\r\n"@ + line;
    text::law_a_text_is_parted_at_the_first_mark(ahead, name, rest);
    text::law_a_text_is_parted_at_the_first_mark(headers, "\r\n\r\n"@, line);
    text::law_a_text_is_parted_at_the_first_mark(value, "\r\n"@, behind);
}

/// Nothing is read from a body that is no upload, or from one without the part.
pub proof fn law_missing_parts_have_no_value(body: Tree, field: Seq<char>)
    requires
        body.str_at("_raw"@) matches Some(t) ==> !text::occurs(t, "name=\""@ + field + "\""@),
    ensures
        field_of(body, field) is None,
        filename_of(body, field) is None,
{
}

/// The format of an upload is the ending of the name of its file, behind the last dot; an upload
/// whose file has no ending is taken for a wav.
pub proof fn law_formats_are_endings(
    body: Tree,
    ahead: Seq<char>,
    between: Seq<char>,
    file: Seq<char>,
    closing: Seq<char>,
    behind: Seq<char>,
    stem: Seq<char>,
    ending: Seq<char>,
)
    requires
        ({
            let name = "name=\"voice\""@;
            let line = between + "filename=\""@ + (file + "\""@ + closing);
            let rest = line + "\r\n"@ + behind;
            &&& body.str_at("_raw"@) == Some(ahead + name + rest)
            &&& forall|i: int| i < ahead.len() ==> !text::occurs_at(ahead + name + rest, name, i)
            &&& forall|i: int| i < line.len() ==> !text::occurs_at(rest, "\r\n"@, i)
            &&& forall|i: int| i < between.len() ==> !text::occurs_at(line, "filename=\""@, i)
            &&& forall|i: int|
                i < file.len() ==> !text::occurs_at(file + "\""@ + closing, "\""@, i)
        }),
    ensures
        file == stem + seq!['.'] + ending && !ending.contains('.') ==> upload_format(body)
            == ending,
        !file.contains('.') ==> upload_format(body) == "wav"@,
{
    let name = "name=\"voice\""@;
    assert("name=\""@ + "voice"@ + "\""@ =~= name) by {
        reveal_strlit("name=\"");
        reveal_strlit("voice");
        reveal_strlit("\"");
        reveal_strlit("name=\"voice\"");
    }
    let line = between + "filename=\""@ + (file + "\""@ + closing);
    let rest = line + "\r\n"@ + behind;
    text::law_a_text_is_parted_at_the_first_mark(ahead, name, rest);
    text::law_a_text_is_parted_at_the_first_mark(line, "\r\n"@, behind);
    text::law_a_text_is_parted_at_the_first_mark(between, "filename=\""@, file + "\""@ + closing);
    text::law_a_text_is_parted_at_the_first_mark(file, "\""@, closing);
    if !ending.contains('.') {
        text::law_the_last_mark_counts(stem, '.', ending);
    }
    if !file.contains('.') {
        text::law_the_last_mark_counts(stem, '.', file);
    }
}

} // verus!
