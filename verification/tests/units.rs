//! The functions of the library, one by one.

use std::collections::VecDeque;

use fake_openai::admin;
use fake_openai::audio_probe::{is_silent, measure, samples};
use fake_openai::behavior::{
    estimate_prompt_tokens, has_tools, is_heartbeat, should_consume, should_stall, token_count,
    validate_chat_request, Behavior,
};
use fake_openai::codec::{from_value, parse_bytes, parse_text, to_text, to_value};
use fake_openai::config::{
    announcement, normalize_model, normalize_models, parse_args, usage, wants_help, Config,
};
use fake_openai::handlers::audio::{
    AudioSpeech, AudioTranscriptions, AudioVoices, VoiceRegistry,
};
use fake_openai::handlers::chat::ChatCompletions;
use fake_openai::handlers::images::ImagesGenerations;
use fake_openai::handlers::models::{model_names, Models};
use fake_openai::handlers::{b64, Action, Handler};
use fake_openai::json::Json;
use fake_openai::response::{
    flatten, parse_request, Body, Frame, FrameReader, HttpResponse, ParsedRequest, Pull,
    SSE_RESPONSE,
};
use fake_openai::responses::{load_file, push_line, push_specs, ResponseSpec};
use fake_openai::state::{raw_pcm, speech_variants, State};
use fake_openai::text;
use serde_json::Value;

fn j(s: &str) -> Json {
    match parse_text(s) {
        Ok(v) => v,
        Err(e) => panic!("{e}: {s}"),
    }
}

fn value(s: &str) -> Value {
    serde_json::from_str(s).unwrap()
}

fn args(list: &[&str]) -> Vec<String> {
    list.iter().map(|a| a.to_string()).collect()
}

fn config(list: &[&str]) -> Config {
    match parse_args(args(list)) {
        Ok(c) => c,
        Err(e) => panic!("{e}"),
    }
}

fn complaint(list: &[&str]) -> String {
    match parse_args(args(list)) {
        Ok(_) => panic!("accepted: {list:?}"),
        Err(e) => e,
    }
}

fn state(list: &[&str]) -> State {
    State::from_config(&config(list), None, Vec::new())
}

fn request(method: &str, path: &str, body: &[u8]) -> ParsedRequest {
    parse_request(method.to_string(), path.to_string(), &[], body.to_vec())
}

fn buffered(r: &HttpResponse) -> String {
    match &r.body {
        Body::Buffered(b) => String::from_utf8(b.clone()).unwrap(),
        Body::Streamed { .. } => panic!("streamed"),
    }
}

fn reply(r: &HttpResponse) -> Value {
    value(&buffered(r))
}

fn answered(a: Action) -> HttpResponse {
    match a {
        Action::Respond { response, .. } => response,
        _ => panic!("no response"),
    }
}

// ---- text

#[test]
fn text_searches_from_the_left() {
    assert_eq!(text::find("abcabc", "ca"), Some(2));
    assert_eq!(text::find("abcabc", "abc"), Some(0));
    assert_eq!(text::find("abc", "abcd"), None);
    assert_eq!(text::find("abc", ""), Some(0));
    assert_eq!(text::find("äöü", "ü"), Some(2));
    assert!(text::contains("x", ""));
    assert!(!text::contains("", "x"));
    assert_eq!(text::before("a=b=c", "="), "a");
    assert_eq!(text::after("a=b=c", "="), Some("b=c"));
    assert_eq!(text::before("abc", "="), "abc");
    assert_eq!(text::after("abc", "="), None);
    assert_eq!(text::after_last("a.tar.gz", '.'), Some("gz".to_string()));
    assert_eq!(text::after_last("name", '.'), None);
    assert_eq!(text::after_last("name.", '.'), Some(String::new()));
}

#[test]
fn text_splits_trims_and_joins() {
    assert_eq!(text::split("a,,b,", ','), vec!["a", "", "b", ""]);
    assert_eq!(text::split("", ','), vec![""]);
    assert_eq!(text::trim(" \t\u{a0}\u{3000}x y\r\n"), "x y");
    assert_eq!(text::trim(" \n "), "");
    assert_eq!(text::trim_start("  Bearer x "), "Bearer x ");
    assert_eq!(text::join(&args(&["ab", "", "c"])), "abc");
    assert_eq!(text::strip_prefix("/v1/models/x", "/v1/models/"), Some("x"));
    assert_eq!(text::strip_prefix("/v1", "/v1/"), None);
}

#[test]
fn text_compares() {
    assert!(text::same("ä", "ä"));
    assert!(!text::same("a", "ab"));
    assert!(text::eq_ignoring_case("AuthoriZation", "authorization"));
    assert!(!text::eq_ignoring_case("Ä", "ä"));
    assert!(text::comes_before("a", "ab"));
    assert!(text::comes_before("Z", "a"));
    assert!(!text::comes_before("b", "a"));
    assert!(!text::comes_before("a", "a"));
}

#[test]
fn text_counts_in_decimal() {
    assert_eq!(text::number_text(0), "0");
    assert_eq!(text::number_text(18446744073709551615), "18446744073709551615");
    assert_eq!(text::parse_count("0042", u64::MAX), Some(42));
    assert_eq!(text::parse_count("+7", u64::MAX), Some(7));
    assert_eq!(text::parse_count("18446744073709551615", u64::MAX), Some(u64::MAX));
    assert_eq!(text::parse_count("18446744073709551616", u64::MAX), None);
    assert_eq!(text::parse_count("65535", 65535), Some(65535));
    assert_eq!(text::parse_count("65536", 65535), None);
    for bad in ["", "+", "-1", "1 ", "1.0", "0x1", "++1"] {
        assert_eq!(text::parse_count(bad, u64::MAX), None, "{bad}");
    }
}

// ---- JSON

#[test]
fn json_is_read_and_written() {
    let text = "{\"a\":[1,2.5,-3,null,true,\"x\\n\\u00e4\"],\"b\":{}}";
    let v = j(text);
    assert_eq!(value(&to_text(&v)), value(text));
    assert_eq!(to_text(&v), value(text).to_string());
    let list = v.list_at("a").unwrap();
    assert_eq!(list[0].as_u64(), Some(1));
    assert_eq!(list[1].as_u64(), None);
    assert_eq!(list[2].as_u64(), None);
    assert!(matches!(list[3], Json::Null));
    assert_eq!(list[4].as_bool(), Some(true));
    assert_eq!(list[5].as_str(), Some("x\nä"));
    assert!(v.get("c").is_none());
    assert_eq!(to_value(&v.copy()), value(text));
    assert_eq!(to_text(&from_value(value(text))), value(text).to_string());
    assert_eq!(to_text(&Json::number(u64::MAX)), "18446744073709551615");
}

#[test]
fn json_that_is_none_is_refused() {
    let e = match parse_text("{\"a\":") {
        Ok(_) => panic!("accepted"),
        Err(e) => e,
    };
    let theirs = serde_json::from_str::<Value>("{\"a\":").unwrap_err().to_string();
    assert_eq!(e, theirs);
    assert!(parse_text("").is_err());
    assert!(parse_text("1 2").is_err());
    assert!(parse_bytes(b"{\"a\":1}").is_some());
    assert!(parse_bytes(b"nope").is_none());
    assert!(parse_bytes(&[b'"', 0xff, b'"']).is_none());
}

#[test]
fn json_nests_so_deep_and_no_deeper() {
    let nested = |n: usize| format!("{}{}", "[".repeat(n), "]".repeat(n));
    assert_eq!(to_text(&j(&nested(127))), nested(127));
    assert!(parse_text(&nested(128)).is_err());
}

#[test]
fn later_members_of_one_name_count() {
    let v = Json::Obj(vec![
        ("a".to_string(), Json::number(1)),
        ("a".to_string(), Json::number(2)),
    ]);
    assert_eq!(v.u64_at("a"), Some(2));
    assert_eq!(to_text(&v), "{\"a\":2}");
    assert_eq!(j("{\"a\":1,\"a\":2}").u64_at("a"), Some(2));
    let v = Json::Obj(vec![
        ("b".to_string(), Json::number(1)),
        ("a".to_string(), Json::number(2)),
        ("b".to_string(), Json::Obj(vec![("b".to_string(), Json::Null)])),
        ("c".to_string(), Json::number(3)),
        ("a".to_string(), Json::number(4)),
    ]);
    assert_eq!(to_text(&v), "{\"a\":4,\"b\":{\"b\":null},\"c\":3}");
}

// ---- requests and responses

#[test]
fn requests_keep_what_came_in() {
    let headers = vec![
        ("X".to_string(), "1".to_string()),
        ("x".to_string(), "2".to_string()),
        ("X".to_string(), "3".to_string()),
    ];
    let r = parse_request(
        "POST".to_string(),
        "/p?q=1".to_string(),
        &headers,
        b"{\"t\":0.7}".to_vec(),
    );
    assert_eq!(r.method, "POST");
    assert_eq!(r.path, "/p?q=1");
    assert_eq!(to_text(&r.headers), "{\"X\":\"3\",\"x\":\"2\"}");
    assert_eq!(to_text(&r.body), "{\"t\":0.7}");
    assert_eq!(r.raw, b"{\"t\":0.7}");
}

#[test]
fn bodies_that_are_no_json_are_kept_as_text() {
    let r = request("POST", "/", b"blob");
    assert_eq!(r.body.str_at("_raw"), Some("blob"));
    let r = request("POST", "/", &[b'a', 0xff, 0xfe, b'z']);
    assert_eq!(r.body.str_at("_raw"), Some("a\u{fffd}\u{fffd}z"));
    assert_eq!(r.raw, vec![b'a', 0xff, 0xfe, b'z']);
    assert_eq!(request("GET", "/", b"").body.str_at("_raw"), Some(""));
}

#[test]
fn responses_are_built() {
    let r = HttpResponse::new(201, "audio/pcm", vec![1, 2]);
    assert_eq!(r.status, 201);
    assert_eq!(r.content_type, "audio/pcm");
    assert!(!r.uncached());
    let r = HttpResponse::json(404, &j("{\"b\":1,\"a\":2}"));
    assert_eq!((r.status, r.content_type.as_str()), (404, "application/json"));
    assert_eq!(buffered(&r), "{\"a\":2,\"b\":1}");
    assert!(!r.uncached());
    let r = HttpResponse::sse(200, b"data: x\n\n".to_vec());
    assert_eq!(r.content_type, "text/event-stream");
    assert!(r.uncached());
    let r = HttpResponse::streamed(200, "text/plain", Vec::new(), 7);
    assert!(r.uncached());
    assert!(matches!(r.body, Body::Streamed { hang_ms: 7, .. }));
}

#[test]
fn frames_are_handed_out_in_pieces() {
    let frames = vec![
        Frame { delay_ms: 5, data: b"hello".to_vec() },
        Frame { delay_ms: 0, data: Vec::new() },
        Frame { delay_ms: 7, data: b"!".to_vec() },
    ];
    let mut r = FrameReader::new(frames, 9);
    let mut seen = Vec::new();
    loop {
        match r.pull(2) {
            Pull::Data(b) => seen.push(String::from_utf8(b).unwrap()),
            Pull::Wait(ms) => seen.push(format!("wait {ms}")),
            Pull::End => break,
        }
    }
    assert_eq!(seen, vec!["wait 5", "he", "ll", "o", "wait 0", "wait 7", "!", "wait 9"]);
    assert!(matches!(r.pull(2), Pull::End));
}

// ---- base64

#[test]
fn base64_vectors() {
    let vectors = [
        ("", ""),
        ("f", "Zg=="),
        ("fo", "Zm8="),
        ("foo", "Zm9v"),
        ("foob", "Zm9vYg=="),
        ("fooba", "Zm9vYmE="),
        ("foobar", "Zm9vYmFy"),
    ];
    for (plain, encoded) in vectors {
        assert_eq!(b64(plain.as_bytes()), encoded);
    }
    assert_eq!(b64(&[0xfb, 0xff, 0xbf]), "+/+/");
    assert_eq!(b64(&[0xff, 0xff, 0xff]), "////");
}

// ---- audio

fn upload(audio: &[u8]) -> Vec<u8> {
    let mut b = b"--b\r\nContent-Disposition: form-data; name=\"file\"; filename=\"a\"\r\n\r\n".to_vec();
    b.extend_from_slice(audio);
    b.extend_from_slice(b"\r\n--b--\r\n");
    b
}

#[test]
fn audio_is_measured() {
    let raw = upload(&[0, 0x80, 1, 0, 9]);
    assert_eq!(samples(&raw), Some(vec![i16::MIN, 1]));
    let m = to_value(&measure(&raw, Json::number(7)));
    assert_eq!(m, value("{\"bytes\":5,\"samples\":2,\"peak\":32768,\"rms\":7,\"silent\":false}"));
    assert!(!is_silent(&raw));
}

#[test]
fn audio_up_to_the_limit_is_silent() {
    assert!(is_silent(&upload(&[64, 0, 0xc0, 0xff])));
    assert!(!is_silent(&upload(&[65, 0])));
    assert!(!is_silent(&upload(&[0xbf, 0xff])));
    assert!(is_silent(&upload(&[0, 0])));
}

#[test]
fn uploads_without_audio_are_not_measured() {
    for raw in [b"blob".to_vec(), upload(&[]), upload(&[1]), b"name=\"file\" and no end".to_vec()] {
        assert!(matches!(measure(&raw, Json::Null), Json::Null));
        assert!(!is_silent(&raw));
        assert!(samples(&raw).is_none());
    }
    // Without a boundary the audio reaches to the end.
    let open = b"name=\"file\"\r\n\r\n\x01\x02\x03\x04".to_vec();
    assert_eq!(samples(&open), Some(vec![0x0201, 0x0403]));
}

fn chunk(tag: &[u8], data: &[u8]) -> Vec<u8> {
    let mut c = tag.to_vec();
    c.extend_from_slice(&(data.len() as u32).to_le_bytes());
    c.extend_from_slice(data);
    if data.len() % 2 == 1 {
        c.push(0);
    }
    c
}

#[test]
fn wav_files_are_opened() {
    let mut wav = b"RIFF\0\0\0\0WAVE".to_vec();
    wav.extend(chunk(b"fmt ", &[1; 16]));
    wav.extend(chunk(b"LIST", b"odd"));
    wav.extend(chunk(b"data", &[5, 6, 7, 8]));
    wav.extend(chunk(b"tail", &[9; 4]));
    assert_eq!(raw_pcm(wav), vec![5, 6, 7, 8]);
}

#[test]
fn other_audio_is_left_as_it_is() {
    assert_eq!(raw_pcm(vec![1, 2, 3]), vec![1, 2, 3]);
    assert_eq!(raw_pcm(b"RIFF".to_vec()), b"RIFF".to_vec());
    let mut none = b"RIFF\0\0\0\0WAVE".to_vec();
    none.extend(chunk(b"fmt ", &[1; 16]));
    assert_eq!(raw_pcm(none.clone()), none);
    let mut cut = b"RIFF\0\0\0\0WAVEdata".to_vec();
    cut.extend_from_slice(&[0xff, 0xff, 0xff, 0xff, 1, 2]);
    assert_eq!(raw_pcm(cut), vec![1, 2]);
    let mut far = b"RIFF\0\0\0\0WAVEfmt ".to_vec();
    far.extend_from_slice(&[0xff, 0xff, 0xff, 0xff, 1, 2]);
    assert_eq!(raw_pcm(far.clone()), far);
}

// ---- behavior

#[test]
fn tokens_are_rounded_up() {
    assert_eq!(token_count(0, 4), 0);
    assert_eq!(token_count(1, 4), 1);
    assert_eq!(token_count(4, 4), 1);
    assert_eq!(token_count(5, 4), 2);
    assert_eq!(token_count(7, 0), 7);
    assert_eq!(token_count(u64::MAX, 1), u64::MAX);
    assert_eq!(token_count(u64::MAX, u64::MAX), 1);
}

#[test]
fn prompts_are_estimated_from_the_messages() {
    let body = j("{\"messages\":[{\"role\":\"user\",\"content\":\"ä\"}],\"other\":\"ignored\"}");
    // [{"content":"ä","role":"user"}] is 32 bytes.
    assert_eq!(estimate_prompt_tokens(&body, 1), 32);
    assert_eq!(estimate_prompt_tokens(&body, 0), 32);
    assert_eq!(estimate_prompt_tokens(&body, 5), 7);
    assert_eq!(estimate_prompt_tokens(&j("{}"), 4), 0);
    assert_eq!(estimate_prompt_tokens(&j("{\"messages\":null}"), 4), 1);
}

#[test]
fn bearer_tokens_are_found() {
    let body = j("{\"model\":\"m\",\"messages\":[1]}");
    let ok = |h: &str| validate_chat_request(&j(h), &body).is_none();
    assert!(ok("{\"Authorization\":\"Bearer x\"}"));
    assert!(ok("{\"AUTHORIZATION\":\"  Bearer \"}"));
    assert!(ok("{\"X\":1,\"authorization\":\"Bearer x\"}"));
    assert!(!ok("{\"Authorization\":\"bearer x\"}"));
    assert!(!ok("{\"Authorization\":\"Bearer\"}"));
    assert!(!ok("{\"Authorization\":7}"));
    assert!(!ok("{\"Auth\":\"Bearer x\"}"));
    assert!(!ok("null"));
}

#[test]
fn chat_requests_are_validated_in_order() {
    let auth = j("{\"Authorization\":\"Bearer x\"}");
    let check = |b: &str| validate_chat_request(&auth, &j(b));
    assert_eq!(
        validate_chat_request(&j("{}"), &j("{}")),
        Some((401, "missing or malformed Authorization bearer token"))
    );
    let no_model = Some((400, "missing required parameter: model"));
    assert_eq!(check("{}"), no_model);
    assert_eq!(check("{\"model\":\"\",\"messages\":[1]}"), no_model);
    assert_eq!(check("{\"model\":1,\"messages\":[1]}"), no_model);
    let no_messages = Some((400, "missing required parameter: messages"));
    assert_eq!(check("{\"model\":\"m\"}"), no_messages);
    assert_eq!(check("{\"model\":\"m\",\"messages\":[]}"), no_messages);
    assert_eq!(check("{\"model\":\"m\",\"messages\":{}}"), no_messages);
    assert_eq!(check("{\"model\":\"m\",\"messages\":[null]}"), None);
}

#[test]
fn heartbeats_are_told_apart() {
    let beats = |b: &str| is_heartbeat(&j(b), "[hb]");
    assert!(beats("{\"messages\":[{},{\"content\":\"a [hb] b\"}]}"));
    assert!(beats("{\"messages\":[{\"content\":[{\"text\":\"no\"},{\"text\":\"[hb]\"}]}]}"));
    assert!(!beats("{\"messages\":[{\"content\":[\"[hb]\"]}]}"));
    assert!(!beats("{\"messages\":[{\"content\":{\"text\":\"[hb]\"}}]}"));
    assert!(!beats("{\"messages\":\"[hb]\"}"));
    assert!(!beats("{\"messages\":[{\"content\":\"[h b]\"}]}"));
    assert!(has_tools(&j("{\"tools\":[1]}")));
    assert!(!has_tools(&j("{\"tools\":[]}")));
    assert!(!has_tools(&j("{\"tools\":{\"a\":1}}")));
}

#[test]
fn the_latch_closes_behind_the_first_tool_turn() {
    let mut b = Behavior::default();
    let turn = j("{\"tools\":[1],\"messages\":[]}");
    let mut latch = false;
    assert!(!should_stall(&b, &mut latch, "/v1/chat/completions", &turn));
    b.stall_first_with_tools = true;
    assert!(!should_stall(&b, &mut latch, "/v1/other", &turn));
    assert!(!should_stall(&b, &mut latch, "/v1/chat/completions", &j("{}")));
    assert!(!latch);
    assert!(should_stall(&b, &mut latch, "/v1/chat/completions", &turn));
    assert!(latch);
    assert!(!should_stall(&b, &mut latch, "/v1/chat/completions", &turn));
    assert!(should_consume(&b, "/x", &j("{}")));
    b.consume_only_with_tools = true;
    assert!(!should_consume(&b, "/x", &turn));
    assert!(should_consume(&b, "/chat/completions", &turn));
}

#[test]
fn behavior_starts_plain() {
    let b = Behavior::default();
    assert_eq!(b.stall_seconds, 5);
    assert_eq!(b.heartbeat_sentinel, "[heartbeat]");
    assert_eq!(b.chars_per_token, 4);
    assert_eq!(b.context_window, None);
    assert_eq!(b.transcript, None);
    assert!(!b.stall_first_with_tools && !b.validate_chat && !b.llamaswap && !b.empty_transcript);
}

// ---- command line

#[test]
fn every_flag_is_taken_in() {
    let c = config(&[
        "--host", "::1", "--port=+80", "--responses", "r.json", "--default-response", "{\"a\":1}",
        "--stdin", "--log-file", "l", "--log-stdout=ignored", "--models", " a ,,b", "--stall-first-with-tools",
        "--stall-seconds", "7", "--heartbeat-sentinel", "=", "--consume-only-with-tools",
        "--connect-delay-ms=8", "--validate-chat", "--context-window", "9", "--chars-per-token", "2",
        "--llamaswap", "--empty-transcript", "--speech-file", "s.wav", "--speech-for=HeLLo=a=b",
        "--transcript", "hi", "--reject-silent-audio", "--require-voice-consent",
    ]);
    assert_eq!((c.host.as_str(), c.port), ("::1", 80));
    assert_eq!(c.responses_file.as_deref(), Some("r.json"));
    assert_eq!(to_text(&c.default_response.unwrap()), "{\"a\":1}");
    assert!(c.stdin && c.log_stdout);
    assert_eq!(c.log_file.as_deref(), Some("l"));
    let ids: Vec<_> = c.models.iter().map(|m| m.str_at("id").unwrap().to_string()).collect();
    assert_eq!(ids, vec!["a", "b"]);
    assert_eq!(c.speech_file.as_deref(), Some("s.wav"));
    assert_eq!(c.speech_for, vec![("hello".to_string(), "a=b".to_string())]);
    let b = c.behavior;
    assert!(b.stall_first_with_tools && b.consume_only_with_tools && b.validate_chat);
    assert!(b.llamaswap && b.empty_transcript && b.reject_silent_audio && b.require_voice_consent);
    assert_eq!((b.stall_seconds, b.connect_delay_ms), (7, 8));
    assert_eq!((b.context_window, b.chars_per_token), (Some(9), 2));
    assert_eq!(b.heartbeat_sentinel, "=");
    assert_eq!(b.transcript.as_deref(), Some("hi"));
}

#[test]
fn nothing_told_is_the_default() {
    let c = config(&[]);
    assert_eq!((c.host.as_str(), c.port), ("127.0.0.1", 0));
    assert_eq!(c.models.len(), 1);
    assert_eq!(
        to_value(&c.models[0]),
        value("{\"id\":\"fake-model\",\"object\":\"model\",\"created\":0,\"owned_by\":\"fake-openai\"}")
    );
    assert!(c.default_response.is_none() && !c.stdin && c.log_file.is_none() && !c.log_stdout);
}

#[test]
fn bad_arguments_are_complained_about() {
    assert_eq!(complaint(&["--nope=1"]), "unknown flag: --nope");
    assert_eq!(complaint(&["x"]), "unknown flag: x");
    assert_eq!(complaint(&["--stdin", "--host"]), "--host: requires a value");
    assert_eq!(complaint(&["--port", "65536"]), "--port: invalid number '65536'");
    assert_eq!(complaint(&["--stall-seconds=-1"]), "--stall-seconds: invalid number '-1'");
    assert_eq!(complaint(&["--context-window", ""]), "--context-window: invalid number ''");
    let e = serde_json::from_str::<Value>("{").unwrap_err();
    assert_eq!(
        complaint(&["--default-response", "{"]),
        format!("--default-response: invalid json: {e}")
    );
    assert_eq!(complaint(&["--models-json={"]), format!("--models-json: invalid json: {e}"));
    assert_eq!(complaint(&["--models-json", "{}"]), "--models-json: expected a json array");
    assert_eq!(complaint(&["--speech-for", "x"]), "--speech-for: expected <match>=<path>");
}

const HELP: &str = "fake-openai - standalone programmable openai-compatible mock\n\nusage: fake-openai [flags]\n\nflags:\n  --host <addr>             bind host (default 127.0.0.1)\n  --port <n>                bind port, 0 = free port (default 0)\n  --responses <path>        load response specs (json array/object or jsonl)\n  --default-response <json> response when the queue is empty (default: ok stream)\n  --stdin                   read response specs as jsonl from stdin\n  --models <a,b,...>        model ids reported by /v1/models (default fake-model)\n  --models-json <json>      model objects for /v1/models, with metadata (array)\n  --log-file <path>         append captured requests as jsonl\n  --log-stdout              emit captured requests as jsonl to stdout\n  --stall-first-with-tools  stall the first tools-bearing request\n  --stall-seconds <n>       stall duration in seconds (default 5)\n  --heartbeat-sentinel <s>  sentinel that exempts heartbeats (default [heartbeat])\n  --consume-only-with-tools only tools-bearing chat requests pop the queue\n  --connect-delay-ms <n>    delay every non-admin request before any bytes\n  --validate-chat           reject malformed/unauthenticated chat requests\n  --context-window <n>      derive usage from request size; 400 when it exceeds n\n  --chars-per-token <n>     characters per token for the derived usage (default 4)\n  --llamaswap               serve llama-swap's /upstream/<model>/v1/* and aliases\n  --empty-transcript        transcriptions answer {\"text\": \"\"} (a silent clip)\n  --transcript <text>       transcriptions answer this text instead of the built-in one\n  --reject-silent-audio     reject a transcription whose audio is silent\n  --require-voice-consent   reject speech in a cloned voice without a consent attestation\n  --speech-file <path>      /v1/audio/speech serves this wav/pcm instead of the ramp,\n                          so a client receives real SPEECH over the real path\n  --speech-for <match>=<path> serve this wav/pcm where the text to speak holds the match\n  --help                    show this help\n\non startup prints: base_url=http://<host>:<port>/v1\n";

#[test]
fn help_is_offered() {
    assert!(wants_help(&args(&["--port", "--help"])));
    assert!(wants_help(&args(&["-h"])));
    assert!(!wants_help(&args(&["--helpme"])));
    let u = usage();
    for flag in [
        "--host", "--port", "--responses", "--default-response", "--stdin", "--log-file",
        "--log-stdout", "--models", "--models-json", "--stall-first-with-tools", "--stall-seconds",
        "--heartbeat-sentinel", "--consume-only-with-tools", "--connect-delay-ms",
        "--validate-chat", "--context-window", "--chars-per-token", "--llamaswap",
        "--empty-transcript", "--speech-file", "--speech-for", "--transcript",
        "--reject-silent-audio", "--require-voice-consent", "--help",
    ] {
        assert!(u.contains(&format!("  {flag} ")), "{flag}");
    }
    assert_eq!(u, HELP);
    assert!(u.starts_with("fake-openai - standalone programmable"));
    assert!(u.ends_with("on startup prints: base_url=http://<host>:<port>/v1\n"));
}

#[test]
fn the_address_is_announced() {
    assert_eq!(announcement("127.0.0.1", 54321), "base_url=http://127.0.0.1:54321/v1");
}

// ---- models

#[test]
fn models_are_filled_in() {
    let m = |s: &str| normalize_model(&j(s)).map(|m| to_value(&m));
    assert_eq!(
        m("{\"id\":\"a\",\"created\":7,\"meta\":[1]}"),
        Some(value("{\"id\":\"a\",\"created\":7,\"meta\":[1],\"object\":\"model\",\"owned_by\":\"fake-openai\"}"))
    );
    assert_eq!(m("{\"id\":1}"), None);
    assert_eq!(m("{}"), None);
    assert_eq!(m("[\"a\"]"), None);
    let list = vec![j("\"a\""), j("7"), j("{\"id\":\"b\"}")];
    assert_eq!(normalize_models(&list).len(), 2);
}

#[test]
fn models_answer_to_their_names() {
    let m = j("{\"id\":\"a\",\"meta\":{\"llamaswap\":{\"aliases\":[\"x\",1,\"y\"]}}}");
    assert_eq!(model_names(&m, false), vec!["a"]);
    assert_eq!(model_names(&m, true), vec!["a", "x", "y"]);
    assert_eq!(model_names(&j("{\"meta\":{\"llamaswap\":7}}"), true), Vec::<String>::new());
}

// ---- programmed responses

const FULL_SPEC: &str = "{\"raw_body\":\"r\",\"content_type\":\"t\",\"content\":\"c\",\"reasoning\":\"w\",\"reasoning_chunks\":[\"p\",\"q\"],\"chunks\":[],\"tool_calls\":[{\"id\":1}],\"error\":{\"message\":\"m\"},\"finish_reason\":\"f\",\"usage\":{\"total_tokens\":2},\"status\":201,\"delay_ms\":1,\"chunk_delay_ms\":2,\"hang_ms\":3,\"truncate\":true}";

#[test]
fn specs_are_read_and_described() {
    assert_eq!(to_value(&ResponseSpec::from_value(&j(FULL_SPEC)).to_value()), value(FULL_SPEC));
    let bare = "{\"status\":200,\"delay_ms\":0,\"chunk_delay_ms\":0,\"hang_ms\":0,\"truncate\":false}";
    assert_eq!(to_value(&ResponseSpec::from_value(&j("7")).to_value()), value(bare));
    let odd = "{\"content\":1,\"chunks\":[\"a\",2],\"status\":65736,\"delay_ms\":-1,\"truncate\":\"x\"}";
    let v = to_value(&ResponseSpec::from_value(&j(odd)).to_value());
    assert_eq!(v["chunks"], value("[\"a\",\"\"]"));
    assert_eq!((v["status"].as_u64(), v["delay_ms"].as_u64()), (Some(200), Some(0)));
    assert_eq!(v["truncate"], false);
    assert!(v.get("content").is_none());
    assert_eq!(ResponseSpec::from_value(&j(FULL_SPEC)).delay_ms(), 1);
}

fn rendered(spec: &str, stream: bool) -> HttpResponse {
    let s = ResponseSpec::from_value(&j(spec));
    assert!(s.renders(stream));
    s.render(stream)
}

#[test]
fn an_ok_stream_is_the_fallback() {
    let r = rendered("{\"content\":\"ok\"}", true);
    let parse = |s: &str| -> Vec<String> {
        s.split("\n\n")
            .map(|l| l.trim_start_matches("data: "))
            .map(|l| match serde_json::from_str::<Value>(l) {
                Ok(v) => v.to_string(),
                Err(_) => l.to_string(),
            })
            .collect()
    };
    assert_eq!(parse(&buffered(&r)), parse(SSE_RESPONSE));
    assert_eq!(r.content_type, "text/event-stream");
}

#[test]
fn streams_are_rendered_chunk_by_chunk() {
    let r = rendered("{\"tool_calls\":[7],\"finish_reason\":\"f\",\"usage\":9}", true);
    let expected = "data: {\"choices\":[{\"delta\":{\"role\":\"assistant\",\"tool_calls\":[7]},\"finish_reason\":null,\"index\":0}],\"created\":0,\"id\":\"1\",\"model\":\"fake-model\",\"object\":\"chat.completion.chunk\"}\n\ndata: {\"choices\":[{\"delta\":{},\"finish_reason\":\"f\",\"index\":0}],\"created\":0,\"id\":\"1\",\"model\":\"fake-model\",\"object\":\"chat.completion.chunk\",\"usage\":9}\n\ndata: [DONE]\n\n";
    assert_eq!(buffered(&r), expected);
}

#[test]
fn timed_streams_carry_their_pauses() {
    let spec = "{\"reasoning_chunks\":[\"a\",\"b\"],\"chunks\":[\"c\",\"d\"],\"tool_calls\":1,\"chunk_delay_ms\":50,\"hang_ms\":9}";
    let r = rendered(spec, true);
    match r.body {
        Body::Streamed { frames, hang_ms } => {
            let pauses: Vec<u64> = frames.iter().map(|f| f.delay_ms).collect();
            assert_eq!(pauses, vec![0, 50, 0, 50, 0, 0]);
            assert_eq!(hang_ms, 9);
            let texts: Vec<String> =
                frames.iter().map(|f| String::from_utf8(f.data.clone()).unwrap()).collect();
            assert!(texts[0].contains("\"reasoning_content\":\"a\""));
            assert!(texts[2].contains("\"content\":\"c\"") && texts[2].contains("\"tool_calls\":1"));
            assert!(texts[3].contains("\"content\":\"d\"") && !texts[3].contains("tool_calls"));
            assert_eq!(texts[5], "data: [DONE]\n\n");
        }
        Body::Buffered(_) => panic!("not timed"),
    }
}

#[test]
fn replies_are_rendered_whole() {
    let r = rendered("{\"chunks\":[\"a\",\"b\"],\"reasoning\":\"\",\"status\":202}", false);
    assert_eq!(r.status, 202);
    assert_eq!(
        reply(&r),
        value("{\"id\":\"1\",\"object\":\"chat.completion\",\"created\":0,\"model\":\"fake-model\",\"choices\":[{\"index\":0,\"message\":{\"role\":\"assistant\",\"content\":\"ab\"},\"finish_reason\":\"stop\"}],\"usage\":{\"prompt_tokens\":1,\"completion_tokens\":1,\"total_tokens\":2}}")
    );
}

#[test]
fn errors_are_rendered() {
    let r = rendered("{\"error\":{\"type\":\"t\"},\"raw_body\":\"x\"}", true);
    assert_eq!((r.status, reply(&r)), (400, value("{\"error\":{\"type\":\"t\"}}")));
    let r = rendered("{\"error\":null,\"status\":503}", true);
    assert_eq!(r.status, 503);
    assert_eq!(
        reply(&r),
        value("{\"error\":{\"message\":null,\"type\":\"invalid_request_error\",\"code\":null}}")
    );
    let r = rendered("{\"raw_body\":\"x\"}", false);
    assert_eq!((r.content_type.as_str(), buffered(&r).as_str()), ("text/event-stream", "x"));
}

#[test]
fn derived_prompts_are_added_up() {
    let s = ResponseSpec::from_value(&j("{\"usage\":{\"completion_tokens\":5}}"));
    let r = s.with_derived_prompt(10).render(false);
    assert_eq!(
        reply(&r)["usage"],
        value("{\"prompt_tokens\":10,\"completion_tokens\":5,\"total_tokens\":15}")
    );
    let r = ResponseSpec::from_value(&j("{}")).with_derived_prompt(0).render(false);
    assert_eq!(reply(&r)["usage"]["total_tokens"], 16);
}

#[test]
fn totals_beyond_64_bits_are_not_rendered() {
    let spec = "{\"usage\":{\"completion_tokens\":18446744073709551615}}";
    let s = ResponseSpec::from_value(&j(spec)).with_derived_prompt(1);
    assert!(!s.renders(false) && !s.renders(true));
    assert!(ResponseSpec::from_value(&j(spec)).with_derived_prompt(0).renders(true));
    let cut = "{\"truncate\":true,\"usage\":{\"completion_tokens\":18446744073709551615}}";
    let s = ResponseSpec::from_value(&j(cut)).with_derived_prompt(1);
    assert!(s.renders(true) && !s.renders(false));
}

fn contents(q: &VecDeque<ResponseSpec>) -> Vec<String> {
    q.iter()
        .map(|s| s.to_value().str_at("content").unwrap_or("-").to_string())
        .collect()
}

#[test]
fn specs_are_pushed_in_order() {
    let mut q = VecDeque::new();
    push_specs(&mut q, &j("[{\"content\":\"a\"},7]"));
    push_specs(&mut q, &j("{\"content\":\"b\"}"));
    push_specs(&mut q, &j("[]"));
    assert_eq!(contents(&q), vec!["a", "-", "b"]);
}

#[test]
fn files_hold_json_or_lines_of_it() {
    let load = |s: &str| {
        let mut q = VecDeque::new();
        load_file(&mut q, s);
        contents(&q)
    };
    assert_eq!(load(" [{\"content\":\"a\"},{\"content\":\"b\"}]\n"), vec!["a", "b"]);
    assert_eq!(load("{\"content\":\n\"a\"}"), vec!["a"]);
    assert_eq!(load("{\"content\":\"a\"}\r\n\n nope\n{\"content\":\"b\"}"), vec!["a", "b"]);
    assert_eq!(load("7"), vec!["-"]);
    assert_eq!(load(""), Vec::<String>::new());
    let mut q = VecDeque::new();
    push_line(&mut q, "  \n");
    push_line(&mut q, "{\"content\":");
    push_line(&mut q, " [1,2] ");
    assert_eq!(contents(&q), vec!["-"]);
}

#[test]
fn frames_flatten_in_order() {
    let frames = vec![
        Frame { delay_ms: 1, data: vec![1, 2] },
        Frame { delay_ms: 2, data: vec![] },
        Frame { delay_ms: 3, data: vec![3] },
    ];
    assert_eq!(flatten(frames), vec![1, 2, 3]);
}

// ---- state

#[test]
fn voices_are_kept_in_order() {
    let mut s = state(&[]);
    for name in ["m", "z", "a", "m2"] {
        assert!(s.enrol_voice(name, false));
    }
    assert!(!s.enrol_voice("m", false));
    assert!(s.enrol_voice("m", true));
    assert_eq!(s.voice_names(), vec!["a", "m", "m2", "z"]);
    s.reset();
    assert!(s.voice_names().is_empty());
    assert!(s.enrol_voice("m", false));
}

#[test]
fn models_are_set_from_either_shape() {
    let mut s = state(&[]);
    s.set_models(&j("{\"models\":[\"a\",{\"id\":\"b\"},5]}"));
    assert_eq!(s.models_snapshot().len(), 2);
    s.set_models(&j("{\"other\":[\"c\"]}"));
    assert_eq!(s.models_snapshot().len(), 2);
    s.set_models(&j("[]"));
    assert_eq!(s.models_snapshot().len(), 0);
}

#[test]
fn behavior_is_merged_member_by_member() {
    let mut s = state(&["--transcript", "t", "--context-window", "5"]);
    s.behavior_merge(&j("{\"stall_seconds\":\"x\",\"llamaswap\":1,\"heartbeat_sentinel\":\"h\",\"transcript\":7,\"context_window\":-1}"));
    let v = to_value(&s.behavior_value());
    assert_eq!(v["stall_seconds"], 5);
    assert_eq!(v["llamaswap"], false);
    assert_eq!(v["heartbeat_sentinel"], "h");
    assert!(v["transcript"].is_null() && v["context_window"].is_null());
    let all = "{\"stall_first_with_tools\":true,\"stall_seconds\":1,\"heartbeat_sentinel\":\"s\",\"consume_only_with_tools\":true,\"connect_delay_ms\":2,\"validate_chat\":true,\"reject_silent_audio\":true,\"require_voice_consent\":true,\"context_window\":3,\"chars_per_token\":4,\"llamaswap\":true,\"empty_transcript\":true,\"speech_frame_delay_ms\":5,\"transcript\":\"t\"}";
    s.behavior_merge(&j(all));
    assert_eq!(to_value(&s.behavior_value()), value(all));
}

#[test]
fn speech_goes_by_the_first_match() {
    let c = config(&["--speech-for", "ÄRGER=a", "--speech-for", "är=b", "--speech-file", "f"]);
    let s = State::from_config(&c, Some(vec![9]), vec![b"a".to_vec(), b"b".to_vec()]);
    assert_eq!(s.speech_for("So ein Ärger!"), Some(&b"a"[..]));
    assert_eq!(s.speech_for("ÄRA"), Some(&b"b"[..]));
    assert_eq!(s.speech_for("nothing"), Some(&[9][..]));
    assert_eq!(s.speech_matching("ÄRA"), Some(&[9][..]));
    assert!(state(&[]).speech_for("x").is_none());
}

#[test]
fn a_match_speaks_in_any_case() {
    let c = config(&["--speech-for", "CheckING=a", "--speech-for", "[z]@=b"]);
    assert_eq!(c.speech_for[0].0, "checking");
    assert_eq!(c.speech_for[1].0, "[z]@");
    let s = State::from_config(&c, None, vec![vec![1], vec![2]]);
    for text in ["Checking.", "I AM CHECKING", "cHECKINg [Z]@"] {
        assert_eq!(s.speech_for(text), Some(&[1u8][..]), "{text}");
    }
    assert_eq!(s.speech_for("so [Z]@ it is"), Some(&[2u8][..]));
    assert_eq!(s.speech_for("{Z}@ CHECK-ING"), None);
}

#[test]
fn matches_are_paired_with_their_files() {
    let c = config(&["--speech-for", "One=1.wav", "--speech-for=two=2.pcm"]);
    let mut wav = b"RIFF\0\0\0\0WAVE".to_vec();
    wav.extend(chunk(b"data", &[7, 8]));
    let paired = speech_variants(&c, vec![wav, vec![9]]);
    assert_eq!(
        paired,
        vec![("one".to_string(), vec![7, 8]), ("two".to_string(), vec![9])]
    );
    assert!(speech_variants(&config(&[]), Vec::new()).is_empty());
}

#[test]
fn the_queue_is_taken_from_the_front() {
    let mut s = state(&["--default-response", "{\"content\":\"d\"}"]);
    assert_eq!(s.responses_append(&j("[{\"content\":\"a\"},{\"content\":\"b\"}]")), 2);
    assert_eq!(s.responses_append(&j("{\"content\":\"c\"}")), 3);
    assert_eq!(s.next_response().unwrap().to_value().str_at("content"), Some("a"));
    assert_eq!(s.pending(), 2);
    assert_eq!(s.responses_replace(&j("[{}]")), 1);
    s.responses_clear();
    assert!(s.next_response().is_none());
    assert_eq!(s.default_response().unwrap().to_value().str_at("content"), Some("d"));
    s.clear_default_response();
    assert!(s.default_response().is_none());
    assert_eq!(to_text(&s.default_response_value()), "{\"default\":null}");
}

// ---- control plane

fn admin_call(s: &mut State, method: &str, sub: &str, body: &str) -> (u16, Value) {
    let path = format!("/__admin{sub}");
    let r = admin::handle(s, &request(method, &path, body.as_bytes()), &path);
    (r.status, reply(&r))
}

#[test]
fn the_control_plane_answers() {
    let mut s = state(&[]);
    let call = admin_call;
    assert_eq!(
        call(&mut s, "POST", "/responses", "[{},{}]"),
        (200, value("{\"ok\":true,\"pending\":2}"))
    );
    assert_eq!(
        call(&mut s, "GET", "/health", ""),
        (200, value("{\"ok\":true,\"captures\":0,\"pending_responses\":2}"))
    );
    assert_eq!(
        call(&mut s, "PUT", "/responses", "[{\"content\":\"x\"}]").1,
        value("{\"ok\":true,\"pending\":1}")
    );
    let (_, listed) = call(&mut s, "GET", "/responses", "");
    assert_eq!(listed["responses"][0]["content"], "x");
    assert_eq!(call(&mut s, "DELETE", "/responses", "").1, value("{\"ok\":true}"));
    assert_eq!(s.pending(), 0);
    assert_eq!(call(&mut s, "PUT", "/default", "{\"content\":\"d\"}").0, 200);
    assert_eq!(call(&mut s, "GET", "/default", "").1["default"]["content"], "d");
    assert_eq!(call(&mut s, "DELETE", "/default", "").1, value("{\"ok\":true}"));
    assert_eq!(call(&mut s, "GET", "/default", "").1, value("{\"default\":null}"));
    assert_eq!(call(&mut s, "PUT", "/models", "[\"m\"]").1, value("{\"ok\":true}"));
    assert_eq!(call(&mut s, "GET", "/models", "").1["models"][0]["id"], "m");
    assert_eq!(call(&mut s, "POST", "/behavior", "{\"llamaswap\":true}").1["llamaswap"], true);
    assert_eq!(call(&mut s, "GET", "/captures", "").1, value("{\"captures\":[]}"));
    assert_eq!(call(&mut s, "POST", "/reset", "").1, value("{\"ok\":true}"));
}

#[test]
fn the_control_plane_knows_its_endpoints() {
    let mut s = state(&[]);
    for (method, sub) in [
        ("GET", ""), ("POST", "/health"), ("GET", "/reset"), ("PATCH", "/models"),
        ("DELETE", "/behavior"), ("GET", "x"), ("PUT", "/captures"),
    ] {
        let (status, body) = admin_call(&mut s, method, sub, "");
        assert_eq!(status, 404);
        assert_eq!(body["error"], format!("unknown admin endpoint: {method} {sub}"));
    }
}

// ---- families

#[test]
fn families_serve_their_paths() {
    let f: [&dyn Fn(&str, &str) -> bool; 7] = [
        &|m, p| ChatCompletions.matches(m, p),
        &|m, p| AudioSpeech.matches(m, p),
        &|m, p| AudioTranscriptions.matches(m, p),
        &|m, p| AudioVoices.matches(m, p),
        &|m, p| VoiceRegistry.matches(m, p),
        &|m, p| ImagesGenerations.matches(m, p),
        &|m, p| Models.matches(m, p),
    ];
    let serving = |m: &str, p: &str| -> Vec<usize> { (0..7).filter(|i| f[*i](m, p)).collect() };
    assert_eq!(serving("POST", "/v1/chat/completions"), vec![0]);
    assert_eq!(serving("POST", "/x/chat/completions/y"), vec![0]);
    assert_eq!(serving("GET", "/v1/chat/completions"), Vec::<usize>::new());
    assert_eq!(serving("POST", "/v1/audio/speech"), vec![1]);
    assert_eq!(serving("POST", "/v1/audio/transcriptions"), vec![2]);
    assert_eq!(serving("GET", "/v1/audio/voices"), vec![3]);
    assert_eq!(serving("POST", "/v1/audio/voices"), vec![3]);
    assert_eq!(serving("PUT", "/v1/audio/voices"), Vec::<usize>::new());
    assert_eq!(serving("GET", "/v1/voices"), vec![4]);
    assert_eq!(serving("POST", "/v1/images/generations"), vec![5]);
    assert_eq!(serving("GET", "/v1/models"), vec![6]);
    assert_eq!(serving("GET", "/v1/models/"), vec![6]);
    assert_eq!(serving("GET", "/v1/modelsx"), Vec::<usize>::new());
}

#[test]
fn images_come_at_least_once() {
    let mut s = state(&[]);
    let r = answered(ImagesGenerations.handle(&mut s, &request("POST", "/", b"{\"n\":0}"), "/"));
    assert_eq!(reply(&r)["data"].as_array().unwrap().len(), 1);
    assert_eq!(reply(&r)["created"], 0);
    let r = answered(ImagesGenerations.handle(&mut s, &request("POST", "/", b"{\"n\":-2}"), "/"));
    assert_eq!(reply(&r)["data"].as_array().unwrap().len(), 1);
}

#[test]
fn uploads_name_their_format() {
    let upload = |file: &str| {
        format!(
            "--X\r\nContent-Disposition: form-data; name=\"consent_attestation\"\r\n\r\n yes \r\n--X\r\nContent-Disposition: form-data; name=\"voice\"{file}\r\n\r\nx\r\n--X--\r\n"
        )
    };
    let mut s = state(&[]);
    let path = "/v1/voices?force=true";
    let mut enrol = |file: &str| {
        let body = upload(file);
        let req = request("POST", path, body.as_bytes());
        let r = answered(VoiceRegistry.handle(&mut s, &req, "/v1/voices"));
        assert_eq!(r.status, 201);
        let v = reply(&r);
        assert_eq!(v["size_bytes"], body.len());
        (v["name"].as_str().unwrap().to_string(), v["format"].as_str().unwrap().to_string())
    };
    assert_eq!(enrol("; filename=\"a.b.flac\""), ("cloned-voice".to_string(), "flac".to_string()));
    assert_eq!(enrol("; filename=\"noending\"").1, "wav");
    assert_eq!(enrol("").1, "wav");
    assert_eq!(s.voice_names(), vec!["cloned-voice"]);
}

#[test]
fn the_window_is_checked_against_the_prompt() {
    let mut b = Behavior::default();
    b.context_window = Some(10);
    let req = request("POST", "/v1/chat/completions", b"{}");
    assert!(ChatCompletions.refuse(&b, &req, Some(10)).is_none());
    let r = ChatCompletions.refuse(&b, &req, Some(11)).unwrap();
    assert_eq!(r.status, 400);
    assert_eq!(reply(&r)["error"]["code"], "context_length_exceeded");
    assert_eq!(reply(&r)["error"]["type"], "invalid_request_error");
    b.validate_chat = true;
    assert_eq!(ChatCompletions.refuse(&b, &req, Some(11)).unwrap().status, 401);
}

#[test]
fn a_total_that_does_not_fit_fails_the_request() {
    let mut s = state(&[]);
    s.responses_append(&j("{\"usage\":{\"completion_tokens\":18446744073709551615}}"));
    let req = request("POST", "/v1/chat/completions", b"{}");
    assert!(matches!(ChatCompletions.answer(&mut s, &req, Some(1)), Action::Fail));
    assert_eq!(s.pending(), 0);
    // Without a window nothing is counted, and the request is answered.
    s.responses_append(&j("{\"usage\":{\"completion_tokens\":18446744073709551615}}"));
    assert!(matches!(ChatCompletions.answer(&mut s, &req, None), Action::Respond { .. }));
}
