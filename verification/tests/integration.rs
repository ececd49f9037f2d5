//! Whole scenarios: a command line, a row of requests, and what comes back.

use std::cell::{Cell, RefCell};
use std::time::Duration;

use fake_openai::audio_probe;
use fake_openai::config::parse_args;
use fake_openai::handlers::{Action, Stage};
use fake_openai::json::Json;
use fake_openai::response::{parse_request, Body, FrameReader, ParsedRequest, Pull};
use fake_openai::router::Router;
use fake_openai::state::State;
use serde_json::Value;

const FALLBACK_SSE: &str = "data: {\"id\":\"1\",\"object\":\"chat.completion.chunk\",\"created\":0,\"model\":\"fake-model\",\"choices\":[{\"index\":0,\"delta\":{\"role\":\"assistant\",\"content\":\"ok\"},\"finish_reason\":null}]}\n\ndata: {\"id\":\"1\",\"object\":\"chat.completion.chunk\",\"created\":0,\"model\":\"fake-model\",\"choices\":[{\"index\":0,\"delta\":{},\"finish_reason\":\"stop\"}],\"usage\":{\"prompt_tokens\":1,\"completion_tokens\":1,\"total_tokens\":2}}\n\ndata: [DONE]\n\n";

const CHAT_PATH: &str = "/v1/chat/completions";
const SPEECH_PATH: &str = "/v1/audio/speech";
const TRANSCRIPTIONS_PATH: &str = "/v1/audio/transcriptions";
const VOICES_PATH: &str = "/v1/audio/voices";
const REGISTRY_VOICES_PATH: &str = "/v1/voices";
const FLAG_REQUIRE_VOICE_CONSENT: &str = "--require-voice-consent";
const DEFAULT_VOICE: &str = "alloy";
const IMAGES_PATH: &str = "/v1/images/generations";

// A chat request, with or without tools, a heartbeat, and the wish for a stream.
fn chat_body(tools: bool, heartbeat: bool, stream: bool) -> String {
    let content = if heartbeat { "tick [heartbeat] tick" } else { "hello" };
    let tools_field = if tools {
        ",\"tools\":[{\"type\":\"function\",\"function\":{\"name\":\"x\"}}]"
    } else {
        ""
    };
    format!(
        "{{\"model\":\"fake-model\",\"messages\":[{{\"role\":\"user\",\"content\":\"{content}\"}}]{tools_field},\"stream\":{stream}}}"
    )
}

// The library behind a client that waits by adding up.
struct Server {
    state: RefCell<State>,
    router: Router,
    waited: Cell<Duration>,
    logged: RefCell<Vec<String>>,
    reads_stdin: bool,
}

// The mean energy of the audio of a request, to three places.
fn rms(raw: &[u8]) -> Json {
    match audio_probe::samples(raw) {
        Some(samples) => {
            let energy: f64 = samples.iter().map(|s| (*s as f64).powi(2)).sum();
            let rms = (energy / samples.len() as f64).sqrt();
            let rounded = (rms * 1000.0).round() / 1000.0;
            Json::Num(serde_json::Number::from_f64(rounded).unwrap())
        }
        None => Json::Null,
    }
}

impl Server {
    fn spawn(args: &[&str]) -> Server {
        Server::spawn_with(args, &[])
    }

    // Starts with the contents of the files that the command line names.
    fn spawn_with(args: &[&str], files: &[(&str, &[u8])]) -> Server {
        let config = match parse_args(args.iter().map(|a| a.to_string()).collect()) {
            Ok(c) => c,
            Err(e) => panic!("{e}"),
        };
        let read = |path: &str| -> Vec<u8> {
            files.iter().find(|(p, _)| *p == path).expect("a file").1.to_vec()
        };
        let speech = config.speech_file.as_ref().map(|p| read(p));
        let contents = config.speech_for.iter().map(|(_, p)| read(p)).collect();
        let mut state = State::from_config(&config, speech, contents);
        if let Some(path) = &config.responses_file {
            state.responses_load(&String::from_utf8(read(path)).unwrap());
        }
        Server {
            state: RefCell::new(state),
            router: Router::new(),
            waited: Cell::new(Duration::ZERO),
            logged: RefCell::new(Vec::new()),
            reads_stdin: config.stdin,
        }
    }

    fn parse(
        &self,
        method: &str,
        path: &str,
        headers: &[(&str, &str)],
        body: &[u8],
    ) -> ParsedRequest {
        let mut all = vec![("Host".to_string(), "127.0.0.1:1".to_string())];
        for (k, v) in headers {
            all.push((k.to_string(), v.to_string()));
        }
        all.push(("Content-Length".to_string(), body.len().to_string()));
        parse_request(method.to_string(), path.to_string(), &all, body.to_vec())
    }

    fn arrive(&self, req: &ParsedRequest) -> Action {
        let stage = Stage::Arrived { at_ms: 1_700_000_000_000, rms: rms(&req.raw) };
        self.router.route(&mut self.state.borrow_mut(), req, stage)
    }

    // Takes a request through its stages: status, head and body.
    fn send(&self, req: &ParsedRequest) -> (u16, String, Vec<u8>) {
        let mut waited = Duration::ZERO;
        let mut action = self.arrive(req);
        let response = loop {
            match action {
                Action::Respond { delay_ms, response } => {
                    waited += Duration::from_millis(delay_ms);
                    break response;
                }
                Action::Wait { line, seconds, millis, next } => {
                    if let Some(l) = line {
                        self.logged.borrow_mut().push(l);
                    }
                    waited += Duration::from_secs(seconds) + Duration::from_millis(millis);
                    action = self.router.route(&mut self.state.borrow_mut(), req, next);
                }
                Action::Fail => panic!("no response"),
            }
        };
        let mut head = format!("HTTP/1.1 {}\r\nContent-Type: {}", response.status, response.content_type);
        if response.uncached() {
            head.push_str("\r\nCache-Control: no-cache");
        }
        let bytes = match response.body {
            Body::Buffered(b) => b,
            Body::Streamed { frames, hang_ms } => {
                let mut out = Vec::new();
                let mut reader = FrameReader::new(frames, hang_ms);
                loop {
                    match reader.pull(100) {
                        Pull::Data(b) => out.extend_from_slice(&b),
                        Pull::Wait(ms) => waited += Duration::from_millis(ms),
                        Pull::End => break,
                    }
                }
                out
            }
        };
        self.waited.set(waited);
        (response.status, head, bytes)
    }

    // How long the last request was held.
    fn elapsed(&self) -> Duration {
        self.waited.get()
    }

    fn stdin_line(&self, line: &str) {
        self.state.borrow_mut().responses_line(line);
    }

    fn req_full(&self, method: &str, path: &str, body: &str) -> (u16, String, String) {
        let (status, head, bytes) = self.req_bytes(method, path, body);
        (status, head, String::from_utf8_lossy(&bytes).into_owned())
    }

    fn req_bytes(&self, method: &str, path: &str, body: &str) -> (u16, String, Vec<u8>) {
        let headers = [("Content-Type", "application/json"), ("Connection", "close")];
        self.send(&self.parse(method, path, &headers, body.as_bytes()))
    }

    fn req(&self, method: &str, path: &str, body: &str) -> (u16, String) {
        let (status, _head, body) = self.req_full(method, path, body);
        (status, body)
    }

    fn post(&self, path: &str, body: &str) -> (u16, String) {
        self.req("POST", path, body)
    }

    fn post_bytes(&self, path: &str, body: &[u8]) -> (u16, String) {
        let headers = [("Content-Type", "multipart/form-data; boundary=b")];
        let (status, _, bytes) = self.send(&self.parse("POST", path, &headers, body));
        (status, String::from_utf8_lossy(&bytes).into_owned())
    }

    fn post_auth(&self, path: &str, body: &str) -> (u16, String) {
        let headers = [("Authorization", "Bearer test"), ("Content-Type", "application/json")];
        let (status, _, bytes) = self.send(&self.parse("POST", path, &headers, body.as_bytes()));
        (status, String::from_utf8_lossy(&bytes).into_owned())
    }

    fn get(&self, path: &str) -> (u16, String) {
        self.req("GET", path, "")
    }

    fn captures(&self) -> Vec<Value> {
        let (_, body) = self.get("/__admin/captures");
        json(&body)["captures"].as_array().cloned().unwrap_or_default()
    }

    fn pending(&self) -> usize {
        let (_, body) = self.get("/__admin/responses");
        json(&body)["responses"].as_array().map(|a| a.len()).unwrap_or(0)
    }
}

fn json(s: &str) -> Value {
    serde_json::from_str(s).unwrap_or_else(|e| panic!("bad json: {e}\n{s}"))
}

// A list of one user message.
fn messages(content: &str) -> Value {
    let mut m = serde_json::Map::new();
    m.insert("role".to_string(), Value::from("user"));
    m.insert("content".to_string(), Value::from(content));
    Value::from(vec![Value::Object(m)])
}

// A chat request without a stream whose only message holds `content`.
fn sized_chat_body(content: &str) -> String {
    let mut m = serde_json::Map::new();
    m.insert("model".to_string(), Value::from("fake-model"));
    m.insert("messages".to_string(), messages(content));
    m.insert("stream".to_string(), Value::from(false));
    Value::Object(m).to_string()
}

// The prompt tokens of such a request.
fn derived_prompt(content: &str, chars_per_token: u64) -> u64 {
    (messages(content).to_string().len() as u64).div_ceil(chars_per_token)
}

#[test]
fn fallback_sse_when_queue_empty() {
    let s = Server::spawn(&[]);
    let (status, body) = s.post(CHAT_PATH, &chat_body(false, false, true));
    assert_eq!(status, 200);
    assert_eq!(body, FALLBACK_SSE);
}

#[test]
fn models_lists_default() {
    let s = Server::spawn(&[]);
    let (status, body) = s.get("/v1/models");
    assert_eq!(status, 200);
    let v = json(&body);
    assert_eq!(v["object"], "list");
    let data = v["data"].as_array().unwrap();
    assert_eq!(data.len(), 1);
    assert_eq!(data[0]["id"], "fake-model");
    assert_eq!(data[0]["object"], "model");
}

#[test]
fn models_configurable_and_introspectable() {
    let s = Server::spawn(&["--models", "alpha,beta"]);
    let (_, body) = s.get("/v1/models");
    let ids: Vec<String> = json(&body)["data"]
        .as_array()
        .unwrap()
        .iter()
        .map(|m| m["id"].as_str().unwrap().to_string())
        .collect();
    assert_eq!(ids, vec!["alpha", "beta"]);
    let (status, body) = s.get("/v1/models/alpha");
    assert_eq!(status, 200);
    assert_eq!(json(&body)["id"], "alpha");
    let (status, _) = s.get("/v1/models/zzz");
    assert_eq!(status, 404);
}

#[test]
fn models_settable_via_admin() {
    let s = Server::spawn(&[]);
    let (status, _) = s.req("PUT", "/__admin/models", "[\"m1\",\"m2\"]");
    assert_eq!(status, 200);
    let (_, body) = s.get("/v1/models");
    assert_eq!(json(&body)["data"].as_array().unwrap().len(), 2);
}

#[test]
fn captures_record_contract() {
    let s = Server::spawn(&[]);
    s.post(CHAT_PATH, &chat_body(true, false, true));
    let caps = s.captures();
    assert_eq!(caps.len(), 1);
    assert_eq!(caps[0]["path"], CHAT_PATH);
    assert!(caps[0]["headers"].is_object());
    assert!(caps[0]["body"]["tools"].is_array());
}

#[test]
fn reset_clears_captures_and_rearms_stall() {
    let s = Server::spawn(&["--stall-first-with-tools", "--stall-seconds", "1"]);
    s.post(CHAT_PATH, &chat_body(false, false, true));
    assert_eq!(s.captures().len(), 1);
    let (status, _) = s.post("/__admin/reset", "");
    assert_eq!(status, 200);
    assert_eq!(s.captures().len(), 0);
    s.post(CHAT_PATH, &chat_body(true, false, true));
    assert!(s.elapsed() >= Duration::from_millis(900));
}

#[test]
fn programmed_response_via_admin_then_fallback() {
    let s = Server::spawn(&[]);
    let (status, _) = s.post("/__admin/responses", "{\"content\":\"hi there\"}");
    assert_eq!(status, 200);
    let (_, body) = s.post(CHAT_PATH, &chat_body(false, false, true));
    assert!(
        body.contains("hi there"),
        "programmed content missing: {body}"
    );
    let (_, body2) = s.post(CHAT_PATH, &chat_body(false, false, true));
    assert_eq!(body2, FALLBACK_SSE);
}

#[test]
fn programmed_response_non_stream_json() {
    let s = Server::spawn(&[]);
    s.post("/__admin/responses", "{\"content\":\"hi json\"}");
    let (status, body) = s.post(CHAT_PATH, &chat_body(false, false, false));
    assert_eq!(status, 200);
    let v = json(&body);
    assert_eq!(v["object"], "chat.completion");
    assert_eq!(v["choices"][0]["message"]["content"], "hi json");
}

#[test]
fn programmed_reasoning_streams_reasoning_content() {
    let s = Server::spawn(&[]);
    s.post("/__admin/responses", "{\"reasoning\":\"thinking\",\"content\":\"answer\"}");
    let (status, body) = s.post(CHAT_PATH, &chat_body(false, false, true));
    assert_eq!(status, 200);
    assert!(body.contains("reasoning_content"), "no reasoning delta: {body}");
    assert!(body.contains("thinking"), "reasoning text missing: {body}");
    assert!(body.contains("answer"), "content missing: {body}");
    let rpos = body.find("reasoning_content").unwrap();
    let cpos = body.find("\"content\":\"answer\"").unwrap();
    assert!(rpos < cpos, "reasoning must stream before content: {body}");
}

#[test]
fn programmed_reasoning_non_stream_json() {
    let s = Server::spawn(&[]);
    s.post("/__admin/responses", "{\"reasoning\":\"thinking\",\"content\":\"answer\"}");
    let (_, body) = s.post(CHAT_PATH, &chat_body(false, false, false));
    let v = json(&body);
    assert_eq!(v["choices"][0]["message"]["reasoning_content"], "thinking");
    assert_eq!(v["choices"][0]["message"]["content"], "answer");
}

#[test]
fn programmed_reasoning_chunks_stream_one_delta_each() {
    let s = Server::spawn(&[]);
    s.post(
        "/__admin/responses",
        "{\"reasoning_chunks\":[\"think \",\"more \",\"now\"],\"chunks\":[\"hel\",\"lo\"]}",
    );
    let (status, body) = s.post(CHAT_PATH, &chat_body(false, false, true));
    assert_eq!(status, 200);
    assert_eq!(
        body.matches("reasoning_content").count(),
        3,
        "expected 3 reasoning deltas: {body}"
    );
    s.post(
        "/__admin/responses",
        "{\"reasoning_chunks\":[\"think \",\"more \",\"now\"],\"chunks\":[\"hel\",\"lo\"]}",
    );
    let (_, jbody) = s.post(CHAT_PATH, &chat_body(false, false, false));
    let v = json(&jbody);
    assert_eq!(v["choices"][0]["message"]["reasoning_content"], "think more now");
}

#[test]
fn programmed_raw_body_verbatim() {
    let s = Server::spawn(&[]);
    s.post(
        "/__admin/responses",
        "{\"raw_body\":\"custom-bytes\",\"content_type\":\"text/plain\"}",
    );
    let (status, body) = s.post(CHAT_PATH, &chat_body(false, false, true));
    assert_eq!(status, 200);
    assert_eq!(body, "custom-bytes");
}

#[test]
fn default_response_overridden_by_flag() {
    let s = Server::spawn(&["--default-response", "{\"content\":\"DFLT\"}"]);
    let (_, a) = s.post(CHAT_PATH, &chat_body(false, false, true));
    assert!(a.contains("DFLT"), "{a}");
    s.post("/__admin/responses", "{\"content\":\"queued\"}");
    let (_, b) = s.post(CHAT_PATH, &chat_body(false, false, true));
    assert!(b.contains("queued"), "{b}");
    let (_, c) = s.post(CHAT_PATH, &chat_body(false, false, true));
    assert!(c.contains("DFLT"), "{c}");
}

#[test]
fn default_response_settable_via_admin() {
    let s = Server::spawn(&[]);
    let (status, _) = s.req("PUT", "/__admin/default", "{\"content\":\"admin-default\"}");
    assert_eq!(status, 200);
    let (_, a) = s.post(CHAT_PATH, &chat_body(false, false, true));
    assert!(a.contains("admin-default"), "{a}");
    s.req("DELETE", "/__admin/default", "");
    let (_, b) = s.post(CHAT_PATH, &chat_body(false, false, true));
    assert_eq!(b, FALLBACK_SSE);
}

#[test]
fn responses_from_file_in_order() {
    let s = Server::spawn_with(
        &["--responses", "responses.json"],
        &[("responses.json", b"[{\"content\":\"first\"},{\"content\":\"second\"}]")],
    );
    let (_, a) = s.post(CHAT_PATH, &chat_body(false, false, true));
    let (_, b) = s.post(CHAT_PATH, &chat_body(false, false, true));
    let (_, c) = s.post(CHAT_PATH, &chat_body(false, false, true));
    assert!(a.contains("first"), "{a}");
    assert!(b.contains("second"), "{b}");
    assert_eq!(c, FALLBACK_SSE);
}

#[test]
fn responses_from_stdin_in_order() {
    let s = Server::spawn(&["--stdin"]);
    assert!(s.reads_stdin);
    s.stdin_line("{\"content\":\"one\"}\n");
    s.stdin_line("{\"content\":\"two\"}\n");
    assert_eq!(s.pending(), 2);
    let (_, a) = s.post(CHAT_PATH, &chat_body(false, false, true));
    let (_, b) = s.post(CHAT_PATH, &chat_body(false, false, true));
    assert!(a.contains("one"), "{a}");
    assert!(b.contains("two"), "{b}");
}

#[test]
fn stall_skips_heartbeat_then_stalls_once() {
    let s = Server::spawn(&["--stall-first-with-tools", "--stall-seconds", "1"]);

    s.post(CHAT_PATH, &chat_body(true, true, true));
    assert!(
        s.elapsed() < Duration::from_millis(900),
        "heartbeat was stalled"
    );

    s.post(CHAT_PATH, &chat_body(true, false, true));
    assert!(
        s.elapsed() >= Duration::from_millis(900),
        "first tools req not stalled"
    );

    s.post(CHAT_PATH, &chat_body(true, false, true));
    assert!(
        s.elapsed() < Duration::from_millis(900),
        "stall was not one-shot"
    );
}

#[test]
fn heartbeat_detected_in_list_content() {
    let s = Server::spawn(&["--stall-first-with-tools", "--stall-seconds", "1"]);
    let body = "{\"model\":\"fake-model\",\"messages\":[{\"role\":\"user\",\"content\":\
                [{\"type\":\"text\",\"text\":\"please [heartbeat] now\"}]}],\
                \"tools\":[{\"type\":\"function\",\"function\":{\"name\":\"x\"}}],\"stream\":true}";
    s.post(CHAT_PATH, body);
    assert!(
        s.elapsed() < Duration::from_millis(900),
        "list-content heartbeat was stalled"
    );
}

#[test]
fn behavior_admin_get_and_set() {
    let s = Server::spawn(&[]);
    let (_, body) = s.get("/__admin/behavior");
    assert_eq!(json(&body)["stall_first_with_tools"], false);
    let (status, _) = s.post("/__admin/behavior", "{\"stall_first_with_tools\":true}");
    assert_eq!(status, 200);
    let (_, body) = s.get("/__admin/behavior");
    assert_eq!(json(&body)["stall_first_with_tools"], true);
}

#[test]
fn jsonl_log_file_records_capture() {
    let s = Server::spawn(&["--log-file", "captures.jsonl"]);
    s.post(CHAT_PATH, &chat_body(false, false, true));
    let logged = s.logged.borrow().clone();
    let line = logged.first().expect("one jsonl line");
    assert_eq!(json(line)["path"], CHAT_PATH);
}

#[test]
fn admin_requests_are_not_captured() {
    let s = Server::spawn(&[]);
    s.get("/__admin/health");
    s.get("/__admin/captures");
    assert_eq!(s.captures().len(), 0);
}

#[test]
fn consume_only_with_tools_preserves_queue_for_non_tools() {
    let s = Server::spawn(&["--consume-only-with-tools"]);
    s.post("/__admin/responses", "{\"content\":\"tool-turn\"}");
    let (_, a) = s.post(CHAT_PATH, &chat_body(false, false, true));
    assert_eq!(a, FALLBACK_SSE, "non-tools request consumed the queue");
    assert_eq!(
        s.pending(),
        1,
        "queue should be intact after a non-tools request"
    );
    let (_, b) = s.post(CHAT_PATH, &chat_body(true, true, true));
    assert_eq!(b, FALLBACK_SSE, "heartbeat consumed the queue");
    assert_eq!(s.pending(), 1);
    let (_, c) = s.post(CHAT_PATH, &chat_body(true, false, true));
    assert!(c.contains("tool-turn"), "{c}");
    assert_eq!(s.pending(), 0);
}

#[test]
fn tts_speech_raw_pcm() {
    let s = Server::spawn(&[]);
    let body =
        "{\"input\":\"hi\",\"model\":\"tts-1\",\"voice\":\"alloy\",\"response_format\":\"pcm\"}";
    let (status, head, out) = s.req_bytes("POST", SPEECH_PATH, body);
    assert_eq!(status, 200);
    assert!(
        head.to_lowercase().contains("content-type: audio/pcm"),
        "{head}"
    );
    assert!(!out.is_empty(), "pcm body empty");
    assert!(
        !out.windows(18).any(|w| w == b"speech.audio.delta"),
        "raw path returned sse"
    );
}

fn expected_pcm(len: usize) -> Vec<u8> {
    (0..len).map(|i| (i % 251) as u8).collect()
}

#[test]
fn tts_speech_pcm_is_positional_not_silence() {
    let s = Server::spawn(&[]);
    let body =
        "{\"input\":\"hi\",\"model\":\"tts-1\",\"voice\":\"alloy\",\"response_format\":\"pcm\"}";
    let (status, head, pcm) = s.req_bytes("POST", SPEECH_PATH, body);
    assert_eq!(status, 200);
    assert!(
        head.to_lowercase().contains("content-type: audio/pcm"),
        "{head}"
    );
    assert!(!pcm.is_empty(), "pcm body empty");
    assert_eq!(pcm, expected_pcm(pcm.len()), "pcm is not the expected ramp");

    assert_ne!(pcm[1..], expected_pcm(pcm.len())[..pcm.len() - 1],
        "a one-byte shift must be detectable");
    assert_ne!(pcm.len(), 0);
    assert!(pcm.iter().any(|b| *b != 0), "payload is still silence");
}

#[test]
fn tts_speech_sse_audio_matches_the_raw_body() {
    let s = Server::spawn(&[]);
    let raw_body =
        "{\"input\":\"hi\",\"model\":\"tts-1\",\"voice\":\"alloy\",\"response_format\":\"pcm\"}";
    let (_, _, raw) = s.req_bytes("POST", SPEECH_PATH, raw_body);

    let sse_body = "{\"input\":\"hi\",\"model\":\"tts-1\",\"voice\":\"alloy\",\
                    \"response_format\":\"pcm\",\"stream_format\":\"sse\"}";
    let (_, _, out) = s.req_full("POST", SPEECH_PATH, sse_body);
    let line = out
        .lines()
        .find(|l| l.starts_with("data: {\"audio\""))
        .expect("audio data line");
    let encoded = json(line.trim_start_matches("data: "))["audio"]
        .as_str()
        .expect("audio field")
        .to_string();
    assert_eq!(decode_b64(&encoded), raw, "sse audio differs from raw pcm");
}

fn decode_b64(s: &str) -> Vec<u8> {
    const ALPHABET: &[u8] = b"ABCDEFGHIJKLMNOPQRSTUVWXYZabcdefghijklmnopqrstuvwxyz0123456789+/";
    let mut out = Vec::new();
    let mut acc: u32 = 0;
    let mut bits = 0;
    for c in s.bytes().filter(|c| *c != b'=') {
        let v = ALPHABET.iter().position(|a| *a == c).expect("base64 char") as u32;
        acc = (acc << 6) | v;
        bits += 6;
        if bits >= 8 {
            bits -= 8;
            out.push((acc >> bits) as u8);
        }
    }
    out
}

#[test]
fn tts_speech_sse_frames() {
    let s = Server::spawn(&[]);
    let body = "{\"input\":\"hi\",\"model\":\"tts-1\",\"voice\":\"alloy\",\
                \"response_format\":\"pcm\",\"stream_format\":\"sse\"}";
    let (status, head, out) = s.req_full("POST", SPEECH_PATH, body);
    assert_eq!(status, 200);
    assert!(
        head.to_lowercase()
            .contains("content-type: text/event-stream"),
        "{head}"
    );
    assert!(
        out.contains("event: speech.audio.delta"),
        "missing delta event: {out}"
    );
    let line = out
        .lines()
        .find(|l| l.starts_with("data: {\"audio\""))
        .expect("audio data line");
    let v = json(line.trim_start_matches("data: "));
    assert!(
        v["audio"].as_str().is_some_and(|a| !a.is_empty()),
        "empty audio: {out}"
    );
}

#[test]
fn stt_transcription_json() {
    let s = Server::spawn(&[]);
    let (status, body) = s.post(TRANSCRIPTIONS_PATH, "multipart-bytes-here");
    assert_eq!(status, 200);
    assert!(
        json(&body)["text"].as_str().is_some_and(|t| !t.is_empty()),
        "{body}"
    );
}

#[test]
fn audio_voices_list() {
    let s = Server::spawn(&[]);
    let (status, body) = s.get(VOICES_PATH);
    assert_eq!(status, 200);
    assert!(body.contains("alloy"), "{body}");
}

#[test]
fn tts_speech_sse_can_be_paced_so_a_reply_arrives_over_time() {
    let s = Server::spawn(&[]);
    let body = "{\"input\":\"hi\",\"model\":\"tts-1\",\"voice\":\"alloy\",\
                \"response_format\":\"pcm\",\"stream_format\":\"sse\"}";

    let (status, _, unpaced) = s.req_full("POST", SPEECH_PATH, body);
    let quick = s.elapsed();
    assert_eq!(status, 200);

    let (status, _) = s.post("/__admin/behavior", "{\"speech_frame_delay_ms\":250}");
    assert_eq!(status, 200);
    let (status, head, paced) = s.req_full("POST", SPEECH_PATH, body);
    let slow = s.elapsed();

    assert_eq!(status, 200);
    assert!(
        head.to_lowercase()
            .contains("content-type: text/event-stream"),
        "{head}"
    );
    assert!(
        slow >= Duration::from_millis(400),
        "the frames were not held apart: paced took {slow:?}, unpaced {quick:?}"
    );
    let audio = |s: &str| {
        s.lines()
            .filter(|l| l.starts_with("data: {\"audio\""))
            .map(|l| l.to_string())
            .collect::<Vec<_>>()
    };
    assert_eq!(
        audio(&paced),
        audio(&unpaced),
        "a paced reply must carry the same audio as an unpaced one"
    );
    assert!(!audio(&paced).is_empty(), "no audio at all: {paced}");
    assert!(
        paced.contains("[DONE]"),
        "a paced stream must still terminate: {paced}"
    );
}

#[test]
fn tts_serves_the_fixture_that_matches_the_text() {
    let files: &[(&str, &[u8])] = &[
        ("first.pcm", &[0x11; 64]),
        ("second.pcm", &[0x22; 64]),
        ("fallback.pcm", &[0x33; 64]),
    ];
    let s = Server::spawn_with(
        &[
            "--speech-for",
            "checking=first.pcm",
            "--speech-for",
            "almost there=second.pcm",
            "--speech-file",
            "fallback.pcm",
        ],
        files,
    );
    let say = |text: &str| {
        let body = format!("{{\"input\":\"{text}\",\"response_format\":\"pcm\"}}");
        let (status, _, pcm) = s.req_bytes("POST", SPEECH_PATH, &body);
        assert_eq!(status, 200);
        pcm
    };
    assert_eq!(say("Checking.")[0], 0x11, "the first fixture");
    assert_eq!(say("Almost there.")[0], 0x22, "the second");
    assert_eq!(say("Checking.")[0], 0x11, "the same text is the same audio");
    assert_eq!(say("CHECKING, one moment.")[0], 0x11);
    assert_eq!(say("something else entirely")[0], 0x33, "the fallback");

    let plain = Server::spawn_with(&["--speech-file", "fallback.pcm"], files);
    let (_, _, pcm) = plain.req_bytes(
        "POST",
        SPEECH_PATH,
        "{\"input\":\"checking\",\"response_format\":\"pcm\"}",
    );
    assert_eq!(pcm[0], 0x33);
}

#[test]
fn stt_transcript_is_configurable_and_settable_at_runtime() {
    let s = Server::spawn(&["--transcript", "the build is failing again"]);
    let (status, body) = s.post(TRANSCRIPTIONS_PATH, "blob");
    assert_eq!(status, 200);
    assert_eq!(json(&body)["text"], "the build is failing again");

    let (status, _) = s.post("/__admin/behavior", "{\"transcript\":\"thanks, that worked\"}");
    assert_eq!(status, 200);
    let (_, body) = s.post(TRANSCRIPTIONS_PATH, "blob");
    assert_eq!(json(&body)["text"], "thanks, that worked");

    s.post("/__admin/behavior", "{\"transcript\":null}");
    let (_, body) = s.post(TRANSCRIPTIONS_PATH, "blob");
    assert_eq!(json(&body)["text"], "this is a test transcription");

    s.post(
        "/__admin/behavior",
        "{\"transcript\":\"hello\",\"empty_transcript\":true}",
    );
    let (_, body) = s.post(TRANSCRIPTIONS_PATH, "blob");
    assert_eq!(json(&body)["text"], "");
}

#[test]
fn stt_can_return_an_empty_transcript() {
    let s = Server::spawn(&["--empty-transcript"]);
    let (status, body) = s.post(TRANSCRIPTIONS_PATH, "blob");
    assert_eq!(status, 200);
    assert_eq!(json(&body)["text"], "", "expected an empty transcript: {body}");

    let plain = Server::spawn(&[]);
    let (_, body) = plain.post(TRANSCRIPTIONS_PATH, "blob");
    assert!(!json(&body)["text"].as_str().unwrap().is_empty());
}

#[test]
fn audio_requests_are_captured() {
    let s = Server::spawn(&[]);
    s.post(SPEECH_PATH, "{\"input\":\"hi\"}");
    s.post(TRANSCRIPTIONS_PATH, "blob");
    let caps = s.captures();
    let paths: Vec<&str> = caps.iter().filter_map(|c| c["path"].as_str()).collect();
    assert!(
        paths.contains(&SPEECH_PATH),
        "speech not captured: {paths:?}"
    );
    assert!(
        paths.contains(&TRANSCRIPTIONS_PATH),
        "stt not captured: {paths:?}"
    );
}

#[test]
fn unknown_get_returns_404_with_endpoints() {
    let s = Server::spawn(&[]);
    let (status, body) = s.get("/v1");
    assert_eq!(status, 404);
    let v = json(&body);
    let endpoints = v["endpoints"].as_array().expect("endpoints array");
    assert!(
        endpoints
            .iter()
            .any(|e| e.as_str() == Some("GET /v1/models")),
        "endpoints should advertise /v1/models: {body}"
    );
    let (status, _) = s.get("/v1/models");
    assert_eq!(status, 200);
}


#[test]
fn chunks_render_one_delta_each_streaming() {
    let s = Server::spawn(&[]);
    s.post("/__admin/responses", "{\"chunks\":[\"foo\",\"bar\"]}");
    let (status, body) = s.post(CHAT_PATH, &chat_body(false, false, true));
    assert_eq!(status, 200);
    let foo = body.find("\"content\":\"foo\"").expect("foo delta");
    let bar = body.find("\"content\":\"bar\"").expect("bar delta");
    assert!(foo < bar, "deltas out of order: {body}");
    assert!(body.contains("\"finish_reason\":\"stop\""), "{body}");
    assert!(body.contains("data: [DONE]"), "{body}");
}

#[test]
fn chunks_join_in_non_stream_message() {
    let s = Server::spawn(&[]);
    s.post("/__admin/responses", "{\"chunks\":[\"foo\",\"bar\"]}");
    let (_, body) = s.post(CHAT_PATH, &chat_body(false, false, false));
    assert_eq!(json(&body)["choices"][0]["message"]["content"], "foobar");
}

#[test]
fn error_spec_returns_openai_error_body() {
    let s = Server::spawn(&[]);
    s.post(
        "/__admin/responses",
        "{\"error\":{\"message\":\"boom\"},\"status\":429}",
    );
    let (status, body) = s.post(CHAT_PATH, &chat_body(false, false, true));
    assert_eq!(status, 429);
    let v = json(&body);
    assert_eq!(v["error"]["message"], "boom");
    assert_eq!(v["error"]["type"], "invalid_request_error");
}

#[test]
fn error_string_shorthand_defaults_to_400() {
    let s = Server::spawn(&[]);
    s.post("/__admin/responses", "{\"error\":\"nope\"}");
    let (status, body) = s.post(CHAT_PATH, &chat_body(false, false, false));
    assert_eq!(status, 400);
    assert_eq!(json(&body)["error"]["message"], "nope");
}

#[test]
fn truncate_omits_finish_and_done() {
    let s = Server::spawn(&[]);
    s.post(
        "/__admin/responses",
        "{\"content\":\"partial\",\"truncate\":true}",
    );
    let (status, body) = s.post(CHAT_PATH, &chat_body(false, false, true));
    assert_eq!(status, 200);
    assert!(body.contains("partial"), "{body}");
    assert!(
        !body.contains("[DONE]"),
        "truncated stream sent [DONE]: {body}"
    );
    assert!(!body.contains("\"finish_reason\":\"stop\""), "{body}");
}

#[test]
fn chunk_delay_paces_streamed_deltas() {
    let s = Server::spawn(&[]);
    s.post(
        "/__admin/responses",
        "{\"chunks\":[\"a\",\"b\",\"c\"],\"chunk_delay_ms\":200}",
    );
    let (_, body) = s.post(CHAT_PATH, &chat_body(false, false, true));
    assert!(
        s.elapsed() >= Duration::from_millis(380),
        "not paced: {:?}",
        s.elapsed()
    );
    assert!(body.contains("\"content\":\"c\""), "{body}");
}

#[test]
fn hang_holds_connection_then_closes() {
    let s = Server::spawn(&[]);
    s.post(
        "/__admin/responses",
        "{\"content\":\"x\",\"hang_ms\":400,\"truncate\":true}",
    );
    let (_, body) = s.post(CHAT_PATH, &chat_body(false, false, true));
    assert!(
        s.elapsed() >= Duration::from_millis(380),
        "did not hang: {:?}",
        s.elapsed()
    );
    assert!(body.contains('x'), "{body}");
    assert!(!body.contains("[DONE]"), "{body}");
}

#[test]
fn connect_delay_applies_to_requests_not_admin() {
    let s = Server::spawn(&["--connect-delay-ms", "300"]);
    s.get("/__admin/health");
    assert!(
        s.elapsed() < Duration::from_millis(200),
        "admin was delayed"
    );
    s.post(CHAT_PATH, &chat_body(false, false, true));
    assert!(
        s.elapsed() >= Duration::from_millis(280),
        "no connect delay: {:?}",
        s.elapsed()
    );
}

#[test]
fn a_capture_is_recorded_before_the_connect_delay_is_paid() {
    let s = Server::spawn(&["--connect-delay-ms", "1500"]);
    // The request has arrived and must not be answered for another 1500 ms.
    let req = s.parse("POST", CHAT_PATH, &[], chat_body(false, false, true).as_bytes());
    let waits = match s.arrive(&req) {
        Action::Wait { seconds: 0, millis, next: Stage::Connected, .. } => millis,
        _ => panic!("the request is not held"),
    };
    assert_eq!(waits, 1500);
    let seen = s.captures();
    assert_eq!(
        seen.len(),
        1,
        "the request is in flight and unrecorded: {seen:?}"
    );
    assert_eq!(seen[0]["path"], CHAT_PATH);
    assert!(
        seen[0]["at_ms"].as_u64().unwrap_or(0) > 0,
        "capture carries no at_ms: {:?}",
        seen[0]
    );
}

#[test]
fn connect_delay_settable_via_admin_behavior() {
    let s = Server::spawn(&[]);
    s.post("/__admin/behavior", "{\"connect_delay_ms\":250}");
    let (_, body) = s.get("/__admin/behavior");
    assert_eq!(json(&body)["connect_delay_ms"], 250);
}

#[test]
fn validate_chat_rejects_missing_model() {
    let s = Server::spawn(&["--validate-chat"]);
    let body = "{\"messages\":[{\"role\":\"user\",\"content\":\"hi\"}],\"stream\":false}";
    let (status, out) = s.post_auth(CHAT_PATH, body);
    assert_eq!(status, 400);
    assert_eq!(json(&out)["error"]["type"], "invalid_request_error");
}

#[test]
fn validate_chat_rejects_missing_messages() {
    let s = Server::spawn(&["--validate-chat"]);
    let (status, _) = s.post_auth(CHAT_PATH, "{\"model\":\"fake-model\",\"stream\":false}");
    assert_eq!(status, 400);
}

#[test]
fn validate_chat_requires_bearer_auth() {
    let s = Server::spawn(&["--validate-chat"]);
    let (status, out) = s.post(CHAT_PATH, &chat_body(false, false, false));
    assert_eq!(status, 401);
    assert_eq!(json(&out)["error"]["type"], "invalid_request_error");
}

#[test]
fn validate_chat_accepts_well_formed_request() {
    let s = Server::spawn(&["--validate-chat"]);
    s.post("/__admin/responses", "{\"content\":\"ok-valid\"}");
    let (status, out) = s.post_auth(CHAT_PATH, &chat_body(false, false, false));
    assert_eq!(status, 200, "{out}");
    assert_eq!(json(&out)["choices"][0]["message"]["content"], "ok-valid");
}

#[test]
fn validation_off_by_default() {
    let s = Server::spawn(&[]);
    let (status, _) = s.post(CHAT_PATH, "{\"stream\":false}");
    assert_eq!(status, 200);
}

#[test]
fn tool_calls_render_in_stream_and_json() {
    let s = Server::spawn(&[]);
    let tc = "{\"tool_calls\":[{\"id\":\"c1\",\"type\":\"function\",\"index\":0,\
              \"function\":{\"name\":\"read\",\"arguments\":\"{}\"}}],\"finish_reason\":\"tool_calls\"}";
    s.post("/__admin/responses", tc);
    let (_, stream) = s.post(CHAT_PATH, &chat_body(true, false, true));
    assert!(stream.contains("tool_calls"), "{stream}");
    assert!(
        stream.contains("\"finish_reason\":\"tool_calls\""),
        "{stream}"
    );
    s.post("/__admin/responses", tc);
    let (_, body) = s.post(CHAT_PATH, &chat_body(true, false, false));
    let v = json(&body);
    assert_eq!(
        v["choices"][0]["message"]["tool_calls"][0]["function"]["name"],
        "read"
    );
    assert_eq!(v["choices"][0]["finish_reason"], "tool_calls");
}


#[test]
fn context_window_reports_usage_derived_from_request() {
    let s = Server::spawn(&["--context-window", "1000000"]);
    s.post("/__admin/responses", "{\"content\":\"ok\"}");
    let content = "x".repeat(400);
    let (status, body) = s.post(CHAT_PATH, &sized_chat_body(&content));
    assert_eq!(status, 200, "{body}");
    let usage = &json(&body)["usage"];
    let expected = derived_prompt(&content, 4);
    assert_eq!(usage["prompt_tokens"], expected, "{body}");
    assert_eq!(
        usage["total_tokens"].as_u64().unwrap(),
        expected + usage["completion_tokens"].as_u64().unwrap(),
    );
}

#[test]
fn context_window_smaller_request_reports_smaller_usage() {
    let s = Server::spawn(&["--context-window", "1000000"]);
    s.post("/__admin/responses", "[{\"content\":\"a\"},{\"content\":\"b\"}]");
    let (_, big) = s.post(CHAT_PATH, &sized_chat_body(&"x".repeat(4000)));
    let (_, small) = s.post(CHAT_PATH, &sized_chat_body("x"));
    let big_prompt = json(&big)["usage"]["prompt_tokens"].as_u64().unwrap();
    let small_prompt = json(&small)["usage"]["prompt_tokens"].as_u64().unwrap();
    assert!(big_prompt > small_prompt, "big {big_prompt} small {small_prompt}");
}

#[test]
fn context_window_rejects_oversized_request_without_consuming() {
    let s = Server::spawn(&["--context-window", "5"]);
    s.post("/__admin/responses", "{\"content\":\"unconsumed\"}");
    assert_eq!(s.pending(), 1);
    let (status, body) = s.post(CHAT_PATH, &sized_chat_body(&"x".repeat(100)));
    assert_eq!(status, 400, "{body}");
    assert_eq!(json(&body)["error"]["code"], "context_length_exceeded");
    assert_eq!(s.pending(), 1, "an overflowing request must not consume a spec");
}

#[test]
fn context_window_serves_request_under_the_window() {
    let s = Server::spawn(&["--context-window", "1000000"]);
    s.post("/__admin/responses", "{\"content\":\"served\"}");
    let (status, body) = s.post(CHAT_PATH, &sized_chat_body("small"));
    assert_eq!(status, 200, "{body}");
    assert_eq!(json(&body)["choices"][0]["message"]["content"], "served");
    assert_eq!(s.pending(), 0);
}

#[test]
fn chars_per_token_scales_the_derivation() {
    let s = Server::spawn(&["--context-window", "1000000", "--chars-per-token", "2"]);
    s.post("/__admin/responses", "{\"content\":\"ok\"}");
    let content = "x".repeat(400);
    let (_, body) = s.post(CHAT_PATH, &sized_chat_body(&content));
    assert_eq!(json(&body)["usage"]["prompt_tokens"], derived_prompt(&content, 2));
}

#[test]
fn context_window_off_by_default() {
    let s = Server::spawn(&[]);
    s.post(
        "/__admin/responses",
        "{\"content\":\"ok\",\"usage\":{\"prompt_tokens\":7,\"completion_tokens\":3,\"total_tokens\":10}}",
    );
    let (status, body) = s.post(CHAT_PATH, &sized_chat_body(&"x".repeat(10000)));
    assert_eq!(status, 200, "{body}");
    assert_eq!(json(&body)["usage"]["prompt_tokens"], 7);
}

#[test]
fn context_window_settable_and_clearable_via_admin() {
    let s = Server::spawn(&[]);
    s.post("/__admin/behavior", "{\"context_window\":123,\"chars_per_token\":2}");
    let (_, body) = s.get("/__admin/behavior");
    assert_eq!(json(&body)["context_window"], 123);
    assert_eq!(json(&body)["chars_per_token"], 2);
    s.post("/__admin/behavior", "{\"context_window\":null}");
    let (_, body) = s.get("/__admin/behavior");
    assert!(json(&body)["context_window"].is_null(), "{body}");
}

const LLAMASWAP_MODELS: &str = "[{\"id\":\"qwen3.6-27b:Q8_0\",\"meta\":{\"llamaswap\":{\"aliases\":[\"llm-1\"],\"modsi\":\"text,image\",\"modso\":\"text\"}}},{\"id\":\"plain-model\"}]";

#[test]
fn models_keep_caller_supplied_metadata() {
    let s = Server::spawn(&[]);
    assert_eq!(s.req("PUT", "/__admin/models", LLAMASWAP_MODELS).0, 200);
    let (_, body) = s.get("/v1/models");
    let data = json(&body)["data"].clone();
    assert_eq!(data[0]["meta"]["llamaswap"]["modso"], "text");
    assert_eq!(data[0]["meta"]["llamaswap"]["aliases"][0], "llm-1");
    assert_eq!(data[0]["object"], "model");
    assert_eq!(data[1]["id"], "plain-model");
    assert_eq!(data[1]["object"], "model");
}

#[test]
fn models_from_json_flag() {
    let s = Server::spawn(&["--models-json", LLAMASWAP_MODELS]);
    let (_, body) = s.get("/v1/models");
    assert_eq!(json(&body)["data"][0]["id"], "qwen3.6-27b:Q8_0");
}

#[test]
fn alias_lookup_requires_llamaswap() {
    let s = Server::spawn(&[]);
    s.req("PUT", "/__admin/models", LLAMASWAP_MODELS);
    assert_eq!(s.get("/v1/models/qwen3.6-27b:Q8_0").0, 200);
    assert_eq!(s.get("/v1/models/llm-1").0, 404);

    s.post("/__admin/behavior", "{\"llamaswap\":true}");
    let (status, body) = s.get("/v1/models/llm-1");
    assert_eq!(status, 200);
    assert_eq!(json(&body)["id"], "qwen3.6-27b:Q8_0");
}

#[test]
fn upstream_routes_require_llamaswap() {
    let s = Server::spawn(&[]);
    let path = "/upstream/fake-model/v1/chat/completions";
    assert_eq!(s.post(path, &chat_body(false, false, true)).0, 404);

    s.post("/__admin/behavior", "{\"llamaswap\":true}");
    let (status, body) = s.post(path, &chat_body(false, false, true));
    assert_eq!(status, 200);
    assert_eq!(body, FALLBACK_SSE);
}

#[test]
fn upstream_flag_enables_every_endpoint_family() {
    let s = Server::spawn(&["--llamaswap"]);
    assert_eq!(s.post("/upstream/m/v1/audio/speech", "{}").0, 200);
    assert_eq!(s.post("/upstream/m/v1/images/generations", "{}").0, 200);
    assert_eq!(s.get("/upstream/m/v1/audio/voices").0, 200);
}

#[test]
fn images_return_decodable_png() {
    let s = Server::spawn(&[]);
    let (status, body) = s.post(IMAGES_PATH, "{\"prompt\":\"a cat\"}");
    assert_eq!(status, 200);
    let data = json(&body)["data"].clone();
    assert_eq!(data.as_array().unwrap().len(), 1);
    let b64 = data[0]["b64_json"].as_str().unwrap().to_string();
    let bytes = b64_decode(&b64);
    assert_eq!(&bytes[..8], b"\x89PNG\r\n\x1a\n", "not a png header");
    assert!(bytes.ends_with(b"IEND\xae\x42\x60\x82"), "truncated png");
}

#[test]
fn images_honor_n_and_url_format() {
    let s = Server::spawn(&[]);
    let (_, body) = s.post(IMAGES_PATH, "{\"prompt\":\"x\",\"n\":3}");
    assert_eq!(json(&body)["data"].as_array().unwrap().len(), 3);

    let (_, body) = s.post(IMAGES_PATH, "{\"prompt\":\"x\",\"response_format\":\"url\"}");
    let url = json(&body)["data"][0]["url"].as_str().unwrap().to_string();
    assert!(url.starts_with("data:image/png;base64,"), "{url}");
}

#[test]
fn voice_clone_echoes_the_requested_name() {
    let s = Server::spawn(&[]);
    let body = "--X\r\nContent-Disposition: form-data; name=\"name\"\r\n\r\nnarrator\r\n--X\r\nContent-Disposition: form-data; name=\"audio_sample\"; filename=\"a.wav\"\r\n\r\nRIFFdata\r\n--X--\r\n";
    let (status, resp) = s.post(VOICES_PATH, body);
    assert_eq!(status, 200);
    assert_eq!(json(&resp)["id"], "narrator");
    assert_eq!(json(&resp)["object"], "voice");
}

#[test]
fn voice_clone_falls_back_to_a_default_name() {
    let s = Server::spawn(&[]);
    let (_, resp) = s.post(VOICES_PATH, "--X\r\nno fields here\r\n--X--\r\n");
    assert_eq!(json(&resp)["id"], "cloned-voice");
}

#[test]
fn speech_with_a_cloned_voice_is_gated_on_consent() {
    let s = Server::spawn(&[FLAG_REQUIRE_VOICE_CONSENT]);
    let (status, body) = s.post(SPEECH_PATH, r#"{"input":"hi","voice":"narrator"}"#);
    assert_eq!(status, 400);
    assert_eq!(json(&body)["error"]["code"], "consent_required");
}

#[test]
fn speech_with_a_cloned_voice_passes_with_consent() {
    let s = Server::spawn(&[FLAG_REQUIRE_VOICE_CONSENT]);
    let body = r#"{"input":"hi","voice":"narrator","consent_attestation":"i hold the rights"}"#;
    let (status, _) = s.post(SPEECH_PATH, body);
    assert_eq!(status, 200);
}

#[test]
fn speech_with_a_preset_voice_is_never_gated() {
    let s = Server::spawn(&[FLAG_REQUIRE_VOICE_CONSENT]);
    let body = format!(r#"{{"input":"hi","voice":"{DEFAULT_VOICE}"}}"#);
    assert_eq!(s.post(SPEECH_PATH, &body).0, 200);
    assert_eq!(s.post(SPEECH_PATH, r#"{"input":"hi"}"#).0, 200);
}

#[test]
fn speech_consent_gate_is_off_by_default() {
    let s = Server::spawn(&[]);
    assert_eq!(s.post(SPEECH_PATH, r#"{"input":"hi","voice":"narrator"}"#).0, 200);
}

#[test]
fn voice_registry_lists_voices() {
    let s = Server::spawn(&[]);
    let (status, body) = s.get(REGISTRY_VOICES_PATH);
    assert_eq!(status, 200);
    assert!(body.contains("alloy"), "{body}");
}

fn voice_upload_body(name: &str) -> String {
    format!(
        "--X\r\nContent-Disposition: form-data; name=\"name\"\r\n\r\n{name}\r\n\
         --X\r\nContent-Disposition: form-data; name=\"consent_attestation\"\r\n\r\ni hold the rights\r\n\
         --X\r\nContent-Disposition: form-data; name=\"voice\"; filename=\"a.wav\"\r\n\r\n\
         RIFFdata\r\n--X--\r\n"
    )
}

#[test]
fn voice_registry_upload_returns_the_stored_voice() {
    let s = Server::spawn(&[]);
    let (status, resp) = s.post(REGISTRY_VOICES_PATH, &voice_upload_body("narrator"));
    assert_eq!(status, 201);
    assert_eq!(json(&resp)["name"], "narrator");
    assert_eq!(json(&resp)["format"], "wav");
}

#[test]
fn voice_registry_rejects_a_duplicate_name() {
    let s = Server::spawn(&[]);
    assert_eq!(s.post(REGISTRY_VOICES_PATH, &voice_upload_body("narrator")).0, 201);
    let (status, resp) = s.post(REGISTRY_VOICES_PATH, &voice_upload_body("narrator"));
    assert_eq!(status, 409);
    assert!(resp.contains("force"), "{resp}");
}

#[test]
fn voice_registry_force_overwrites_an_existing_voice() {
    let s = Server::spawn(&[]);
    assert_eq!(s.post(REGISTRY_VOICES_PATH, &voice_upload_body("narrator")).0, 201);
    let path = format!("{REGISTRY_VOICES_PATH}?force=true");
    let (status, resp) = s.post(&path, &voice_upload_body("narrator"));
    assert_eq!(status, 201);
    assert_eq!(json(&resp)["name"], "narrator");
}

#[test]
fn voice_registry_lists_what_was_enrolled() {
    let s = Server::spawn(&[]);
    s.post(REGISTRY_VOICES_PATH, &voice_upload_body("narrator"));
    let (status, body) = s.get(REGISTRY_VOICES_PATH);
    assert_eq!(status, 200);
    assert!(body.contains("narrator"), "{body}");
    assert!(body.contains(DEFAULT_VOICE), "{body}");
}

#[test]
fn voice_registry_upload_requires_consent() {
    let s = Server::spawn(&[]);
    let body = "--X\r\nContent-Disposition: form-data; name=\"name\"\r\n\r\nnarrator\r\n--X\r\nContent-Disposition: form-data; name=\"voice\"; filename=\"a.wav\"\r\n\r\nRIFFdata\r\n--X--\r\n";
    let (status, resp) = s.post(REGISTRY_VOICES_PATH, body);
    assert_eq!(status, 400);
    assert_eq!(json(&resp)["code"], "consent_required");
}

fn b64_decode(s: &str) -> Vec<u8> {
    const ALPHABET: &[u8; 64] = b"ABCDEFGHIJKLMNOPQRSTUVWXYZabcdefghijklmnopqrstuvwxyz0123456789+/";
    let mut acc: u32 = 0;
    let mut bits = 0;
    let mut out = Vec::new();
    for c in s.bytes().filter(|b| *b != b'=') {
        let v = ALPHABET.iter().position(|a| *a == c).expect("bad base64") as u32;
        acc = (acc << 6) | v;
        bits += 6;
        if bits >= 8 {
            bits -= 8;
            out.push((acc >> bits) as u8);
        }
    }
    out
}


fn multipart_audio(bytes: &[u8]) -> Vec<u8> {
    let mut body = Vec::new();
    body.extend_from_slice(
        b"--b\r\nContent-Disposition: form-data; name=\"model\"\r\n\r\nwhisper-1\r\n\
--b\r\nContent-Disposition: form-data; name=\"file\"; filename=\"a.wav\"\r\n\
Content-Type: audio/wav\r\n\r\n",
    );
    body.extend_from_slice(bytes);
    body.extend_from_slice(b"\r\n--b--\r\n");
    body
}

fn pcm(n: usize, amplitude: i16) -> Vec<u8> {
    let mut out = Vec::with_capacity(n * 2);
    for i in 0..n {
        let v = if i % 2 == 0 { amplitude } else { -amplitude };
        out.extend_from_slice(&v.to_le_bytes());
    }
    out
}

#[test]
fn transcription_captures_measure_the_audio() {
    let s = Server::spawn(&[]);
    s.post_bytes(TRANSCRIPTIONS_PATH, &multipart_audio(&pcm(512, 9000)));
    let caps = s.captures();
    let audio = caps
        .iter()
        .find(|c| c["path"].as_str() == Some(TRANSCRIPTIONS_PATH))
        .map(|c| c["audio"].clone())
        .expect("a transcription capture");
    assert!(audio.is_object(), "no audio measurement: {audio}");
    assert!(audio["samples"].as_u64().unwrap_or(0) > 0, "no samples: {audio}");
    assert!(audio["peak"].as_u64().unwrap_or(0) > 1000, "not loud: {audio}");
    assert_eq!(audio["silent"].as_bool(), Some(false), "loud audio read as silent");
}

#[test]
fn silence_is_reported_as_silent() {
    let s = Server::spawn(&[]);
    s.post_bytes(TRANSCRIPTIONS_PATH, &multipart_audio(&pcm(512, 0)));
    let caps = s.captures();
    let audio = caps
        .iter()
        .find(|c| c["path"].as_str() == Some(TRANSCRIPTIONS_PATH))
        .map(|c| c["audio"].clone())
        .expect("a transcription capture");
    assert_eq!(audio["silent"].as_bool(), Some(true), "silence read as sound: {audio}");
    assert_eq!(audio["peak"].as_u64(), Some(0), "silence has a peak: {audio}");
}

#[test]
fn silence_still_transcribes_by_default() {
    let s = Server::spawn(&[]);
    let (status, body) = s.post_bytes(TRANSCRIPTIONS_PATH, &multipart_audio(&pcm(512, 0)));
    assert_eq!(status, 200);
    assert_eq!(json(&body)["text"], "this is a test transcription");
}

#[test]
fn reject_silent_audio_refuses_silence() {
    let s = Server::spawn(&["--reject-silent-audio"]);
    let (status, body) = s.post_bytes(TRANSCRIPTIONS_PATH, &multipart_audio(&pcm(512, 0)));
    assert_eq!(status, 400, "silence was accepted: {body}");
    assert!(
        json(&body)["error"]["message"].as_str().unwrap_or("").contains("silent"),
        "the error does not say why: {body}"
    );
}

#[test]
fn reject_silent_audio_still_accepts_speech() {
    let s = Server::spawn(&["--reject-silent-audio"]);
    let (status, body) = s.post_bytes(TRANSCRIPTIONS_PATH, &multipart_audio(&pcm(512, 9000)));
    assert_eq!(status, 200, "real audio was rejected: {body}");
    assert_eq!(json(&body)["text"], "this is a test transcription");
}

#[test]
fn a_body_with_no_audio_is_not_measured() {
    let s = Server::spawn(&[]);
    let (status, _) = s.post(TRANSCRIPTIONS_PATH, "blob");
    assert_eq!(status, 200);
    let caps = s.captures();
    let cap = caps
        .iter()
        .find(|c| c["path"].as_str() == Some(TRANSCRIPTIONS_PATH))
        .expect("a capture");
    assert!(cap["audio"].is_null(), "measured audio that was not there: {cap}");
}

