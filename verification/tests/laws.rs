//! What holds of the library as a whole, on concrete values.

use fake_openai::behavior::{should_stall, token_count, Behavior};
use fake_openai::codec::{parse_text, to_text, to_value};
use fake_openai::config::{normalize_model, parse_args, Config};
use fake_openai::handlers::{b64, Action, Stage};
use fake_openai::json::Json;
use fake_openai::response::{parse_request, Body, FrameReader, HttpResponse, ParsedRequest, Pull};
use fake_openai::responses::ResponseSpec;
use fake_openai::router::Router;
use fake_openai::state::State;
use serde_json::Value;

const CHAT: &str = "/v1/chat/completions";

fn j(s: &str) -> Json {
    match parse_text(s) {
        Ok(v) => v,
        Err(e) => panic!("{e}: {s}"),
    }
}

fn value(s: &str) -> Value {
    serde_json::from_str(s).unwrap()
}

fn config(list: &[&str]) -> Config {
    match parse_args(list.iter().map(|a| a.to_string()).collect()) {
        Ok(c) => c,
        Err(e) => panic!("{e}"),
    }
}

fn request(method: &str, path: &str, body: &str) -> ParsedRequest {
    parse_request(method.to_string(), path.to_string(), &[], body.as_bytes().to_vec())
}

fn bytes(r: HttpResponse) -> Vec<u8> {
    match r.body {
        Body::Buffered(b) => b,
        Body::Streamed { frames, .. } => frames.into_iter().flat_map(|f| f.data).collect(),
    }
}

struct Server {
    state: State,
    router: Router,
}

impl Server {
    fn start(list: &[&str]) -> Server {
        Server {
            state: State::from_config(&config(list), None, Vec::new()),
            router: Router::new(),
        }
    }

    // Status, body, and how many seconds the request was stalled.
    fn call(&mut self, method: &str, path: &str, body: &str) -> (u16, String, u64) {
        let req = request(method, path, body);
        let mut stage = Stage::Arrived { at_ms: 5, rms: Json::Null };
        let mut stalled = 0;
        for _ in 0..3 {
            match self.router.route(&mut self.state, &req, stage) {
                Action::Respond { response, .. } => {
                    let status = response.status;
                    return (status, String::from_utf8_lossy(&bytes(response)).into_owned(), stalled);
                }
                Action::Wait { seconds, next, .. } => {
                    stalled += seconds;
                    stage = next;
                }
                Action::Fail => panic!("no response"),
            }
        }
        panic!("never answered")
    }

    fn captures(&self) -> Vec<Value> {
        self.state.captures_snapshot().iter().map(to_value).collect()
    }

    fn settings(&self) -> String {
        format!(
            "{} {} {}",
            to_text(&self.state.behavior_value()),
            to_text(&self.state.default_response_value()),
            self.state.models_snapshot().iter().map(to_text).collect::<Vec<_>>().join(",")
        )
    }
}

#[test]
fn responses_come_in_the_order_they_were_programmed() {
    let mut s = Server::start(&[]);
    s.call("POST", "/__admin/responses", "[{\"content\":\"r0\"},{\"content\":\"r1\"}]");
    s.call("POST", "/__admin/responses", "{\"content\":\"r2\"}");
    for i in 0..3 {
        let (_, body, _) = s.call("POST", CHAT, "{\"stream\":false}");
        assert_eq!(value(&body)["choices"][0]["message"]["content"], format!("r{i}"));
        assert_eq!(s.state.pending(), 2 - i);
    }
}

#[test]
fn refusals_change_nothing_but_the_captures() {
    let mut s = Server::start(&["--validate-chat"]);
    s.call("POST", "/__admin/responses", "{\"content\":\"kept\"}");
    let before = s.settings();
    let (status, _, _) = s.call("POST", CHAT, "{}");
    assert_eq!(status, 401);
    assert_eq!(s.state.pending(), 1);
    assert_eq!(s.settings(), before);
    assert_eq!(s.captures().len(), 1);
}

#[test]
fn every_request_is_captured_once_whatever_its_answer() {
    let mut s = Server::start(&["--stall-first-with-tools"]);
    let calls = [
        ("POST", CHAT, "{\"tools\":[1]}"),
        ("GET", "/nowhere?x=1", ""),
        ("POST", "/v1/audio/speech", "{}"),
        ("GET", "/upstream/m/v1/models", ""),
        ("DELETE", "/v1/models", "7"),
    ];
    for (method, path, body) in calls {
        s.call(method, path, body);
    }
    let paths: Vec<String> =
        s.captures().iter().map(|c| c["path"].as_str().unwrap().to_string()).collect();
    assert_eq!(paths, calls.iter().map(|c| c.1.to_string()).collect::<Vec<_>>());
    let c = &s.captures()[4];
    assert_eq!(*c, value("{\"path\":\"/v1/models\",\"headers\":{},\"body\":7,\"audio\":null,\"at_ms\":5}"));
}

#[test]
fn the_control_plane_is_neither_captured_nor_delayed() {
    let mut s = Server::start(&["--connect-delay-ms", "9"]);
    for sub in ["/health", "/captures", "/nope", "/behavior?x=1", ""] {
        let req = request("GET", &format!("/__admin{sub}"), "");
        let stage = Stage::Arrived { at_ms: 1, rms: Json::Null };
        match s.router.route(&mut s.state, &req, stage) {
            Action::Respond { delay_ms, .. } => assert_eq!(delay_ms, 0),
            _ => panic!("delayed"),
        }
    }
    assert!(s.captures().is_empty());
}

#[test]
fn only_the_control_plane_changes_the_settings() {
    let mut s = Server::start(&[]);
    let before = s.settings();
    for path in [CHAT, "/v1/audio/speech", "/v1/voices", "/v1/images/generations", "/v1/behavior"] {
        s.call("POST", path, "{\"llamaswap\":true,\"models\":[\"x\"],\"content\":\"d\"}");
    }
    assert_eq!(s.settings(), before);
    s.call("POST", "/__admin/behavior", "{\"llamaswap\":true}");
    assert_ne!(s.settings(), before);
}

#[test]
fn the_stall_fires_once_until_a_reset() {
    let mut s = Server::start(&["--stall-first-with-tools", "--stall-seconds", "3"]);
    let turn = "{\"tools\":[1],\"messages\":[]}";
    let beat = "{\"tools\":[1],\"messages\":[{\"content\":\"[heartbeat]\"}]}";
    assert_eq!(s.call("POST", CHAT, beat).2, 0);
    assert_eq!(s.call("POST", CHAT, turn).2, 3);
    assert_eq!(s.call("POST", CHAT, turn).2, 0);
    s.call("POST", "/__admin/reset", "");
    assert_eq!(s.call("POST", CHAT, turn).2, 3);
    let mut b = Behavior::default();
    b.stall_first_with_tools = true;
    let mut latch = true;
    assert!(!should_stall(&b, &mut latch, CHAT, &j(turn)));
}

#[test]
fn what_is_consumed_after_a_stall_is_taken_then() {
    let mut s = Server::start(&["--stall-first-with-tools"]);
    s.call("POST", "/__admin/responses", "{\"content\":\"early\"}");
    let req = request("POST", CHAT, "{\"tools\":[1],\"stream\":false}");
    let held = match s.router.route(&mut s.state, &req, Stage::Connected) {
        Action::Wait { next, .. } => next,
        _ => panic!("not stalled"),
    };
    assert_eq!(s.state.pending(), 1);
    s.call("PUT", "/__admin/responses", "{\"content\":\"late\"}");
    match s.router.route(&mut s.state, &req, held) {
        Action::Respond { response, .. } => {
            assert!(String::from_utf8(bytes(response)).unwrap().contains("late"))
        }
        _ => panic!("no response"),
    }
    assert_eq!(s.state.pending(), 0);
}

#[test]
fn saying_it_twice_is_saying_it_once() {
    let mut s = Server::start(&[]);
    let body = "{\"stall_seconds\":8,\"context_window\":9,\"transcript\":\"t\"}";
    let (_, once, _) = s.call("POST", "/__admin/behavior", body);
    let (_, twice, _) = s.call("POST", "/__admin/behavior", body);
    assert_eq!(once, twice);
    // What is shown can be said again.
    let mut t = Server::start(&["--llamaswap", "--stall-seconds", "1"]);
    t.call("POST", "/__admin/behavior", &once);
    assert_eq!(to_text(&t.state.behavior_value()), to_text(&s.state.behavior_value()));
}

#[test]
fn replacing_is_clearing_and_appending() {
    let specs = "[{\"content\":\"a\"},{\"content\":\"b\"}]";
    let mut s = Server::start(&[]);
    s.call("POST", "/__admin/responses", "{\"content\":\"old\"}");
    s.call("PUT", "/__admin/responses", specs);
    let mut t = Server::start(&[]);
    t.call("POST", "/__admin/responses", "{\"content\":\"old\"}");
    t.call("DELETE", "/__admin/responses", "");
    t.call("POST", "/__admin/responses", specs);
    let list = |s: &mut Server| s.call("GET", "/__admin/responses", "").1;
    assert_eq!(list(&mut s), list(&mut t));
    // What is listed can be programmed again.
    let shown = value(&list(&mut s))["responses"].to_string();
    let mut u = Server::start(&[]);
    u.call("PUT", "/__admin/responses", &shown);
    assert_eq!(list(&mut u), list(&mut s));
}

#[test]
fn reading_changes_nothing() {
    let mut s = Server::start(&[]);
    s.call("POST", "/__admin/responses", "{}");
    s.call("POST", CHAT, "{}");
    let before = s.settings();
    for sub in ["/health", "/captures", "/responses", "/default", "/behavior", "/models"] {
        assert_eq!(s.call("GET", &format!("/__admin{sub}"), "").0, 200);
    }
    assert_eq!(s.settings(), before);
    assert_eq!((s.captures().len(), s.state.pending()), (1, 0));
}

#[test]
fn gateway_paths_lead_to_the_same_family() {
    let mut s = Server::start(&["--llamaswap", "--models", "a,b"]);
    let (status, one, _) = s.call("GET", "/upstream/any/v1/models/a", "");
    assert_eq!((status, &value(&one)["id"]), (200, &Value::from("a")));
    assert_eq!(one, s.call("GET", "/v1/models/a", "").1);
    assert_eq!(s.call("GET", "/upstream/a/b/v1/voices?x", "").0, 200);
    assert_eq!(s.call("GET", "/upstream/a/v2/models", "").0, 404);
    s.call("POST", "/__admin/behavior", "{\"llamaswap\":false}");
    let (status, body, _) = s.call("GET", "/upstream/any/v1/models/a", "");
    assert_eq!(status, 404);
    assert_eq!(value(&body)["error"], "not found: GET /upstream/any/v1/models/a");
}

#[test]
fn gateway_and_plain_paths_are_served_alike() {
    let enrol = "name=\"name\"\r\n\r\nv\r\nname=\"consent_attestation\"\r\n\r\nyes\r\n";
    let calls = [
        ("POST", "chat/completions", "{\"tools\":[1],\"stream\":false}"),
        ("POST", "chat/completions?x=1", "{\"stream\":false}"),
        ("POST", "audio/speech", "{}"),
        ("GET", "models/a?y", ""),
        ("POST", "voices", enrol),
        ("POST", "voices", enrol),
        ("POST", "voices?force=true", enrol),
        ("GET", "nowhere", ""),
    ];
    let start = || {
        let mut s = Server::start(&[
            "--llamaswap", "--models", "a", "--stall-first-with-tools", "--consume-only-with-tools",
        ]);
        s.call("POST", "/__admin/responses", "[{\"content\":\"p\"},{\"content\":\"q\"}]");
        s
    };
    let (mut gateway, mut plain) = (start(), start());
    for (method, tail, body) in calls {
        let a = gateway.call(method, &format!("/upstream/some-model/v1/{tail}"), body);
        let b = plain.call(method, &format!("/v1/{tail}"), body);
        assert_eq!(a, b, "{tail}");
        assert_eq!(gateway.state.pending(), plain.state.pending());
        assert_eq!(gateway.state.voice_names(), plain.state.voice_names());
    }
    // A name that holds the mark forces the enrolment.
    assert_eq!(gateway.call("POST", "/upstream/force=true/v1/voices", enrol).0, 201);
    assert_eq!(plain.call("POST", "/v1/voices", enrol).0, 409);
}

#[test]
fn repeated_headers_are_captured_by_their_last_value() {
    let mut s = Server::start(&[]);
    let headers = vec![
        ("X".to_string(), "1".to_string()),
        ("Y".to_string(), "2".to_string()),
        ("X".to_string(), "3".to_string()),
    ];
    let req = parse_request("GET".to_string(), "/p".to_string(), &headers, Vec::new());
    s.router.route(&mut s.state, &req, Stage::Arrived { at_ms: 1, rms: Json::Null });
    let (_, shown, _) = s.call("GET", "/__admin/captures", "");
    assert_eq!(value(&shown)["captures"][0]["headers"], value("{\"X\":\"3\",\"Y\":\"2\"}"));
}

#[test]
fn unknown_paths_are_told_what_there_is() {
    let mut s = Server::start(&[]);
    let (status, body, _) = s.call("PATCH", "/x?y=1", "");
    assert_eq!(status, 404);
    assert_eq!(
        value(&body),
        value("{\"error\":\"not found: PATCH /x\",\"endpoints\":[\"POST /v1/chat/completions\",\"POST /v1/audio/speech\",\"POST /v1/audio/transcriptions\",\"GET /v1/audio/voices\",\"POST /v1/audio/voices\",\"GET /v1/voices\",\"POST /v1/voices\",\"POST /v1/images/generations\",\"GET /v1/models\",\"GET /v1/models/{id}\",\"GET /__admin/health\",\"GET /__admin/captures\",\"POST /__admin/reset\",\"GET|POST|PUT|DELETE /__admin/responses\",\"GET|PUT|DELETE /__admin/default\",\"GET|POST /__admin/behavior\",\"GET|PUT /__admin/models\"]}")
    );
}

#[test]
fn the_first_model_of_a_name_is_found() {
    let mut s = Server::start(&[]);
    s.call(
        "PUT",
        "/__admin/models",
        "[{\"id\":\"a\",\"n\":1,\"meta\":{\"llamaswap\":{\"aliases\":[\"b\"]}}},{\"id\":\"b\",\"n\":2}]",
    );
    assert_eq!(value(&s.call("GET", "/v1/models/b?q", "").1)["n"], 2);
    s.call("POST", "/__admin/behavior", "{\"llamaswap\":true}");
    assert_eq!(value(&s.call("GET", "/v1/models/b", "").1)["n"], 1);
    let (status, body, _) = s.call("GET", "/v1/models/c", "");
    assert_eq!((status, &value(&body)["error"]), (404, &Value::from("model not found: c")));
}

#[test]
fn models_settle_once() {
    let once = normalize_model(&j("{\"id\":\"a\",\"x\":[1]}")).unwrap();
    let twice = normalize_model(&once).unwrap();
    assert_eq!(to_text(&once), to_text(&twice));
    assert_eq!(once.str_at("id"), Some("a"));
    assert_eq!(to_text(once.get("x").unwrap()), "[1]");
}

#[test]
fn values_stand_inline_or_next() {
    assert_eq!(config(&["--host=h"]).host, config(&["--host", "h"]).host);
    assert_eq!(config(&["--host=a=b"]).host, "a=b");
    assert_eq!(config(&["--port", "1", "--port=2"]).port, 2);
    assert_eq!(config(&["--host", "--stdin"]).host, "--stdin");
}

#[test]
fn tokens_follow_size_and_rate() {
    for rate in [0, 1, 3, 4, 7] {
        for n in 0..50 {
            assert!(token_count(n, rate) <= token_count(n + 1, rate));
            assert!(token_count(n, rate + 1) <= token_count(n, rate));
            let c = rate.max(1);
            assert_eq!(token_count(n, rate), n.div_ceil(c));
        }
    }
}

fn stream(spec: &str) -> Vec<u8> {
    bytes(ResponseSpec::from_value(&j(spec)).render(true))
}

#[test]
fn pacing_and_holding_change_no_byte() {
    let plain = stream("{\"chunks\":[\"a\",\"b\"],\"reasoning\":\"r\"}");
    let paced = stream(
        "{\"chunks\":[\"a\",\"b\"],\"reasoning\":\"r\",\"chunk_delay_ms\":9,\"hang_ms\":8,\"delay_ms\":7}",
    );
    assert_eq!(plain, paced);
}

#[test]
fn a_truncated_stream_lacks_its_ending() {
    let whole = String::from_utf8(stream("{\"chunks\":[\"a\",\"b\"]}")).unwrap();
    let cut = String::from_utf8(stream("{\"chunks\":[\"a\",\"b\"],\"truncate\":true}")).unwrap();
    assert!(whole.starts_with(&cut));
    assert_eq!(whole[cut.len()..].matches("data: ").count(), 2);
    assert!(whole.ends_with("}\n\ndata: [DONE]\n\n"));
    let reason = |l: &str| value(&l[6..])["choices"][0]["finish_reason"].clone();
    assert!(cut.split("\n\n").filter(|l| !l.is_empty()).all(|l| reason(l).is_null()));
    assert_eq!(reason(whole[cut.len()..].split("\n\n").next().unwrap()), "stop");
    let timed = |spec: &str| {
        matches!(ResponseSpec::from_value(&j(spec)).render_sse().body, Body::Streamed { .. })
    };
    assert!(!timed("{\"delay_ms\":1}"));
    assert!(timed("{\"chunk_delay_ms\":1}") && timed("{\"hang_ms\":1}") && timed("{\"truncate\":true}"));
}

#[test]
fn a_stream_carries_the_message() {
    let spec = "{\"chunks\":[\"x\",\"\",\"y\"],\"reasoning_chunks\":[\"p\",\"q\"],\"tool_calls\":[1]}";
    let text = String::from_utf8(stream(spec)).unwrap();
    let mut content = String::new();
    let mut reasoning = String::new();
    for line in text.split("\n\n").filter(|l| l.starts_with("data: {")) {
        let delta = value(&line[6..])["choices"][0]["delta"].clone();
        content.push_str(delta["content"].as_str().unwrap_or(""));
        reasoning.push_str(delta["reasoning_content"].as_str().unwrap_or(""));
    }
    let whole = bytes(ResponseSpec::from_value(&j(spec)).render(false));
    let message = value(&String::from_utf8(whole).unwrap())["choices"][0]["message"].clone();
    assert_eq!(message["content"], content);
    assert_eq!(message["reasoning_content"], reasoning);
    assert_eq!((content.as_str(), reasoning.as_str()), ("xy", "pq"));
}

#[test]
fn errors_come_ahead_of_any_stream() {
    let s = ResponseSpec::from_value(&j("{\"error\":\"e\",\"chunks\":[\"a\"]}"));
    let (a, b) = (s.render(true), s.render(false));
    assert_eq!((a.status, b.status), (400, 400));
    assert_eq!(bytes(a), bytes(b));
}

#[test]
fn a_stream_arrives_whole_in_pieces_of_any_size() {
    let spec = j("{\"chunks\":[\"a\",\"b\",\"c\"],\"chunk_delay_ms\":4,\"hang_ms\":5}");
    let whole = bytes(ResponseSpec::from_value(&spec).render(true));
    for rooms in [vec![1], vec![7], vec![100000], vec![3, 1, 50]] {
        let (frames, hang_ms) = match ResponseSpec::from_value(&spec).render(true).body {
            Body::Streamed { frames, hang_ms } => (frames, hang_ms),
            Body::Buffered(_) => panic!("not timed"),
        };
        let mut reader = FrameReader::new(frames, hang_ms);
        let mut got = Vec::new();
        let mut waited = 0;
        for i in 0.. {
            match reader.pull(rooms[i % rooms.len()]) {
                Pull::Data(b) => got.extend(b),
                Pull::Wait(ms) => waited += ms,
                Pull::End => break,
            }
        }
        assert_eq!(got, whole);
        assert_eq!(waited, 4 + 4 + 5);
    }
}

fn decode(s: &str) -> Vec<u8> {
    let alphabet = "ABCDEFGHIJKLMNOPQRSTUVWXYZabcdefghijklmnopqrstuvwxyz0123456789+/";
    let mut out = Vec::new();
    let (mut acc, mut bits) = (0u32, 0);
    for c in s.chars().filter(|c| *c != '=') {
        acc = (acc << 6) | alphabet.find(c).unwrap() as u32;
        bits += 6;
        if bits >= 8 {
            bits -= 8;
            out.push((acc >> bits) as u8);
        }
    }
    out
}

#[test]
fn base64_gives_the_bytes_back() {
    for n in 0..20usize {
        let data: Vec<u8> = (0..n).map(|i| (i * 83 + 200) as u8).collect();
        let text = b64(&data);
        assert_eq!(decode(&text), data);
        assert_eq!(text.len(), 4 * n.div_ceil(3));
    }
}

#[test]
fn events_carry_the_audio_frame_by_frame() {
    let audio: Vec<u8> = (0..4000usize).map(|i| (i % 253) as u8).collect();
    let mut s = Server {
        state: State::from_config(
            &config(&["--speech-file", "a.pcm"]),
            Some(audio.clone()),
            Vec::new(),
        ),
        router: Router::new(),
    };
    let sse = "{\"stream_format\":\"sse\"}";
    let (_, once, _) = s.call("POST", "/v1/audio/speech", sse);
    let mut got = Vec::new();
    let mut events = 0;
    for line in once.lines().filter(|l| l.starts_with("data: {\"audio\"")) {
        got.extend(decode(value(&line[6..])["audio"].as_str().unwrap()));
        events += 1;
    }
    assert_eq!(got, audio);
    assert_eq!(events, 3);
    s.call("POST", "/__admin/behavior", "{\"speech_frame_delay_ms\":3}");
    assert_eq!(s.call("POST", "/v1/audio/speech", sse).1, once);
}

#[test]
fn a_slip_of_the_built_in_audio_shows() {
    let mut s = Server::start(&[]);
    let req = request("POST", "/v1/audio/speech", "{}");
    let ramp = match s.router.route(&mut s.state, &req, Stage::Connected) {
        Action::Respond { response, .. } => bytes(response),
        _ => panic!("no response"),
    };
    assert_eq!(ramp.len(), 1536);
    for slip in [1, 2, 250, 252, 503] {
        assert!((0..ramp.len() - slip).all(|i| ramp[i] != ramp[i + slip]), "{slip}");
    }
    assert!((0..ramp.len() - 251).all(|i| ramp[i] == ramp[i + 251]));
}

#[test]
fn smaller_requests_count_less_and_fit_more() {
    let mut s = Server::start(&["--context-window", "20"]);
    let body = |n: usize| format!("{{\"stream\":false,\"messages\":[\"{}\"]}}", "x".repeat(n));
    s.call("PUT", "/__admin/default", "{\"content\":\"d\"}");
    let prompt = |s: &mut Server, n: usize| -> Option<u64> {
        let (status, out, _) = s.call("POST", CHAT, &body(n));
        match status {
            200 => value(&out)["usage"]["prompt_tokens"].as_u64(),
            _ => None,
        }
    };
    // Four characters stand around the text.
    assert_eq!(prompt(&mut s, 0), Some(1));
    assert_eq!(prompt(&mut s, 40), Some(11));
    assert_eq!(prompt(&mut s, 76), Some(20));
    assert_eq!(prompt(&mut s, 77), None);
}

#[test]
fn what_a_client_writes_it_reads_back() {
    let mut s = Server::start(&[]);
    let body = "{\"k\":[1,{\"x\":\"\\u0000\\\"\\\\ \\ud83d\\ude00\"},null,true]}";
    s.call("POST", "/anywhere", body);
    let (_, shown, _) = s.call("GET", "/__admin/captures", "");
    assert_eq!(value(&shown)["captures"][0]["body"], value(body));
}
