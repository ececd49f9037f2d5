//! Programmed responses: what a caller scripts, the queue it enters, and how it is
//! rendered into a stream or a single object.

use std::collections::VecDeque;

use vstd::prelude::*;
use vstd::string::*;

use crate::codec::{self, parse_text, to_text};
use crate::config::DEFAULT_MODEL;
use crate::json::{self, copy_opt, list_of_one, list_of_texts, Json, Members, Tree};
use crate::response::{
    self, flatten, Frame, FrameModel, HttpResponse, ResponseModel, CONTENT_TYPE_SSE,
};
use crate::text::{self, copy_texts, join};

verus! {

/// The completion tokens that go with a derived prompt when the spec gives none.
pub const DERIVED_COMPLETION_TOKENS: u64 = 16;

/// A programmed response: fields to render, a raw body, or an error, with its
/// status and its timing.
pub struct ResponseSpec {
    raw_body: Option<String>,
    content_type: Option<String>,
    content: Option<String>,
    reasoning: Option<String>,
    reasoning_chunks: Option<Vec<String>>,
    chunks: Option<Vec<String>>,
    tool_calls: Option<Json>,
    error: Option<Json>,
    finish_reason: Option<String>,
    usage: Option<Json>,
    status: u16,
    delay_ms: u64,
    chunk_delay_ms: u64,
    hang_ms: u64,
    truncate: bool,
    derived_prompt: Option<u64>,
}

/// What a programmed response holds.
#[verifier::ext_equal]
pub struct SpecModel {
    /// The body, returned verbatim.
    pub raw_body: Option<Seq<char>>,
    /// The content type of a raw body.
    pub content_type: Option<Seq<char>>,
    pub content: Option<Seq<char>>,
    pub reasoning: Option<Seq<char>>,
    /// The reasoning, one delta each.
    pub reasoning_chunks: Option<Seq<Seq<char>>>,
    /// The content, one delta each.
    pub chunks: Option<Seq<Seq<char>>>,
    pub tool_calls: Option<Tree>,
    /// The error that is answered in place of all else.
    pub error: Option<Tree>,
    pub finish_reason: Option<Seq<char>>,
    pub usage: Option<Tree>,
    pub status: u16,
    /// The pause ahead of the response.
    pub delay_ms: u64,
    /// The pause ahead of each delta but the first.
    pub chunk_delay_ms: u64,
    /// The hold after the last frame.
    pub hang_ms: u64,
    /// The stream ends without its closing frames.
    pub truncate: bool,
    /// The prompt tokens derived from the request, where they are.
    pub derived_prompt: Option<u64>,
}

/// The texts of an optional list.
pub open spec fn texts_opt(v: Option<Vec<String>>) -> Option<Seq<Seq<char>>> {
    match v {
        Some(c) => Some(text::texts(c@)),
        None => None,
    }
}

impl View for ResponseSpec {
    type V = SpecModel;

    closed spec fn view(&self) -> SpecModel {
        SpecModel {
            raw_body: json::text_opt(self.raw_body),
            content_type: json::text_opt(self.content_type),
            content: json::text_opt(self.content),
            reasoning: json::text_opt(self.reasoning),
            reasoning_chunks: texts_opt(self.reasoning_chunks),
            chunks: texts_opt(self.chunks),
            tool_calls: json::tree_opt(self.tool_calls),
            error: json::tree_opt(self.error),
            finish_reason: json::text_opt(self.finish_reason),
            usage: json::tree_opt(self.usage),
            status: self.status,
            delay_ms: self.delay_ms,
            chunk_delay_ms: self.chunk_delay_ms,
            hang_ms: self.hang_ms,
            truncate: self.truncate,
            derived_prompt: self.derived_prompt,
        }
    }
}

/// An item of a list of strings; what is no string counts as an empty one.
pub open spec fn piece_of(t: Tree) -> Seq<char> {
    match t {
        Tree::Str(s) => s,
        _ => Seq::<char>::empty(),
    }
}

/// A member that is a list of strings.
pub open spec fn pieces_at(t: Tree, key: Seq<char>) -> Option<Seq<Seq<char>>> {
    match t.list_at(key) {
        Some(a) => Some(a.map_values(|x: Tree| piece_of(x))),
        None => None,
    }
}

/// A number or, where there is none, what stands in for it.
pub open spec fn number_or(n: Option<u64>, otherwise: u64) -> u64 {
    match n {
        Some(u) => u,
        None => otherwise,
    }
}

/// The spec that a JSON value describes. A member that is missing, or of another kind
/// than expected, counts as not given; a status keeps its low sixteen bits.
pub open spec fn spec_of(t: Tree) -> SpecModel {
    SpecModel {
        raw_body: t.str_at("raw_body"@),
        content_type: t.str_at("content_type"@),
        content: t.str_at("content"@),
        reasoning: t.str_at("reasoning"@),
        reasoning_chunks: pieces_at(t, "reasoning_chunks"@),
        chunks: pieces_at(t, "chunks"@),
        tool_calls: t.get("tool_calls"@),
        error: t.get("error"@),
        finish_reason: t.str_at("finish_reason"@),
        usage: t.get("usage"@),
        status: (number_or(t.u64_at("status"@), 200) % 0x1_0000) as u16,
        delay_ms: number_or(t.u64_at("delay_ms"@), 0),
        chunk_delay_ms: number_or(t.u64_at("chunk_delay_ms"@), 0),
        hang_ms: number_or(t.u64_at("hang_ms"@), 0),
        truncate: t.bool_at("truncate"@) == Some(true),
        derived_prompt: None,
    }
}

/// A text as a value, where there is one.
pub open spec fn text_value(s: Option<Seq<char>>) -> Option<Tree> {
    match s {
        Some(t) => Some(Tree::Str(t)),
        None => None,
    }
}

/// A list of texts as a value, where there is one.
pub open spec fn texts_value(v: Option<Seq<Seq<char>>>) -> Option<Tree> {
    match v {
        Some(c) => Some(json::text_list(c)),
        None => None,
    }
}

/// The members that are always there.
pub open spec fn timing_members(
    m: Map<Seq<char>, Tree>,
    s: SpecModel,
) -> Map<Seq<char>, Tree> {
    m.insert("status"@, json::num(s.status as u64)).insert(
        "delay_ms"@,
        json::num(s.delay_ms),
    ).insert("chunk_delay_ms"@, json::num(s.chunk_delay_ms)).insert(
        "hang_ms"@,
        json::num(s.hang_ms),
    ).insert("truncate"@, Tree::Bool(s.truncate))
}

/// The members that are there when they were given.
pub open spec fn given_members(s: SpecModel) -> Map<Seq<char>, Tree> {
    let m = Map::<Seq<char>, Tree>::empty();
    let m = json::with_opt(m, "raw_body"@, text_value(s.raw_body));
    let m = json::with_opt(m, "content_type"@, text_value(s.content_type));
    let m = json::with_opt(m, "content"@, text_value(s.content));
    let m = json::with_opt(m, "reasoning"@, text_value(s.reasoning));
    let m = json::with_opt(m, "reasoning_chunks"@, texts_value(s.reasoning_chunks));
    let m = json::with_opt(m, "chunks"@, texts_value(s.chunks));
    let m = json::with_opt(m, "tool_calls"@, s.tool_calls);
    let m = json::with_opt(m, "error"@, s.error);
    let m = json::with_opt(m, "finish_reason"@, text_value(s.finish_reason));
    json::with_opt(m, "usage"@, s.usage)
}

/// The JSON value that describes a spec.
pub open spec fn spec_tree(s: SpecModel) -> Tree {
    Tree::Obj(timing_members(given_members(s), s))
}

/// The text of a member, as a string of its own.
fn str_field(v: &Json, key: &str) -> (r: Option<String>)
    ensures
        json::text_opt(r) == v@.str_at(key@),
{
    match v.str_at(key) {
        Some(s) => Some(s.to_owned()),
        None => None,
    }
}

/// The number of a member, or zero.
fn u64_field(v: &Json, key: &str) -> (r: u64)
    ensures
        r == number_or(v@.u64_at(key@), 0),
{
    match v.u64_at(key) {
        Some(u) => u,
        None => 0,
    }
}

/// A member that is a list of strings.
fn string_vec(v: &Json, key: &str) -> (r: Option<Vec<String>>)
    ensures
        texts_opt(r) == pieces_at(v@, key@),
{
    match v.list_at(key) {
        Some(a) => {
            let mut out: Vec<String> = Vec::new();
            let mut i: usize = 0;
            proof {
                json::lemma_trees(a@);
            }
            while i < a.len()
                invariant
                    i <= a.len(),
                    out.len() == i,
                    forall|j: int|
                        0 <= j < i ==> (#[trigger] out@[j])@ == piece_of(json::tree(a@[j])),
                decreases a.len() - i,
            {
                let s = match a[i].as_str() {
                    Some(t) => t.to_owned(),
                    None => String::new(),
                };
                assert(s@ =~= piece_of(a@[i as int]@));
                out.push(s);
                i += 1;
            }
            assert(text::texts(out@) =~= json::trees(a@).map_values(|x: Tree| piece_of(x)));
            Some(out)
        },
        None => None,
    }
}

/// A text as a value, where there is one.
fn text_json(s: &Option<String>) -> (r: Option<Json>)
    ensures
        json::tree_opt(r) == text_value(json::text_opt(*s)),
{
    match s {
        Some(t) => Some(Json::text(t.as_str())),
        None => None,
    }
}

/// A list of texts as a value, where there is one.
fn texts_json(v: &Option<Vec<String>>) -> (r: Option<Json>)
    ensures
        json::tree_opt(r) == texts_value(texts_opt(*v)),
{
    match v {
        Some(c) => Some(list_of_texts(c.as_slice())),
        None => None,
    }
}

/// A copy of an optional list of texts.
fn copy_pieces(v: &Option<Vec<String>>) -> (r: Option<Vec<String>>)
    ensures
        texts_opt(r) == texts_opt(*v),
{
    match v {
        Some(c) => Some(copy_texts(c)),
        None => None,
    }
}

/// The names of a spec's members are distinct.
proof fn lemma_spec_keys()
    ensures
        "raw_body"@.len() == 8,
        "content_type"@.len() == 12,
        "content"@.len() == 7,
        "reasoning"@.len() == 9,
        "reasoning_chunks"@.len() == 16,
        "chunks"@.len() == 6,
        "tool_calls"@.len() == 10,
        "error"@.len() == 5,
        "finish_reason"@.len() == 13,
        "usage"@.len() == 5,
        "status"@.len() == 6,
        "delay_ms"@.len() == 8,
        "chunk_delay_ms"@.len() == 14,
        "hang_ms"@.len() == 7,
        "truncate"@.len() == 8,
        "raw_body"@ != "delay_ms"@,
        "raw_body"@ != "truncate"@,
        "delay_ms"@ != "truncate"@,
        "content"@ != "hang_ms"@,
        "chunks"@ != "status"@,
        "error"@ != "usage"@,
{
    reveal_strlit("raw_body");
    reveal_strlit("content_type");
    reveal_strlit("content");
    reveal_strlit("reasoning");
    reveal_strlit("reasoning_chunks");
    reveal_strlit("chunks");
    reveal_strlit("tool_calls");
    reveal_strlit("error");
    reveal_strlit("finish_reason");
    reveal_strlit("usage");
    reveal_strlit("status");
    reveal_strlit("delay_ms");
    reveal_strlit("chunk_delay_ms");
    reveal_strlit("hang_ms");
    reveal_strlit("truncate");
    assert("raw_body"@[0] == 'r' && "delay_ms"@[0] == 'd' && "truncate"@[0] == 't');
    assert("content"@[0] == 'c' && "hang_ms"@[0] == 'h');
    assert("chunks"@[0] == 'c' && "status"@[0] == 's');
    assert("error"@[0] == 'e' && "usage"@[0] == 'u');
}

/// A list of texts is read back as it was written.
proof fn lemma_texts_back(v: Seq<Seq<char>>)
    ensures
        v.map_values(|s: Seq<char>| Tree::Str(s)).map_values(|x: Tree| piece_of(x)) == v,
{
    assert(v.map_values(|s: Seq<char>| Tree::Str(s)).map_values(|x: Tree| piece_of(x)) =~= v);
}

/// Reading what describes a spec gives the spec, but for the prompt of one request.
proof fn lemma_spec_back(s: SpecModel)
    requires
        json::num(s.status as u64).as_u64() == Some(s.status as u64),
        json::num(s.delay_ms).as_u64() == Some(s.delay_ms),
        json::num(s.chunk_delay_ms).as_u64() == Some(s.chunk_delay_ms),
        json::num(s.hang_ms).as_u64() == Some(s.hang_ms),
    ensures
        spec_of(spec_tree(s)) == (SpecModel { derived_prompt: None, ..s }),
{
    lemma_spec_keys();
    if s.chunks is Some {
        lemma_texts_back(s.chunks->0);
    }
    if s.reasoning_chunks is Some {
        lemma_texts_back(s.reasoning_chunks->0);
    }
    let back = spec_of(spec_tree(s));
    assert(back.status == s.status);
    assert(back.reasoning_chunks == s.reasoning_chunks);
    assert(back.chunks == s.chunks);
}

impl ResponseSpec {
    /// The spec that a JSON value describes.
    pub fn from_value(v: &Json) -> (r: ResponseSpec)
        ensures
            r@ == spec_of(v@),
    {
        let status: u64 = match v.u64_at("status") {
            Some(u) => u,
            None => 200,
        };
        let truncate = match v.bool_at("truncate") {
            Some(b) => b,
            None => false,
        };
        let tool_calls = match v.get("tool_calls") {
            Some(t) => Some(t.copy()),
            None => None,
        };
        let error = match v.get("error") {
            Some(t) => Some(t.copy()),
            None => None,
        };
        let usage = match v.get("usage") {
            Some(t) => Some(t.copy()),
            None => None,
        };
        ResponseSpec {
            raw_body: str_field(v, "raw_body"),
            content_type: str_field(v, "content_type"),
            content: str_field(v, "content"),
            reasoning: str_field(v, "reasoning"),
            reasoning_chunks: string_vec(v, "reasoning_chunks"),
            chunks: string_vec(v, "chunks"),
            tool_calls,
            error,
            finish_reason: str_field(v, "finish_reason"),
            usage,
            status: (status % 0x1_0000) as u16,
            delay_ms: u64_field(v, "delay_ms"),
            chunk_delay_ms: u64_field(v, "chunk_delay_ms"),
            hang_ms: u64_field(v, "hang_ms"),
            truncate,
            derived_prompt: None,
        }
    }

    /// The same spec once more.
    pub fn copy(&self) -> (r: ResponseSpec)
        ensures
            r@ == self@,
    {
        ResponseSpec {
            raw_body: self.raw_body.clone(),
            content_type: self.content_type.clone(),
            content: self.content.clone(),
            reasoning: self.reasoning.clone(),
            reasoning_chunks: copy_pieces(&self.reasoning_chunks),
            chunks: copy_pieces(&self.chunks),
            tool_calls: copy_opt(&self.tool_calls),
            error: copy_opt(&self.error),
            finish_reason: self.finish_reason.clone(),
            usage: copy_opt(&self.usage),
            status: self.status,
            delay_ms: self.delay_ms,
            chunk_delay_ms: self.chunk_delay_ms,
            hang_ms: self.hang_ms,
            truncate: self.truncate,
            derived_prompt: self.derived_prompt,
        }
    }

    /// The same spec, reporting a prompt that was derived from the request.
    pub fn with_derived_prompt(self, prompt_tokens: u64) -> (r: ResponseSpec)
        ensures
            r@ == (SpecModel { derived_prompt: Some(prompt_tokens), ..self@ }),
    {
        let mut s = self;
        s.derived_prompt = Some(prompt_tokens);
        s
    }

    /// The JSON value that describes the spec. Reading it gives the spec again.
    pub fn to_value(&self) -> (r: Json)
        ensures
            r@ == spec_tree(self@),
            spec_of(r@) == (SpecModel { derived_prompt: None, ..self@ }),
    {
        let mut m = Members::new();
        m.set_opt("raw_body", text_json(&self.raw_body));
        m.set_opt("content_type", text_json(&self.content_type));
        m.set_opt("content", text_json(&self.content));
        m.set_opt("reasoning", text_json(&self.reasoning));
        m.set_opt("reasoning_chunks", texts_json(&self.reasoning_chunks));
        m.set_opt("chunks", texts_json(&self.chunks));
        m.set_opt("tool_calls", copy_opt(&self.tool_calls));
        m.set_opt("error", copy_opt(&self.error));
        m.set_opt("finish_reason", text_json(&self.finish_reason));
        m.set_opt("usage", copy_opt(&self.usage));
        m.set("status", Json::number(self.status as u64));
        m.set("delay_ms", Json::number(self.delay_ms));
        m.set("chunk_delay_ms", Json::number(self.chunk_delay_ms));
        m.set("hang_ms", Json::number(self.hang_ms));
        m.set("truncate", Json::Bool(self.truncate));
        proof {
            lemma_spec_back(self@);
        }
        m.done()
    }

    /// The pause ahead of the response, in milliseconds.
    pub fn delay_ms(&self) -> (r: u64)
        ensures
            r == self@.delay_ms,
    {
        self.delay_ms
    }
}

/// The pieces that are delivered: the list where it is given, else the single text, else none.
pub open spec fn pieces_of(
    list: Option<Seq<Seq<char>>>,
    single: Option<Seq<char>>,
) -> Seq<Seq<char>> {
    match list {
        Some(c) => c,
        None => match single {
            Some(t) => seq![t],
            None => Seq::empty(),
        },
    }
}

/// The pieces of the content.
pub open spec fn content_of(s: SpecModel) -> Seq<Seq<char>> {
    pieces_of(s.chunks, s.content)
}

/// The pieces of the reasoning.
pub open spec fn reasoning_of(s: SpecModel) -> Seq<Seq<char>> {
    pieces_of(s.reasoning_chunks, s.reasoning)
}

/// Why the reply finishes.
pub open spec fn finish_of(s: SpecModel) -> Seq<char> {
    match s.finish_reason {
        Some(f) => f,
        None => "stop"@,
    }
}

/// The completion tokens that go with a derived prompt.
pub open spec fn completion_of(s: SpecModel) -> u64 {
    match s.usage {
        Some(u) => number_or(u.u64_at("completion_tokens"@), DERIVED_COMPLETION_TOKENS),
        None => DERIVED_COMPLETION_TOKENS,
    }
}

/// An object of token counts.
pub open spec fn token_counts(prompt: u64, completion: u64, total: u64) -> Tree {
    Tree::Obj(
        map![
            "prompt_tokens"@ => json::num(prompt),
            "completion_tokens"@ => json::num(completion),
            "total_tokens"@ => json::num(total),
        ],
    )
}

/// The usage that is reported: counted from a derived prompt, else as given, else one
/// token each way.
pub open spec fn usage_of(s: SpecModel) -> Tree {
    match s.derived_prompt {
        Some(p) => token_counts(p, completion_of(s), (p + completion_of(s)) as u64),
        None => match s.usage {
            Some(u) => u,
            None => token_counts(1, 1, 2),
        },
    }
}

/// The total of a derived prompt and its completion is a number of 64 bits.
pub open spec fn usage_fits(s: SpecModel) -> bool {
    s.derived_prompt matches Some(p) ==> p + completion_of(s) <= u64::MAX
}

/// Rendering reports a usage.
pub open spec fn reports_usage(s: SpecModel, stream: bool) -> bool {
    s.error is None && s.raw_body is None && !(stream && s.truncate)
}

/// A reply object: the members that every one has, with its kind and its only choice.
pub open spec fn reply_members(kind: Seq<char>, choice: Tree) -> Map<Seq<char>, Tree> {
    map![
        "id"@ => Tree::Str("1"@),
        "object"@ => Tree::Str(kind),
        "created"@ => json::num(0),
        "model"@ => Tree::Str(DEFAULT_MODEL@),
        "choices"@ => Tree::Arr(seq![choice]),
    ]
}

/// The choice of a streamed chunk.
pub open spec fn delta_choice(delta: Map<Seq<char>, Tree>, finish: Tree) -> Tree {
    Tree::Obj(
        map!["index"@ => json::num(0), "delta"@ => Tree::Obj(delta), "finish_reason"@ => finish],
    )
}

/// A streamed chunk that carries one delta.
pub open spec fn delta_tree(delta: Map<Seq<char>, Tree>) -> Tree {
    Tree::Obj(reply_members("chat.completion.chunk"@, delta_choice(delta, Tree::Null)))
}

/// The delta of one piece of reasoning.
pub open spec fn reasoning_delta(piece: Seq<char>) -> Map<Seq<char>, Tree> {
    map!["role"@ => Tree::Str("assistant"@), "reasoning_content"@ => Tree::Str(piece)]
}

/// The delta of one piece of content, or of none.
pub open spec fn content_delta(
    piece: Option<Seq<char>>,
    tool_calls: Option<Tree>,
) -> Map<Seq<char>, Tree> {
    let m = map!["role"@ => Tree::Str("assistant"@)];
    let m = json::with_opt(m, "content"@, text_value(piece));
    json::with_opt(m, "tool_calls"@, tool_calls)
}

/// The closing chunk: an empty delta, the reason, and the usage.
pub open spec fn finish_tree(s: SpecModel) -> Tree {
    Tree::Obj(
        reply_members(
            "chat.completion.chunk"@,
            delta_choice(Map::empty(), Tree::Str(finish_of(s))),
        ).insert("usage"@, usage_of(s)),
    )
}

/// A chunk of a stream and the pause ahead of it.
pub struct Event {
    pub delay_ms: u64,
    pub value: Tree,
}

/// The pause ahead of the piece at a place: none ahead of the first.
pub open spec fn pause_at(s: SpecModel, i: int) -> u64 {
    if i == 0 {
        0
    } else {
        s.chunk_delay_ms
    }
}

/// One chunk for each piece of reasoning.
pub open spec fn reasoning_events(s: SpecModel) -> Seq<Event> {
    Seq::new(
        reasoning_of(s).len(),
        |i: int|
            Event {
                delay_ms: pause_at(s, i),
                value: delta_tree(reasoning_delta(reasoning_of(s)[i])),
            },
    )
}

/// One chunk for each piece of content, or a single one without content; the tool calls
/// ride on the first.
pub open spec fn content_events(s: SpecModel) -> Seq<Event> {
    if content_of(s).len() == 0 {
        seq![Event { delay_ms: 0, value: delta_tree(content_delta(None, s.tool_calls)) }]
    } else {
        Seq::new(
            content_of(s).len(),
            |i: int|
                Event {
                    delay_ms: pause_at(s, i),
                    value: delta_tree(
                        content_delta(
                            Some(content_of(s)[i]),
                            if i == 0 {
                                s.tool_calls
                            } else {
                                None
                            },
                        ),
                    ),
                },
        )
    }
}

/// The chunks of a stream: reasoning, content, and the closing chunk, which a truncated
/// stream lacks.
pub open spec fn stream_events(s: SpecModel) -> Seq<Event> {
    reasoning_events(s) + content_events(s) + if s.truncate {
        Seq::empty()
    } else {
        seq![Event { delay_ms: 0, value: finish_tree(s) }]
    }
}

/// The bytes of an event: a data line and an empty one.
pub open spec fn event_bytes(value: Tree) -> Seq<u8> {
    vstd::utf8::encode_utf8("data: "@ + codec::written(value) + "\n\n"@)
}

/// The frame that carries a chunk.
pub open spec fn carrier(e: Event) -> FrameModel {
    FrameModel { delay_ms: e.delay_ms, data: event_bytes(e.value) }
}

/// The frames that carry a row of chunks.
pub open spec fn event_frames(events: Seq<Event>) -> Seq<FrameModel> {
    events.map_values(|e: Event| carrier(e))
}

/// One more frame carries one more chunk.
proof fn lemma_carry(frames: Seq<Frame>, events: Seq<Event>, f: Frame, e: Event)
    requires
        response::frame_models(frames) == event_frames(events),
        f@ == carrier(e),
    ensures
        response::frame_models(frames.push(f)) == event_frames(events.push(e)),
{
    assert(response::frame_models(frames.push(f)) =~= response::frame_models(frames).push(f@));
    assert(event_frames(events.push(e)) =~= event_frames(events).push(carrier(e)));
}

/// The frame that ends a stream.
pub open spec fn done_frame() -> FrameModel {
    FrameModel { delay_ms: 0, data: vstd::utf8::encode_utf8("data: [DONE]\n\n"@) }
}

/// The frames of a stream: its chunks, and the end mark, which a truncated stream lacks.
pub open spec fn stream_frames(s: SpecModel) -> Seq<FrameModel> {
    event_frames(stream_events(s)) + if s.truncate {
        Seq::empty()
    } else {
        seq![done_frame()]
    }
}

/// Something paces the stream or cuts it.
pub open spec fn timed(s: SpecModel) -> bool {
    s.chunk_delay_ms > 0 || s.hang_ms > 0 || s.truncate
}

/// The stream: frame by frame where it is timed, else in one go.
pub open spec fn sse_of(s: SpecModel) -> ResponseModel {
    if timed(s) {
        response::timed_reply(s.status, CONTENT_TYPE_SSE@, stream_frames(s), s.hang_ms)
    } else {
        response::sse_reply(s.status, response::frame_bytes(stream_frames(s)))
    }
}

/// The message of a reply that is not streamed: the pieces joined.
pub open spec fn message_of(s: SpecModel) -> Map<Seq<char>, Tree> {
    let reasoning = text::joined(reasoning_of(s));
    let m = map![
        "role"@ => Tree::Str("assistant"@),
        "content"@ => Tree::Str(text::joined(content_of(s))),
    ];
    let m = json::with_opt(
        m,
        "reasoning_content"@,
        if reasoning.len() > 0 {
            Some(Tree::Str(reasoning))
        } else {
            None
        },
    );
    json::with_opt(m, "tool_calls"@, s.tool_calls)
}

/// The reply that is not streamed.
pub open spec fn completion_tree(s: SpecModel) -> Tree {
    Tree::Obj(
        reply_members(
            "chat.completion"@,
            Tree::Obj(
                map![
                    "index"@ => json::num(0),
                    "message"@ => Tree::Obj(message_of(s)),
                    "finish_reason"@ => Tree::Str(finish_of(s)),
                ],
            ),
        ).insert("usage"@, usage_of(s)),
    )
}

/// The body of an error: an object is kept and given a type where it has none; anything
/// else becomes the message.
pub open spec fn error_tree(e: Tree) -> Tree {
    let inner = match e {
        Tree::Obj(m) => Tree::Obj(
            json::filled(m, "type"@, Tree::Str("invalid_request_error"@)),
        ),
        _ => Tree::Obj(
            map![
                "message"@ => e,
                "type"@ => Tree::Str("invalid_request_error"@),
                "code"@ => Tree::Null,
            ],
        ),
    };
    Tree::Obj(map!["error"@ => inner])
}

/// The status of an error: one that says success means a bad request.
pub open spec fn error_status(status: u16) -> u16 {
    if status == 200 {
        400
    } else {
        status
    }
}

/// The response that a spec renders to: its error, its raw body, a stream, or an object.
pub open spec fn rendered(s: SpecModel, stream: bool) -> ResponseModel {
    if s.error is Some {
        response::json_reply(error_status(s.status), error_tree(s.error->0))
    } else if s.raw_body is Some {
        response::plain(
            s.status,
            match s.content_type {
                Some(c) => c,
                None => CONTENT_TYPE_SSE@,
            },
            vstd::utf8::encode_utf8(s.raw_body->0),
        )
    } else if stream {
        sse_of(s)
    } else {
        response::json_reply(s.status, completion_tree(s))
    }
}

/// A frame with a text.
fn frame(delay_ms: u64, data: &str) -> (r: Frame)
    ensures
        r@ == (FrameModel { delay_ms, data: vstd::utf8::encode_utf8(data@) }),
{
    Frame { delay_ms, data: data.as_bytes_vec() }
}

/// A frame with a chunk.
fn event_frame(delay_ms: u64, value: &Json) -> (r: Frame)
    ensures
        r@ == (FrameModel { delay_ms, data: event_bytes(value@) }),
{
    let mut line = "data: ".to_owned();
    let t = to_text(value);
    line.append(t.as_str());
    line.append("\n\n");
    frame(delay_ms, line.as_str())
}

/// The members of a reply.
fn reply(kind: &str, choice: Json) -> (r: Members)
    ensures
        r@ == reply_members(kind@, choice@),
{
    Members::new().with("id", Json::text("1")).with("object", Json::text(kind)).with(
        "created",
        Json::number(0),
    ).with("model", Json::text(DEFAULT_MODEL)).with("choices", list_of_one(choice))
}

/// A choice with a delta.
fn choice_with(delta: Json, finish: Json) -> (r: Json)
    ensures
        r@ == Tree::Obj(
            map!["index"@ => json::num(0), "delta"@ => delta@, "finish_reason"@ => finish@],
        ),
{
    Members::new().with("index", Json::number(0)).with("delta", delta).with(
        "finish_reason",
        finish,
    ).done()
}

/// A chunk with a delta.
fn chunk_with(delta: Members) -> (r: Json)
    ensures
        r@ == delta_tree(delta@),
{
    reply("chat.completion.chunk", choice_with(delta.done(), Json::Null)).done()
}

/// The chunk of one piece of reasoning.
fn reasoning_chunk(piece: &str) -> (r: Json)
    ensures
        r@ == delta_tree(reasoning_delta(piece@)),
{
    chunk_with(
        Members::new().with("role", Json::text("assistant")).with(
            "reasoning_content",
            Json::text(piece),
        ),
    )
}

/// The chunk of one piece of content, or of none.
fn delta_chunk(piece: Option<&str>, tool_calls: Option<Json>) -> (r: Json)
    ensures
        r@ == delta_tree(
            content_delta(
                match piece {
                    Some(p) => Some(p@),
                    None => None,
                },
                json::tree_opt(tool_calls),
            ),
        ),
{
    let mut m = Members::new().with("role", Json::text("assistant"));
    if let Some(p) = piece {
        m.set("content", Json::text(p));
    }
    m.set_opt("tool_calls", tool_calls);
    chunk_with(m)
}

/// An object of token counts.
fn counts(prompt: u64, completion: u64, total: u64) -> (r: Json)
    ensures
        r@ == token_counts(prompt, completion, total),
{
    Members::new().with("prompt_tokens", Json::number(prompt)).with(
        "completion_tokens",
        Json::number(completion),
    ).with("total_tokens", Json::number(total)).done()
}

impl ResponseSpec {
    /// The pieces of the content.
    fn content_pieces(&self) -> (r: Vec<String>)
        ensures
            text::texts(r@) == content_of(self@),
    {
        pieces(&self.chunks, &self.content)
    }

    /// The pieces of the reasoning.
    fn reasoning_pieces(&self) -> (r: Vec<String>)
        ensures
            text::texts(r@) == reasoning_of(self@),
    {
        pieces(&self.reasoning_chunks, &self.reasoning)
    }

    /// Whether something paces the stream or cuts it.
    fn is_timed(&self) -> (r: bool)
        ensures
            r == timed(self@),
    {
        self.chunk_delay_ms > 0 || self.hang_ms > 0 || self.truncate
    }

    /// Why the reply finishes.
    fn finish(&self) -> (r: String)
        ensures
            r@ == finish_of(self@),
    {
        match &self.finish_reason {
            Some(f) => f.clone(),
            None => "stop".to_owned(),
        }
    }

    /// The completion tokens that go with a derived prompt.
    fn completion_tokens(&self) -> (r: u64)
        ensures
            r == completion_of(self@),
    {
        match &self.usage {
            Some(u) => match u.u64_at("completion_tokens") {
                Some(c) => c,
                None => DERIVED_COMPLETION_TOKENS,
            },
            None => DERIVED_COMPLETION_TOKENS,
        }
    }

    /// The usage that is reported.
    fn usage(&self) -> (r: Json)
        requires
            usage_fits(self@),
        ensures
            r@ == usage_of(self@),
    {
        if let Some(prompt) = self.derived_prompt {
            let completion: u64 = self.completion_tokens();
            return counts(prompt, completion, prompt + completion);
        }
        match &self.usage {
            Some(u) => u.copy(),
            None => counts(1, 1, 2),
        }
    }

    /// Whether the spec can be rendered: the total of a usage that it reports is a number
    /// of 64 bits.
    pub fn renders(&self, stream: bool) -> (r: bool)
        ensures
            r == (reports_usage(self@, stream) ==> usage_fits(self@)),
    {
        if self.error.is_some() || self.raw_body.is_some() || (stream && self.truncate) {
            return true;
        }
        match self.derived_prompt {
            Some(p) => self.completion_tokens() <= u64::MAX - p,
            None => true,
        }
    }

    /// The closing chunk.
    fn finish_chunk(&self) -> (r: Json)
        requires
            usage_fits(self@),
        ensures
            r@ == finish_tree(self@),
    {
        let choice = choice_with(Members::new().done(), Json::Str(self.finish()));
        reply("chat.completion.chunk", choice).with("usage", self.usage()).done()
    }

    /// The error, as a response.
    fn render_error(&self, err: &Json) -> (r: HttpResponse)
        ensures
            r@ == response::json_reply(error_status(self@.status), error_tree(err@)),
    {
        let status: u16 = if self.status == 200 {
            400
        } else {
            self.status
        };
        let inner = match err {
            Json::Obj(_) => Members::of(err.copy()).fill(
                "type",
                Json::text("invalid_request_error"),
            ),
            _ => Members::new().with("message", err.copy()).with(
                "type",
                Json::text("invalid_request_error"),
            ).with("code", Json::Null),
        };
        HttpResponse::json(status, &Members::new().with("error", inner.done()).done())
    }

    /// Adds a frame for each piece of reasoning.
    fn push_reasoning(&self, frames: &mut Vec<Frame>, Ghost(done): Ghost<Seq<Event>>)
        requires
            response::frame_models(old(frames)@) == event_frames(done),
        ensures
            response::frame_models(final(frames)@) == event_frames(
                done + reasoning_events(self@),
            ),
    {
        let ghost events = reasoning_events(self@);
        let pieces = self.reasoning_pieces();
        let mut i: usize = 0;
        assert(done + events.take(0) =~= done);
        while i < pieces.len()
            invariant
                i <= pieces.len(),
                events == reasoning_events(self@),
                text::texts(pieces@) == reasoning_of(self@),
                response::frame_models(frames@) == event_frames(done + events.take(i as int)),
            decreases pieces.len() - i,
        {
            let delay: u64 = if i == 0 {
                0
            } else {
                self.chunk_delay_ms
            };
            let f = event_frame(delay, &reasoning_chunk(pieces[i].as_str()));
            proof {
                assert(text::texts(pieces@)[i as int] == pieces@[i as int]@);
                lemma_carry(frames@, done + events.take(i as int), f, events[i as int]);
                assert((done + events.take(i as int)).push(events[i as int]) =~= done
                    + events.take(i + 1));
            }
            frames.push(f);
            i += 1;
        }
        assert(events.take(i as int) =~= events);
    }

    /// Adds a frame for each piece of content, or one without content.
    fn push_content(&self, frames: &mut Vec<Frame>, Ghost(done): Ghost<Seq<Event>>)
        requires
            response::frame_models(old(frames)@) == event_frames(done),
        ensures
            response::frame_models(final(frames)@) == event_frames(
                done + content_events(self@),
            ),
    {
        let ghost events = content_events(self@);
        let pieces = self.content_pieces();
        if pieces.len() == 0 {
            let f = event_frame(0, &delta_chunk(None, copy_opt(&self.tool_calls)));
            proof {
                assert(text::texts(pieces@).len() == 0);
                lemma_carry(frames@, done, f, events[0]);
                assert(done.push(events[0]) =~= done + events);
            }
            frames.push(f);
            return ;
        }
        let mut i: usize = 0;
        assert(done + events.take(0) =~= done);
        while i < pieces.len()
            invariant
                i <= pieces.len(),
                pieces.len() > 0,
                events == content_events(self@),
                text::texts(pieces@) == content_of(self@),
                response::frame_models(frames@) == event_frames(done + events.take(i as int)),
            decreases pieces.len() - i,
        {
            let delay: u64 = if i == 0 {
                0
            } else {
                self.chunk_delay_ms
            };
            let calls = if i == 0 {
                copy_opt(&self.tool_calls)
            } else {
                None
            };
            let f = event_frame(delay, &delta_chunk(Some(pieces[i].as_str()), calls));
            proof {
                assert(text::texts(pieces@)[i as int] == pieces@[i as int]@);
                lemma_carry(frames@, done + events.take(i as int), f, events[i as int]);
                assert((done + events.take(i as int)).push(events[i as int]) =~= done
                    + events.take(i + 1));
            }
            frames.push(f);
            i += 1;
        }
        assert(events.take(i as int) =~= events);
    }

    /// The stream.
    pub fn render_sse(&self) -> (r: HttpResponse)
        requires
            self@.truncate || usage_fits(self@),
        ensures
            r@ == sse_of(self@),
    {
        let ghost s = self@;
        let ghost done: Seq<Event> = Seq::empty();
        let mut frames: Vec<Frame> = Vec::new();
        assert(response::frame_models(frames@) =~= event_frames(done));
        self.push_reasoning(&mut frames, Ghost(done));
        assert(done + reasoning_events(s) =~= reasoning_events(s));
        self.push_content(&mut frames, Ghost(reasoning_events(s)));
        let ghost done = reasoning_events(s) + content_events(s);
        if !self.truncate {
            let f = event_frame(0, &self.finish_chunk());
            proof {
                lemma_carry(
                    frames@,
                    done,
                    f,
                    Event { delay_ms: 0, value: finish_tree(s) },
                );
                assert(done.push(Event { delay_ms: 0, value: finish_tree(s) }) =~= stream_events(
                    s,
                ));
            }
            frames.push(f);
            let ghost before = frames@;
            frames.push(frame(0, "data: [DONE]\n\n"));
            assert(response::frame_models(frames@) =~= response::frame_models(before).push(
                done_frame(),
            ));
            assert(response::frame_models(frames@) =~= stream_frames(s));
        } else {
            assert(done =~= stream_events(s));
            assert(stream_frames(s) =~= event_frames(done));
        }
        if self.is_timed() {
            HttpResponse::streamed(self.status, CONTENT_TYPE_SSE, frames, self.hang_ms)
        } else {
            HttpResponse::sse(self.status, flatten(frames))
        }
    }

    /// The reply that is not streamed.
    fn render_json(&self) -> (r: HttpResponse)
        requires
            usage_fits(self@),
        ensures
            r@ == response::json_reply(self@.status, completion_tree(self@)),
    {
        let content = join(self.content_pieces().as_slice());
        let reasoning = join(self.reasoning_pieces().as_slice());
        let mut message = Members::new().with("role", Json::text("assistant")).with(
            "content",
            Json::Str(content),
        );
        if !reasoning.as_str().is_empty() {
            message.set("reasoning_content", Json::Str(reasoning));
        }
        message.set_opt("tool_calls", copy_opt(&self.tool_calls));
        let choice = Members::new().with("index", Json::number(0)).with(
            "message",
            message.done(),
        ).with("finish_reason", Json::Str(self.finish())).done();
        let body = reply("chat.completion", choice).with("usage", self.usage()).done();
        HttpResponse::json(self.status, &body)
    }

    /// Renders to an error body, a raw body, a stream, or a single object.
    pub fn render(&self, stream: bool) -> (r: HttpResponse)
        requires
            reports_usage(self@, stream) ==> usage_fits(self@),
        ensures
            r@ == rendered(self@, stream),
    {
        if let Some(e) = &self.error {
            return self.render_error(e);
        }
        if let Some(raw) = &self.raw_body {
            let body = raw.as_str().as_bytes_vec();
            return match &self.content_type {
                Some(c) => HttpResponse::new(self.status, c.as_str(), body),
                None => HttpResponse::new(self.status, CONTENT_TYPE_SSE, body),
            };
        }
        if stream {
            self.render_sse()
        } else {
            self.render_json()
        }
    }
}

/// The pieces that are delivered.
fn pieces(list: &Option<Vec<String>>, single: &Option<String>) -> (r: Vec<String>)
    ensures
        text::texts(r@) == pieces_of(texts_opt(*list), json::text_opt(*single)),
{
    match list {
        Some(c) => copy_texts(c),
        None => {
            let mut v: Vec<String> = Vec::new();
            if let Some(t) = single {
                v.push(t.clone());
            }
            assert(text::texts(v@) =~= pieces_of(None, json::text_opt(*single)));
            v
        },
    }
}

/// What a row of specs holds.
pub open spec fn spec_models(q: Seq<ResponseSpec>) -> Seq<SpecModel> {
    q.map_values(|s: ResponseSpec| s@)
}

/// The specs that a value describes: one for each item of a list, else one.
pub open spec fn specs_in(t: Tree) -> Seq<SpecModel> {
    match t {
        Tree::Arr(a) => a.map_values(|x: Tree| spec_of(x)),
        _ => seq![spec_of(t)],
    }
}

/// The spec on a line of text, where the line holds a JSON value.
pub open spec fn line_spec(line: Seq<char>) -> Option<SpecModel> {
    let t = text::trim_of(line);
    if t.len() == 0 {
        None
    } else {
        match codec::read_text(t) {
            Ok(v) => Some(spec_of(v)),
            Err(_) => None,
        }
    }
}

/// The specs on a row of lines.
pub open spec fn line_specs(lines: Seq<Seq<char>>) -> Seq<SpecModel>
    decreases lines.len(),
{
    if lines.len() == 0 {
        Seq::empty()
    } else {
        let before = line_specs(lines.drop_last());
        match line_spec(lines.last()) {
            Some(s) => before.push(s),
            None => before,
        }
    }
}

/// The specs that a file holds: those of its JSON list or object, else those on its lines.
pub open spec fn file_specs(content: Seq<char>) -> Seq<SpecModel> {
    match codec::read_text(content) {
        Ok(Tree::Arr(a)) => specs_in(Tree::Arr(a)),
        Ok(Tree::Obj(m)) => specs_in(Tree::Obj(m)),
        _ => line_specs(text::split_of(content, '\n')),
    }
}

/// One more spec at the end.
fn push_spec(queue: &mut VecDeque<ResponseSpec>, spec: ResponseSpec)
    ensures
        spec_models(final(queue)@) == spec_models(old(queue)@).push(spec@),
{
    queue.push_back(spec);
    assert(spec_models(queue@) =~= spec_models(old(queue)@).push(spec@));
}

/// Appends the spec that a value describes, or each spec of a list.
pub fn push_specs(queue: &mut VecDeque<ResponseSpec>, body: &Json)
    ensures
        spec_models(final(queue)@) == spec_models(old(queue)@) + specs_in(body@),
{
    let ghost before = spec_models(queue@);
    match body {
        Json::Arr(a) => {
            let ghost all = specs_in(body@);
            proof {
                json::lemma_trees(a@);
            }
            let mut i: usize = 0;
            assert(before + all.take(0) =~= before);
            while i < a.len()
                invariant
                    i <= a.len(),
                    all == json::trees(a@).map_values(|x: Tree| spec_of(x)),
                    json::trees(a@).len() == a.len(),
                    forall|j: int|
                        0 <= j < a.len() ==> #[trigger] json::trees(a@)[j] == json::tree(a@[j]),
                    spec_models(queue@) == before + all.take(i as int),
                decreases a.len() - i,
            {
                let spec = ResponseSpec::from_value(&a[i]);
                assert(json::trees(a@)[i as int] == a@[i as int]@);
                assert((before + all.take(i as int)).push(spec@) =~= before + all.take(i + 1));
                push_spec(queue, spec);
                i += 1;
            }
            assert(all.take(i as int) =~= all);
        },
        _ => {
            push_spec(queue, ResponseSpec::from_value(body));
            assert(spec_models(queue@) =~= before + specs_in(body@));
        },
    }
}

/// Appends the spec on a line of text; a line that is empty or holds no JSON value adds
/// nothing.
pub fn push_line(queue: &mut VecDeque<ResponseSpec>, line: &str)
    ensures
        spec_models(final(queue)@) == (match line_spec(line@) {
            Some(s) => spec_models(old(queue)@).push(s),
            None => spec_models(old(queue)@),
        }),
{
    let t = text::trim(line);
    if t.is_empty() {
        return ;
    }
    if let Ok(v) = parse_text(t) {
        push_spec(queue, ResponseSpec::from_value(&v));
    }
}

/// Appends the specs of a file, by its content.
pub fn load_file(queue: &mut VecDeque<ResponseSpec>, content: &str)
    ensures
        spec_models(final(queue)@) == spec_models(old(queue)@) + file_specs(content@),
{
    let ghost before = spec_models(queue@);
    if let Ok(v) = parse_text(content) {
        match v {
            Json::Arr(_) => {
                push_specs(queue, &v);
                return ;
            },
            Json::Obj(_) => {
                push_specs(queue, &v);
                return ;
            },
            _ => {},
        }
    }
    let lines = text::split(content, '\n');
    let ghost rows = text::texts(lines@);
    let mut i: usize = 0;
    assert(rows.take(0) =~= Seq::empty());
    assert(before + line_specs(rows.take(0)) =~= before);
    while i < lines.len()
        invariant
            i <= lines.len(),
            rows == text::texts(lines@),
            spec_models(queue@) == before + line_specs(rows.take(i as int)),
        decreases lines.len() - i,
    {
        push_line(queue, lines[i].as_str());
        proof {
            assert(rows.take(i + 1).drop_last() =~= rows.take(i as int));
            assert(rows.take(i + 1).last() == lines@[i as int]@);
            assert(spec_models(queue@) =~= before + line_specs(rows.take(i + 1)));
        }
        i += 1;
    }
    assert(rows.take(i as int) =~= rows);
}

/// A truncated stream is the whole one without its last two frames: the closing chunk and
/// the end mark. In bytes, the whole stream is the truncated one, the closing chunk, and the end
/// mark, whatever paces it.
pub proof fn law_truncation_drops_the_ending(s: SpecModel)
    ensures
        ({
            let cut = SpecModel { truncate: true, ..s };
            let whole = SpecModel { truncate: false, ..s };
            &&& stream_frames(cut) == stream_frames(whole).drop_last().drop_last()
            &&& response::body_bytes(sse_of(whole).body) == response::body_bytes(sse_of(cut).body)
                + event_bytes(finish_tree(whole)) + done_frame().data
        }),
{
    let cut = SpecModel { truncate: true, ..s };
    let whole = SpecModel { truncate: false, ..s };
    assert(content_events(cut) =~= content_events(whole));
    assert(reasoning_events(cut) =~= reasoning_events(whole));
    let all = stream_frames(whole);
    assert(stream_frames(cut) =~= all.drop_last().drop_last());
    assert(all.last() == done_frame());
    let closed = all.drop_last();
    assert(closed.last() == carrier(Event { delay_ms: 0, value: finish_tree(whole) }));
    assert(response::frame_bytes(all) == response::frame_bytes(closed) + all.last().data);
    assert(response::frame_bytes(closed) == response::frame_bytes(closed.drop_last())
        + closed.last().data);
}

/// The reason that a chunk gives for the end of the reply.
pub open spec fn reason_of(value: Tree) -> Option<Tree> {
    match value.list_at("choices"@) {
        Some(c) => c[0].get("finish_reason"@),
        None => None,
    }
}

/// What a chunk gives as its reason.
proof fn lemma_reason(delta: Map<Seq<char>, Tree>, finish: Tree, usage: Tree)
    ensures
        ({
            let m = reply_members("chat.completion.chunk"@, delta_choice(delta, finish));
            reason_of(Tree::Obj(m)) == Some(finish) && reason_of(
                Tree::Obj(m.insert("usage"@, usage)),
            ) == Some(finish)
        }),
{
    reveal_strlit("choices");
    reveal_strlit("usage");
    assert("choices"@.len() == 7 && "usage"@.len() == 5);
    let choice = delta_choice(delta, finish);
    let m = reply_members("chat.completion.chunk"@, choice);
    assert(choice.get("finish_reason"@) == Some(finish));
    assert(seq![choice][0] == choice);
    assert(Tree::Obj(m).list_at("choices"@) == Some(seq![choice]));
    assert(Tree::Obj(m.insert("usage"@, usage)).list_at("choices"@) == Some(seq![choice]));
}

/// Only the closing chunk gives a reason: a truncated stream gives none, and a whole one gives it
/// in its last chunk alone, next to an empty delta and the usage.
pub proof fn law_only_the_ending_gives_a_reason(s: SpecModel)
    ensures
        ({
            let events = stream_events(s);
            let n = if s.truncate {
                events.len() as int
            } else {
                events.len() - 1
            };
            &&& forall|i: int| 0 <= i < n ==> reason_of((#[trigger] events[i]).value) == Some(
                Tree::Null,
            )
            &&& !s.truncate ==> {
                &&& events.last().value == finish_tree(s)
                &&& reason_of(finish_tree(s)) == Some(Tree::Str(finish_of(s)))
                &&& finish_tree(s).get("usage"@) == Some(usage_of(s))
            }
        }),
{
    let events = stream_events(s);
    let r = reasoning_events(s);
    let c = content_events(s);
    let n = r.len() + c.len();
    assert forall|i: int| 0 <= i < n implies reason_of((#[trigger] events[i]).value) == Some(
        Tree::Null,
    ) by {
        if i < r.len() {
            assert(events[i] == r[i]);
            lemma_reason(reasoning_delta(reasoning_of(s)[i]), Tree::Null, Tree::Null);
        } else {
            let k = i - r.len();
            assert(events[i] == c[k]);
            let piece = if content_of(s).len() == 0 {
                None
            } else {
                Some(content_of(s)[k])
            };
            let calls = if k == 0 {
                s.tool_calls
            } else {
                None
            };
            lemma_reason(content_delta(piece, calls), Tree::Null, Tree::Null);
        }
    }
    lemma_reason(Map::empty(), Tree::Str(finish_of(s)), usage_of(s));
}

/// A stream goes out frame by frame exactly when something paces it, holds it or cuts it; else it
/// goes out in one go. It is what rendering gives for a request that wants a stream.
pub proof fn law_streams_are_timed_when_asked(s: SpecModel)
    ensures
        sse_of(s).body is Streamed <==> s.chunk_delay_ms > 0 || s.hang_ms > 0 || s.truncate,
        s.error is None && s.raw_body is None ==> rendered(s, true) == sse_of(s),
{
}

/// Pacing a stream, or holding it open, changes no byte of it: whether it goes out in one
/// go or frame by frame, the client receives the same body.
pub proof fn law_pacing_keeps_the_bytes(
    s: SpecModel,
    delay_ms: u64,
    chunk_delay_ms: u64,
    hang_ms: u64,
)
    ensures
        response::body_bytes(
            sse_of(SpecModel { delay_ms, chunk_delay_ms, hang_ms, ..s }).body,
        ) == response::body_bytes(sse_of(s).body),
{
    let paced = SpecModel { delay_ms, chunk_delay_ms, hang_ms, ..s };
    let a = stream_frames(paced);
    let b = stream_frames(s);
    assert(a.len() == b.len());
    assert forall|i: int| 0 <= i < a.len() implies (#[trigger] a[i]).data == b[i].data by {
        let n = reasoning_events(s).len();
        if i < n {
            assert(stream_events(paced)[i] == reasoning_events(paced)[i]);
            assert(stream_events(s)[i] == reasoning_events(s)[i]);
        }
    }
    response::lemma_frame_bytes_untimed(a, b);
}

/// The text that a chunk's delta carries under a name.
pub open spec fn delta_text(value: Tree, key: Seq<char>) -> Seq<char> {
    match value.list_at("choices"@) {
        Some(c) => match c[0].get("delta"@) {
            Some(d) => text_or_none(d.str_at(key)),
            None => Seq::<char>::empty(),
        },
        None => Seq::<char>::empty(),
    }
}

/// The texts that a row of chunks carries under a name.
pub open spec fn carried(events: Seq<Event>, key: Seq<char>) -> Seq<Seq<char>> {
    events.map_values(|e: Event| delta_text(e.value, key))
}

/// A text, or none.
pub open spec fn text_or_none(t: Option<Seq<char>>) -> Seq<char> {
    match t {
        Some(s) => s,
        None => Seq::<char>::empty(),
    }
}

/// Where the delta of a chunk is found.
proof fn lemma_delta_text(
    delta: Map<Seq<char>, Tree>,
    finish: Tree,
    usage: Tree,
    key: Seq<char>,
)
    ensures
        ({
            let m = reply_members("chat.completion.chunk"@, delta_choice(delta, finish));
            let found = text_or_none(Tree::Obj(delta).str_at(key));
            delta_text(Tree::Obj(m), key) == found && delta_text(
                Tree::Obj(m.insert("usage"@, usage)),
                key,
            ) == found
        }),
{
    reveal_strlit("choices");
    reveal_strlit("usage");
    reveal_strlit("delta");
    reveal_strlit("finish_reason");
    reveal_strlit("index");
    assert("choices"@.len() == 7 && "usage"@.len() == 5 && "delta"@.len() == 5 && "finish_reason"@.len() == 13 && "index"@.len() == 5);
    assert("delta"@[0] == 'd' && "index"@[0] == 'i');
    let choice = delta_choice(delta, finish);
    let m = reply_members("chat.completion.chunk"@, choice);
    assert(choice.get("delta"@) == Some(Tree::Obj(delta)));
    assert(seq![choice][0] == choice);
    assert(Tree::Obj(m).list_at("choices"@) == Some(seq![choice]));
    assert(Tree::Obj(m.insert("usage"@, usage)).list_at("choices"@) == Some(seq![choice]));
}

/// What the delta of a piece of reasoning carries.
proof fn lemma_reasoning_delta(piece: Seq<char>)
    ensures
        Tree::Obj(reasoning_delta(piece)).str_at("content"@) is None,
        Tree::Obj(reasoning_delta(piece)).str_at("reasoning_content"@) == Some(piece),
{
    reveal_strlit("role");
    reveal_strlit("content");
    reveal_strlit("reasoning_content");
    assert("role"@.len() == 4 && "content"@.len() == 7 && "reasoning_content"@.len() == 17);
}

/// What the delta of a piece of content carries.
proof fn lemma_content_delta(piece: Option<Seq<char>>, calls: Option<Tree>)
    ensures
        Tree::Obj(content_delta(piece, calls)).str_at("content"@) == piece,
        Tree::Obj(content_delta(piece, calls)).str_at("reasoning_content"@) is None,
{
    reveal_strlit("role");
    reveal_strlit("content");
    reveal_strlit("reasoning_content");
    reveal_strlit("tool_calls");
    assert("role"@.len() == 4 && "content"@.len() == 7 && "reasoning_content"@.len() == 17 && "tool_calls"@.len() == 10);
}

/// A stream carries the content and the reasoning whole: put together, its deltas give what
/// the reply that is not streamed holds in one piece.
pub proof fn law_stream_carries_the_message(s: SpecModel)
    ensures
        message_of(s)["content"@] == Tree::Str(
            text::joined(carried(stream_events(s), "content"@)),
        ),
        Tree::Obj(message_of(s)).str_at("reasoning_content"@) == (
            if text::joined(carried(stream_events(s), "reasoning_content"@)).len() > 0 {
                Some(text::joined(carried(stream_events(s), "reasoning_content"@)))
            } else {
                None
            }
        ),
{
    reveal_strlit("role");
    reveal_strlit("content");
    reveal_strlit("reasoning_content");
    reveal_strlit("tool_calls");
    assert("role"@.len() == 4 && "content"@.len() == 7 && "reasoning_content"@.len() == 17 && "tool_calls"@.len() == 10);
    let r = reasoning_events(s);
    let c = content_events(s);
    let f: Seq<Event> = if s.truncate {
        Seq::empty()
    } else {
        seq![Event { delay_ms: 0, value: finish_tree(s) }]
    };
    assert(stream_events(s) == r + c + f);
    assert forall|key: Seq<char>| #[trigger]
        text::joined(carried(stream_events(s), key)) == text::joined(carried(r, key))
            + text::joined(carried(c, key)) by {
        assert(carried(stream_events(s), key) =~= carried(r, key) + carried(c, key) + carried(
            f,
            key,
        ));
        text::lemma_joined_concat(carried(r, key) + carried(c, key), carried(f, key));
        text::lemma_joined_concat(carried(r, key), carried(c, key));
        lemma_delta_text(Map::empty(), Tree::Str(finish_of(s)), usage_of(s), key);
        text::lemma_joined_empty(carried(f, key));
        assert(text::joined(carried(stream_events(s), key)) =~= text::joined(carried(r, key))
            + text::joined(carried(c, key)));
    }
    let k = "content"@;
    let t = "reasoning_content"@;
    assert forall|i: int| 0 <= i < r.len() implies (#[trigger] carried(r, k)[i]).len() == 0 by {
        lemma_reasoning_delta(reasoning_of(s)[i]);
        lemma_delta_text(reasoning_delta(reasoning_of(s)[i]), Tree::Null, Tree::Null, k);
    }
    assert forall|i: int| 0 <= i < r.len() implies #[trigger] carried(r, t)[i] == reasoning_of(
        s,
    )[i] by {
        lemma_reasoning_delta(reasoning_of(s)[i]);
        lemma_delta_text(reasoning_delta(reasoning_of(s)[i]), Tree::Null, Tree::Null, t);
    }
    assert(carried(r, t) =~= reasoning_of(s));
    text::lemma_joined_empty(carried(r, k));
    assert forall|i: int| 0 <= i < c.len() implies #[trigger] carried(c, t)[i].len() == 0 && (
    if content_of(s).len() == 0 {
        carried(c, k)[i].len() == 0
    } else {
        carried(c, k)[i] == content_of(s)[i]
    }) by {
        let piece = if content_of(s).len() == 0 {
            None
        } else {
            Some(content_of(s)[i])
        };
        let calls = if i == 0 {
            s.tool_calls
        } else {
            None
        };
        lemma_content_delta(piece, calls);
        lemma_delta_text(content_delta(piece, calls), Tree::Null, Tree::Null, k);
        lemma_delta_text(content_delta(piece, calls), Tree::Null, Tree::Null, t);
    }
    text::lemma_joined_empty(carried(c, t));
    if content_of(s).len() == 0 {
        assert forall|i: int| 0 <= i < c.len() implies (#[trigger] carried(c, k)[i]).len()
            == 0 by {
            assert(carried(c, t)[i].len() == 0);
        }
        text::lemma_joined_empty(carried(c, k));
        text::lemma_joined_empty(content_of(s));
    } else {
        assert forall|i: int| 0 <= i < c.len() implies #[trigger] carried(c, k)[i]
            == content_of(s)[i] by {
            assert(carried(c, t)[i].len() == 0);
        }
        assert(carried(c, k) =~= content_of(s));
    }
    assert(text::joined(carried(stream_events(s), k)) =~= text::joined(content_of(s)));
    assert(text::joined(carried(stream_events(s), t)) =~= text::joined(reasoning_of(s)));
}

/// An error is answered the same way whether or not a stream was asked for, never with a status
/// that says success, and always with a type.
pub proof fn law_errors_precede_streams(s: SpecModel)
    requires
        s.error is Some,
    ensures
        rendered(s, true) == rendered(s, false),
        rendered(s, true).status != 200,
        rendered(s, true) == response::json_reply(error_status(s.status), error_tree(s.error->0)),
        error_tree(s.error->0).get("error"@) matches Some(e) && e.get("type"@) is Some,
{
    reveal_strlit("type");
    reveal_strlit("code");
    reveal_strlit("message");
    assert("type"@.len() == 4 && "code"@.len() == 4 && "message"@.len() == 7);
    assert("type"@[0] == 't' && "code"@[0] == 'c');
}

/// The number of a member of a programmed value, or what stands in for it.
pub open spec fn programmed_number(v: Tree, key: Seq<char>, otherwise: u64) -> u64 {
    match v.u64_at(key) {
        Some(n) => n,
        None => otherwise,
    }
}

/// The status that a programmed value asks for.
pub open spec fn programmed_status(v: Tree) -> u16 {
    (programmed_number(v, "status"@, 200) % 0x1_0000) as u16
}

/// The texts that a programmed value gives under a name for several, else under one for a single.
pub open spec fn programmed_texts(
    v: Tree,
    several: Seq<char>,
    single: Seq<char>,
) -> Seq<Seq<char>> {
    match v.list_at(several) {
        Some(a) => Seq::new(
            a.len(),
            |i: int|
                match a[i] {
                    Tree::Str(t) => t,
                    _ => Seq::<char>::empty(),
                },
        ),
        None => match v.str_at(single) {
            Some(t) => seq![t],
            None => Seq::empty(),
        },
    }
}

/// A client that reads a usage finds what was programmed, or one token each way; where the prompt
/// was derived it finds that prompt, the programmed completion or sixteen tokens, and their sum.
pub open spec fn shows_usage(u: Tree, v: Tree, prompt: Option<u64>) -> bool {
    match prompt {
        Some(p) => {
            let c = match v.get("usage"@) {
                Some(g) => programmed_number(g, "completion_tokens"@, 16),
                None => 16,
            };
            &&& u.get("prompt_tokens"@) == Some(json::num(p))
            &&& u.get("completion_tokens"@) == Some(json::num(c))
            &&& u.get("total_tokens"@) == Some(json::num((p + c) as u64))
        },
        None => match v.get("usage"@) {
            Some(g) => u == g,
            None => {
                &&& u.get("prompt_tokens"@) == Some(json::num(1))
                &&& u.get("completion_tokens"@) == Some(json::num(1))
                &&& u.get("total_tokens"@) == Some(json::num(2))
            },
        },
    }
}

/// A client that reads a reply finds what every reply of its kind holds, with a single choice.
pub open spec fn shows_kind(t: Tree, kind: Seq<char>, choice: Tree) -> bool {
    &&& t.str_at("id"@) == Some("1"@)
    &&& t.str_at("object"@) == Some(kind)
    &&& t.get("created"@) == Some(json::num(0))
    &&& t.str_at("model"@) == Some("fake-model"@)
    &&& t.list_at("choices"@) == Some(seq![choice])
    &&& choice.get("index"@) == Some(json::num(0))
}

/// The response is one JSON object, out of which a client reads the programmed message: the
/// content and the reasoning whole, the tool calls as given, the reason and the usage.
pub open spec fn tells(r: ResponseModel, v: Tree, prompt: Option<u64>, t: Tree) -> bool {
    let choice = t.list_at("choices"@)->0[0];
    let message = choice.get("message"@)->0;
    let thoughts = text::joined(programmed_texts(v, "reasoning_chunks"@, "reasoning"@));
    &&& r.status == programmed_status(v)
    &&& r.content_type == "application/json"@
    &&& r.body == response::BodyModel::Buffered(vstd::utf8::encode_utf8(codec::written(t)))
    &&& shows_kind(t, "chat.completion"@, choice)
    &&& choice.get("finish_reason"@) == Some(
        Tree::Str(
            match v.str_at("finish_reason"@) {
                Some(f) => f,
                None => "stop"@,
            },
        ),
    )
    &&& choice.get("message"@) is Some
    &&& message.str_at("role"@) == Some("assistant"@)
    &&& message.str_at("content"@) == Some(
        text::joined(programmed_texts(v, "chunks"@, "content"@)),
    )
    &&& message.get("reasoning_content"@) == (if thoughts.len() > 0 {
        Some(Tree::Str(thoughts))
    } else {
        None
    })
    &&& message.get("tool_calls"@) == v.get("tool_calls"@)
    &&& t.get("usage"@) matches Some(u)
    &&& shows_usage(u, v, prompt)
}

/// The delta of a streamed chunk, which gives no reason and no usage yet.
pub open spec fn open_delta(t: Tree) -> Option<Tree> {
    let choice = t.list_at("choices"@)->0[0];
    if shows_kind(t, "chat.completion.chunk"@, choice) && choice.get("finish_reason"@) == Some(
        Tree::Null,
    ) && t.get("usage"@) is None {
        choice.get("delta"@)
    } else {
        None
    }
}

/// The response is a stream of these chunks in these frames: the reasoning, piece by piece, then
/// the content, piece by piece, with the tool calls on its first, then the reason and the usage,
/// and the end mark; each piece but the first of its row after the programmed pause.
pub open spec fn streams(
    r: ResponseModel,
    v: Tree,
    prompt: Option<u64>,
    frames: Seq<FrameModel>,
    chunks: Seq<Tree>,
) -> bool {
    let thoughts = programmed_texts(v, "reasoning_chunks"@, "reasoning"@);
    let words = programmed_texts(v, "chunks"@, "content"@);
    let a = thoughts.len() as int;
    let b = if words.len() == 0 {
        1int
    } else {
        words.len() as int
    };
    let cut = v.bool_at("truncate"@) == Some(true);
    let pace = programmed_number(v, "chunk_delay_ms"@, 0);
    let hang_ms = programmed_number(v, "hang_ms"@, 0);
    let last = chunks.last();
    let ending = last.list_at("choices"@)->0[0];
    &&& r.status == programmed_status(v)
    &&& r.content_type == "text/event-stream"@
    &&& r.body == (if pace > 0 || hang_ms > 0 || cut {
        response::BodyModel::Streamed { frames, hang_ms }
    } else {
        response::BodyModel::Buffered(response::frame_bytes(frames))
    })
    &&& chunks.len() == a + b + if cut {
        0int
    } else {
        1
    }
    &&& frames.len() == chunks.len() + if cut {
        0int
    } else {
        1
    }
    &&& forall|i: int|
        0 <= i < chunks.len() ==> (#[trigger] frames[i]).data == vstd::utf8::encode_utf8(
            "data: "@ + codec::written(chunks[i]) + "\n\n"@,
        )
    &&& forall|i: int|
        0 <= i < a + b ==> (#[trigger] frames[i]).delay_ms == if i == 0 || i == a {
            0
        } else {
            pace
        }
    &&& forall|i: int|
        0 <= i < a ==> {
            &&& open_delta(#[trigger] chunks[i]) matches Some(d)
            &&& d.str_at("role"@) == Some("assistant"@)
            &&& d.str_at("reasoning_content"@) == Some(thoughts[i])
            &&& d.get("content"@) is None
            &&& d.get("tool_calls"@) is None
        }
    &&& forall|i: int|
        a <= i < a + b ==> {
            &&& open_delta(#[trigger] chunks[i]) matches Some(d)
            &&& d.str_at("role"@) == Some("assistant"@)
            &&& d.get("reasoning_content"@) is None
            &&& d.get("content"@) == (if words.len() == 0 {
                None
            } else {
                Some(Tree::Str(words[i - a]))
            })
            &&& d.get("tool_calls"@) == (if i == a {
                v.get("tool_calls"@)
            } else {
                None
            })
        }
    &&& !cut ==> {
        &&& shows_kind(last, "chat.completion.chunk"@, ending)
        &&& ending.get("delta"@) == Some(Tree::Obj(Map::empty()))
        &&& ending.get("finish_reason"@) == Some(
            Tree::Str(
                match v.str_at("finish_reason"@) {
                    Some(f) => f,
                    None => "stop"@,
                },
            ),
        )
        &&& last.get("usage"@) matches Some(u)
        &&& shows_usage(u, v, prompt)
        &&& frames[a + b].delay_ms == 0
        &&& frames.last().delay_ms == 0
        &&& frames.last().data == vstd::utf8::encode_utf8("data: [DONE]\n\n"@)
    }
}

/// The response is an error, out of which a client reads what was programmed: an object with all
/// its members and a type, anything else as the message; never with the status of success.
pub open spec fn complains(r: ResponseModel, v: Tree, t: Tree) -> bool {
    let e = v.get("error"@)->0;
    let inner = t.get("error"@)->0;
    &&& r.status == (if programmed_status(v) == 200 {
        400
    } else {
        programmed_status(v)
    })
    &&& r.content_type == "application/json"@
    &&& r.body == response::BodyModel::Buffered(vstd::utf8::encode_utf8(codec::written(t)))
    &&& t.get("error"@) is Some
    &&& e is Obj ==> forall|k: Seq<char>|
        k != "type"@ ==> #[trigger] inner.get(k) == e.get(k)
    &&& e is Obj && e.get("type"@) is Some ==> inner.get("type"@) == e.get("type"@)
    &&& !(e is Obj && e.get("type"@) is Some) ==> inner.str_at("type"@) == Some(
        "invalid_request_error"@,
    )
    &&& !(e is Obj) ==> inner.get("message"@) == Some(e) && inner.get("code"@) == Some(Tree::Null)
}

/// The response is what a programmed value describes, for a request that wants a stream or not.
#[verifier::opaque]
pub open spec fn performs(r: ResponseModel, v: Tree, stream: bool, prompt: Option<u64>) -> bool {
    if v.get("error"@) is Some {
        exists|t: Tree| #[trigger] complains(r, v, t)
    } else if v.str_at("raw_body"@) is Some {
        &&& r.status == programmed_status(v)
        &&& r.content_type == (match v.str_at("content_type"@) {
            Some(c) => c,
            None => "text/event-stream"@,
        })
        &&& r.body == response::BodyModel::Buffered(
            vstd::utf8::encode_utf8(v.str_at("raw_body"@)->0),
        )
    } else if stream {
        exists|frames: Seq<FrameModel>, chunks: Seq<Tree>| #[trigger]
            streams(r, v, prompt, frames, chunks)
    } else {
        exists|t: Tree| #[trigger] tells(r, v, prompt, t)
    }
}

/// The names of the members of replies are distinct.
proof fn lemma_reply_keys()
    ensures
        "id"@.len() == 2,
        "object"@.len() == 6,
        "created"@.len() == 7,
        "model"@.len() == 5,
        "choices"@.len() == 7,
        "usage"@.len() == 5,
        "index"@.len() == 5,
        "message"@.len() == 7,
        "delta"@.len() == 5,
        "finish_reason"@.len() == 13,
        "role"@.len() == 4,
        "content"@.len() == 7,
        "reasoning_content"@.len() == 17,
        "tool_calls"@.len() == 10,
        "type"@.len() == 4,
        "code"@.len() == 4,
        "prompt_tokens"@.len() == 13,
        "completion_tokens"@.len() == 17,
        "total_tokens"@.len() == 12,
        "created"@ != "choices"@,
        "model"@ != "usage"@,
        "delta"@ != "index"@,
        "type"@ != "code"@,
{
    reveal_strlit("id");
    reveal_strlit("object");
    reveal_strlit("created");
    reveal_strlit("model");
    reveal_strlit("choices");
    reveal_strlit("usage");
    reveal_strlit("index");
    reveal_strlit("message");
    reveal_strlit("delta");
    reveal_strlit("finish_reason");
    reveal_strlit("role");
    reveal_strlit("content");
    reveal_strlit("reasoning_content");
    reveal_strlit("tool_calls");
    reveal_strlit("type");
    reveal_strlit("code");
    reveal_strlit("prompt_tokens");
    reveal_strlit("completion_tokens");
    reveal_strlit("total_tokens");
    assert("created"@[1] == 'r' && "choices"@[1] == 'h');
    assert("model"@[0] == 'm' && "usage"@[0] == 'u');
    assert("delta"@[0] == 'd' && "index"@[0] == 'i');
    assert("type"@[0] == 't' && "code"@[0] == 'c');
}

/// What a client reads out of a reply with a choice.
proof fn lemma_kind(kind: Seq<char>, choice: Tree, usage: Tree)
    requires
        choice.get("index"@) == Some(json::num(0)),
    ensures
        ({
            let m = reply_members(kind, choice);
            &&& shows_kind(Tree::Obj(m), kind, choice)
            &&& shows_kind(Tree::Obj(m.insert("usage"@, usage)), kind, choice)
            &&& Tree::Obj(m).get("usage"@) is None
            &&& Tree::Obj(m.insert("usage"@, usage)).get("usage"@) == Some(usage)
            &&& seq![choice][0] == choice
        }),
{
    lemma_reply_keys();
}

/// What a client reads out of a choice with a delta.
proof fn lemma_delta_choice(delta: Map<Seq<char>, Tree>, finish: Tree)
    ensures
        ({
            let c = delta_choice(delta, finish);
            &&& c.get("index"@) == Some(json::num(0))
            &&& c.get("delta"@) == Some(Tree::Obj(delta))
            &&& c.get("finish_reason"@) == Some(finish)
        }),
{
    lemma_reply_keys();
}

/// What a client reads out of the usage.
proof fn lemma_shows_usage(v: Tree, prompt: Option<u64>)
    ensures
        shows_usage(usage_of(SpecModel { derived_prompt: prompt, ..spec_of(v) }), v, prompt),
{
    lemma_reply_keys();
}

/// The texts that a spec delivers are those that were programmed.
proof fn lemma_programmed_texts(v: Tree)
    ensures
        content_of(spec_of(v)) == programmed_texts(v, "chunks"@, "content"@),
        reasoning_of(spec_of(v)) == programmed_texts(v, "reasoning_chunks"@, "reasoning"@),
{
    assert(content_of(spec_of(v)) =~= programmed_texts(v, "chunks"@, "content"@));
    assert(reasoning_of(spec_of(v)) =~= programmed_texts(v, "reasoning_chunks"@, "reasoning"@));
}

/// A reply that is not streamed holds the programmed message.
proof fn lemma_tells(v: Tree, prompt: Option<u64>)
    requires
        v.get("error"@) is None,
        v.str_at("raw_body"@) is None,
    ensures
        ({
            let s = SpecModel { derived_prompt: prompt, ..spec_of(v) };
            tells(rendered(s, false), v, prompt, completion_tree(s))
        }),
{
    lemma_reply_keys();
    lemma_programmed_texts(v);
    lemma_shows_usage(v, prompt);
    let s = SpecModel { derived_prompt: prompt, ..spec_of(v) };
    assert(content_of(s) == content_of(spec_of(v)));
    assert(reasoning_of(s) == reasoning_of(spec_of(v)));
    let message = Tree::Obj(message_of(s));
    let choice = Tree::Obj(
        map![
            "index"@ => json::num(0),
            "message"@ => message,
            "finish_reason"@ => Tree::Str(finish_of(s)),
        ],
    );
    assert(choice.get("index"@) == Some(json::num(0)));
    assert(choice.get("message"@) == Some(message));
    assert(choice.get("finish_reason"@) == Some(Tree::Str(finish_of(s))));
    lemma_kind("chat.completion"@, choice, usage_of(s));
    assert(message.get("tool_calls"@) == s.tool_calls);
    assert(message.str_at("role"@) == Some("assistant"@));
    assert(message.str_at("content"@) == Some(text::joined(content_of(s))));
}

/// A stream holds the programmed message, piece by piece.
proof fn lemma_streams(v: Tree, prompt: Option<u64>)
    requires
        v.get("error"@) is None,
        v.str_at("raw_body"@) is None,
    ensures
        ({
            let s = SpecModel { derived_prompt: prompt, ..spec_of(v) };
            let chunks = stream_events(s).map_values(|e: Event| e.value);
            streams(rendered(s, true), v, prompt, stream_frames(s), chunks)
        }),
{
    lemma_reply_keys();
    lemma_programmed_texts(v);
    lemma_shows_usage(v, prompt);
    let s = SpecModel { derived_prompt: prompt, ..spec_of(v) };
    assert(content_of(s) == content_of(spec_of(v)));
    assert(reasoning_of(s) == reasoning_of(spec_of(v)));
    let events = stream_events(s);
    let chunks = events.map_values(|e: Event| e.value);
    let frames = stream_frames(s);
    let r = reasoning_events(s);
    let c = content_events(s);
    let a = r.len() as int;
    let b = c.len() as int;
    assert forall|i: int| 0 <= i < chunks.len() implies #[trigger] frames[i] == carrier(
        events[i],
    ) by {}
    assert forall|i: int| 0 <= i < a implies ({
        &&& open_delta(#[trigger] chunks[i]) == Some(Tree::Obj(reasoning_delta(reasoning_of(s)[i])))
    }) by {
        assert(events[i] == r[i]);
        let d = reasoning_delta(reasoning_of(s)[i]);
        lemma_delta_choice(d, Tree::Null);
        lemma_kind("chat.completion.chunk"@, delta_choice(d, Tree::Null), Tree::Null);
    }
    assert forall|i: int| a <= i < a + b implies ({
        &&& open_delta(#[trigger] chunks[i]) == Some(
            Tree::Obj(
                content_delta(
                    if content_of(s).len() == 0 {
                        None
                    } else {
                        Some(content_of(s)[i - a])
                    },
                    if i == a {
                        s.tool_calls
                    } else {
                        None
                    },
                ),
            ),
        )
    }) by {
        assert(events[i] == c[i - a]);
        let d = content_delta(
            if content_of(s).len() == 0 {
                None
            } else {
                Some(content_of(s)[i - a])
            },
            if i == a {
                s.tool_calls
            } else {
                None
            },
        );
        lemma_delta_choice(d, Tree::Null);
        lemma_kind("chat.completion.chunk"@, delta_choice(d, Tree::Null), Tree::Null);
    }
    if !s.truncate {
        let d = Map::<Seq<char>, Tree>::empty();
        let finish = Tree::Str(finish_of(s));
        lemma_delta_choice(d, finish);
        lemma_kind("chat.completion.chunk"@, delta_choice(d, finish), usage_of(s));
        assert(chunks.last() == finish_tree(s));
        assert(frames.last() == done_frame());
        assert(frames[a + b] == carrier(events[a + b]));
    }
}

/// What is programmed is what is answered. Whatever value was programmed, the response to a
/// request is the one that the value describes: its error, its raw body, or a message with its
/// content, reasoning, tool calls, reason and usage, in one object or piece by piece.
pub proof fn law_rendering_performs_what_was_programmed(
    v: Tree,
    stream: bool,
    prompt: Option<u64>,
)
    ensures
        performs(
            rendered(SpecModel { derived_prompt: prompt, ..spec_of(v) }, stream),
            v,
            stream,
            prompt,
        ),
{
    reveal(performs);
    let s = SpecModel { derived_prompt: prompt, ..spec_of(v) };
    let r = rendered(s, stream);
    if v.get("error"@) is Some {
        lemma_reply_keys();
        let t = error_tree(v.get("error"@)->0);
        assert(complains(r, v, t));
    } else if v.str_at("raw_body"@) is None {
        if stream {
            lemma_streams(v, prompt);
        } else {
            lemma_tells(v, prompt);
        }
    }
}

/// Both ways of answering carry the same tool calls: the message of a reply that is not streamed
/// has them exactly where they were programmed, whatever its content, and so has the first chunk
/// of content of the stream.
pub proof fn law_tool_calls_reach_the_client(v: Tree, prompt: Option<u64>)
    requires
        v.get("error"@) is None,
        v.str_at("raw_body"@) is None,
    ensures
        ({
            let s = SpecModel { derived_prompt: prompt, ..spec_of(v) };
            let n = programmed_texts(v, "reasoning_chunks"@, "reasoning"@).len() as int;
            exists|t: Tree, frames: Seq<FrameModel>, chunks: Seq<Tree>|
                {
                    let message = t.list_at("choices"@)->0[0].get("message"@)->0;
                    &&& #[trigger] tells(rendered(s, false), v, prompt, t)
                    &&& #[trigger] streams(rendered(s, true), v, prompt, frames, chunks)
                    &&& message.get("tool_calls"@) == v.get("tool_calls"@)
                    &&& open_delta(chunks[n]) matches Some(d)
                    &&& d.get("tool_calls"@) == message.get("tool_calls"@)
                }
        }),
{
    let s = SpecModel { derived_prompt: prompt, ..spec_of(v) };
    let n = programmed_texts(v, "reasoning_chunks"@, "reasoning"@).len() as int;
    let t = completion_tree(s);
    let frames = stream_frames(s);
    let chunks = stream_events(s).map_values(|e: Event| e.value);
    lemma_tells(v, prompt);
    lemma_streams(v, prompt);
    assert(tells(rendered(s, false), v, prompt, t));
    assert(streams(rendered(s, true), v, prompt, frames, chunks));
    assert(open_delta(chunks[n]) is Some);
}

/// A value that shows a programmed one: what it gave, as it gave it, and its status and timing.
pub open spec fn shows_programmed(t: Tree, v: Tree) -> bool {
    &&& t.str_at("raw_body"@) == v.str_at("raw_body"@)
    &&& t.str_at("content_type"@) == v.str_at("content_type"@)
    &&& t.str_at("content"@) == v.str_at("content"@)
    &&& t.str_at("reasoning"@) == v.str_at("reasoning"@)
    &&& t.str_at("finish_reason"@) == v.str_at("finish_reason"@)
    &&& t.get("tool_calls"@) == v.get("tool_calls"@)
    &&& t.get("error"@) == v.get("error"@)
    &&& t.get("usage"@) == v.get("usage"@)
    &&& t.get("status"@) == Some(json::num(programmed_status(v) as u64))
    &&& t.get("delay_ms"@) == Some(
        json::num(programmed_number(v, "delay_ms"@, 0)),
    )
    &&& t.get("chunk_delay_ms"@) == Some(
        json::num(programmed_number(v, "chunk_delay_ms"@, 0)),
    )
    &&& t.get("hang_ms"@) == Some(json::num(programmed_number(v, "hang_ms"@, 0)))
    &&& t.get("truncate"@) == Some(Tree::Bool(v.bool_at("truncate"@) == Some(true)))
    &&& t.list_at("chunks"@) is Some == v.list_at("chunks"@) is Some
    &&& programmed_texts(t, "chunks"@, "content"@) == programmed_texts(
        v,
        "chunks"@,
        "content"@,
    )
    &&& programmed_texts(t, "reasoning_chunks"@, "reasoning"@)
        == programmed_texts(v, "reasoning_chunks"@, "reasoning"@)
}

/// The members of what describes a spec, one by one.
#[verifier::rlimit(60)]
proof fn lemma_spec_members(s: SpecModel)
    ensures
        ({
            let t = spec_tree(s);
            &&& t.get("raw_body"@) == text_value(s.raw_body)
            &&& t.get("content_type"@) == text_value(s.content_type)
            &&& t.get("content"@) == text_value(s.content)
            &&& t.get("reasoning"@) == text_value(s.reasoning)
            &&& t.get("reasoning_chunks"@) == texts_value(s.reasoning_chunks)
            &&& t.get("chunks"@) == texts_value(s.chunks)
            &&& t.get("tool_calls"@) == s.tool_calls
            &&& t.get("error"@) == s.error
            &&& t.get("finish_reason"@) == text_value(s.finish_reason)
            &&& t.get("usage"@) == s.usage
            &&& t.get("status"@) == Some(json::num(s.status as u64))
            &&& t.get("delay_ms"@) == Some(json::num(s.delay_ms))
            &&& t.get("chunk_delay_ms"@) == Some(json::num(s.chunk_delay_ms))
            &&& t.get("hang_ms"@) == Some(json::num(s.hang_ms))
            &&& t.get("truncate"@) == Some(Tree::Bool(s.truncate))
        }),
{
    lemma_spec_keys();
}

/// The value that describes a programmed response shows what it was programmed with.
pub proof fn law_programmed_values_are_shown(v: Tree)
    ensures
        shows_programmed(spec_tree(spec_of(v)), v),
{
    let s = spec_of(v);
    let t = spec_tree(s);
    lemma_spec_members(s);
    assert(programmed_texts(t, "chunks"@, "content"@) =~= programmed_texts(
        v,
        "chunks"@,
        "content"@,
    ));
    assert(programmed_texts(t, "reasoning_chunks"@, "reasoning"@) =~= programmed_texts(
        v,
        "reasoning_chunks"@,
        "reasoning"@,
    ));
}

/// The specs of two rows of lines are those of the one, then those of the other.
proof fn lemma_line_specs(a: Seq<Seq<char>>, b: Seq<Seq<char>>)
    ensures
        line_specs(a + b) == line_specs(a) + line_specs(b),
    decreases b.len(),
{
    if b.len() == 0 {
        assert(a + b =~= a);
        assert(line_specs(a) + line_specs(b) =~= line_specs(a));
    } else {
        lemma_line_specs(a, b.drop_last());
        assert((a + b).drop_last() =~= a + b.drop_last());
        assert(line_specs(a + b) =~= line_specs(a) + line_specs(b));
    }
}

/// A file that holds a JSON list or object programs what that value would; any other file programs
/// line by line: the lines ahead of a line break first, then those behind it.
pub proof fn law_files_program_like_values(content: Seq<char>, a: Seq<char>, b: Seq<char>)
    ensures
        codec::read_text(content) matches Ok(t) ==> t is Arr || t is Obj ==> file_specs(content)
            == specs_in(t),
        !(codec::read_text(content) matches Ok(t) && (t is Arr || t is Obj)) && content == a
            + seq!['\n'] + b ==> file_specs(content) == line_specs(text::split_of(a, '\n'))
            + line_specs(text::split_of(b, '\n')),
{
    text::law_a_text_is_split_at_its_marks(a, '\n', b);
    lemma_line_specs(text::split_of(a, '\n'), text::split_of(b, '\n'));
}

/// A line that spells a JSON value, whatever white space is around it, programs that one value; a
/// blank line, or one that spells none, programs nothing.
pub proof fn law_a_line_programs_one_value(line: Seq<char>)
    requires
        !line.contains('\n'),
    ensures
        ({
            let specs = line_specs(text::split_of(line, '\n'));
            let t = text::trim_of(line);
            &&& specs == (match line_spec(line) {
                Some(s) => seq![s],
                None => Seq::empty(),
            })
            &&& t.len() == 0 || codec::read_text(t) is Err ==> specs.len() == 0
            &&& t.len() > 0 ==> (codec::read_text(t) matches Ok(v) ==> specs == specs_in(
                Tree::Arr(seq![v]),
            ))
        }),
{
    text::law_a_text_without_marks_is_one_piece(line, '\n');
    let one = seq![line];
    assert(one.drop_last() =~= Seq::empty());
    assert(line_specs(one.drop_last()) =~= Seq::empty());
    assert(one.last() == line);
    let specs = line_specs(one);
    assert(specs =~= (match line_spec(line) {
        Some(s) => seq![s],
        None => Seq::empty(),
    }));
    let t = text::trim_of(line);
    if t.len() > 0 {
        if let Ok(v) = codec::read_text(t) {
            assert(specs =~= specs_in(Tree::Arr(seq![v])));
        }
    }
}

} // verus!
