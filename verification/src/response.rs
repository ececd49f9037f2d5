//! HTTP messages: the request as received, the response as built, and the reader
//! that hands out a timed stream piece by piece.

use std::collections::VecDeque;

use vstd::prelude::*;
use vstd::string::*;

use crate::codec::{self, parse_bytes, to_text, READ_DEPTH};
use crate::json::{self, Json, Members, Tree};
use crate::text::same;

verus! {

/// The chat stream that answers when nothing is programmed: one "ok" delta, the
/// closing frame, and the end mark.
pub const SSE_RESPONSE: &'static str = "data: {\"id\":\"1\",\"object\":\"chat.completion.chunk\",\"created\":0,\"model\":\"fake-model\",\"choices\":[{\"index\":0,\"delta\":{\"role\":\"assistant\",\"content\":\"ok\"},\"finish_reason\":null}]}\n\ndata: {\"id\":\"1\",\"object\":\"chat.completion.chunk\",\"created\":0,\"model\":\"fake-model\",\"choices\":[{\"index\":0,\"delta\":{},\"finish_reason\":\"stop\"}],\"usage\":{\"prompt_tokens\":1,\"completion_tokens\":1,\"total_tokens\":2}}\n\ndata: [DONE]\n\n";

/// The content type of an event stream.
pub const CONTENT_TYPE_SSE: &'static str = "text/event-stream";

/// The content type of a JSON body.
pub const CONTENT_TYPE_JSON: &'static str = "application/json";

/// The text that bytes give when each malformed sequence is replaced.
pub uninterp spec fn lossy_text(bytes: Seq<u8>) -> Seq<char>;

/// `String::from_utf8_lossy`: a function of the bytes alone; bytes that are valid UTF-8 come out
/// as the text they encode.
#[verifier::external_body]
fn lossy(bytes: &[u8]) -> (r: String)
    ensures
        r@ == lossy_text(bytes@),
        vstd::utf8::valid_utf8(bytes@) ==> r@ == vstd::utf8::decode_utf8(bytes@),
{
    String::from_utf8_lossy(bytes).into_owned()
}

/// A request as received. The path keeps its query; the headers are an object;
/// the body is its JSON value, or `{"_raw": ...}` where it is none; and the bytes
/// are kept beside it, because the body of a binary upload is lossy.
pub struct ParsedRequest {
    pub method: String,
    pub path: String,
    pub headers: Json,
    pub body: Json,
    pub raw: Vec<u8>,
}

/// What a request holds.
pub struct RequestModel {
    pub method: Seq<char>,
    pub path: Seq<char>,
    pub headers: Tree,
    pub body: Tree,
    pub raw: Seq<u8>,
}

impl View for ParsedRequest {
    type V = RequestModel;

    open spec fn view(&self) -> RequestModel {
        RequestModel {
            method: self.method@,
            path: self.path@,
            headers: self.headers@,
            body: self.body@,
            raw: self.raw@,
        }
    }
}

/// The object of the headers: a field that comes twice counts by its last value.
pub open spec fn header_fields(headers: Seq<(String, String)>) -> Map<Seq<char>, Tree>
    decreases headers.len(),
{
    if headers.len() == 0 {
        Map::empty()
    } else {
        header_fields(headers.drop_last()).insert(
            headers.last().0@,
            Tree::Str(headers.last().1@),
        )
    }
}

/// The body of a request by its bytes: their JSON value, or their text under `_raw`.
pub open spec fn body_of(raw: Seq<u8>) -> Tree {
    match codec::read_bytes(raw) {
        Some(t) => t,
        None => Tree::Obj(map!["_raw"@ => Tree::Str(lossy_text(raw))]),
    }
}

/// The body of a request by the text that a client sent: its JSON value, or the text under
/// `_raw`.
pub open spec fn sent_body(sent: Seq<char>) -> Tree {
    match codec::read_text(sent) {
        Ok(t) => t,
        Err(_) => Tree::Obj(map!["_raw"@ => Tree::Str(sent)]),
    }
}

/// Puts a request together from what came in over the wire. A client that sends text gets the
/// JSON value of that text across, or the text itself.
pub fn parse_request(
    method: String,
    path: String,
    headers: &[(String, String)],
    raw: Vec<u8>,
) -> (r: ParsedRequest)
    ensures
        r@ == (RequestModel {
            method: method@,
            path: path@,
            headers: Tree::Obj(header_fields(headers@)),
            body: body_of(raw@),
            raw: raw@,
        }),
        vstd::utf8::valid_utf8(raw@) ==> r@.body == sent_body(vstd::utf8::decode_utf8(raw@)),
{
    let mut m = Members::new();
    let mut i: usize = 0;
    assert(headers@.take(0) =~= Seq::empty());
    while i < headers.len()
        invariant
            i <= headers.len(),
            m@ == header_fields(headers@.take(i as int)),
        decreases headers.len() - i,
    {
        m.set(headers[i].0.as_str(), Json::Str(headers[i].1.clone()));
        assert(headers@.take(i + 1).drop_last() =~= headers@.take(i as int));
        i += 1;
    }
    assert(headers@.take(headers@.len() as int) =~= headers@);
    let body = match parse_bytes(raw.as_slice()) {
        Some(j) => j,
        None => Members::new().with("_raw", Json::Str(lossy(raw.as_slice()))).done(),
    };
    ParsedRequest { method, path, headers: m.done(), body, raw }
}

/// One frame of a timed stream: hold for `delay_ms`, then send `data`.
pub struct Frame {
    pub delay_ms: u64,
    pub data: Vec<u8>,
}

/// What a frame holds.
pub struct FrameModel {
    pub delay_ms: u64,
    pub data: Seq<u8>,
}

impl View for Frame {
    type V = FrameModel;

    open spec fn view(&self) -> FrameModel {
        FrameModel { delay_ms: self.delay_ms, data: self.data@ }
    }
}

/// What a row of frames holds.
pub open spec fn frame_models(frames: Seq<Frame>) -> Seq<FrameModel> {
    frames.map_values(|f: Frame| f@)
}

/// The bytes of all frames, in order.
pub open spec fn frame_bytes(frames: Seq<FrameModel>) -> Seq<u8>
    decreases frames.len(),
{
    if frames.len() == 0 {
        Seq::<u8>::empty()
    } else {
        frame_bytes(frames.drop_last()) + frames.last().data
    }
}

/// The bytes of all frames.
pub fn flatten(frames: Vec<Frame>) -> (r: Vec<u8>)
    ensures
        r@ == frame_bytes(frame_models(frames@)),
{
    let mut out: Vec<u8> = Vec::new();
    let mut i: usize = 0;
    let ghost models = frame_models(frames@);
    assert(models.take(0) =~= Seq::empty());
    while i < frames.len()
        invariant
            i <= frames.len(),
            models == frame_models(frames@),
            out@ == frame_bytes(models.take(i as int)),
        decreases frames.len() - i,
    {
        out.extend_from_slice(frames[i].data.as_slice());
        assert(models.take(i + 1).drop_last() =~= models.take(i as int));
        assert(models.take(i + 1).last() == frames@[i as int]@);
        i += 1;
    }
    assert(models.take(i as int) =~= models);
    out
}

/// The body of a response: sent in one go, or frame by frame with pauses and a
/// final hold.
pub enum Body {
    Buffered(Vec<u8>),
    Streamed { frames: Vec<Frame>, hang_ms: u64 },
}

/// What a body holds.
pub enum BodyModel {
    Buffered(Seq<u8>),
    Streamed { frames: Seq<FrameModel>, hang_ms: u64 },
}

/// All the bytes of a body.
pub open spec fn body_bytes(b: BodyModel) -> Seq<u8> {
    match b {
        BodyModel::Buffered(bytes) => bytes,
        BodyModel::Streamed { frames, .. } => frame_bytes(frames),
    }
}

impl View for Body {
    type V = BodyModel;

    open spec fn view(&self) -> BodyModel {
        match self {
            Body::Buffered(b) => BodyModel::Buffered(b@),
            Body::Streamed { frames, hang_ms } => BodyModel::Streamed {
                frames: frame_models(frames@),
                hang_ms: *hang_ms,
            },
        }
    }
}

/// A response, independent of the server that will send it.
pub struct HttpResponse {
    pub status: u16,
    pub content_type: String,
    pub body: Body,
}

/// What a response holds.
pub struct ResponseModel {
    pub status: u16,
    pub content_type: Seq<char>,
    pub body: BodyModel,
}

impl View for HttpResponse {
    type V = ResponseModel;

    open spec fn view(&self) -> ResponseModel {
        ResponseModel {
            status: self.status,
            content_type: self.content_type@,
            body: self.body@,
        }
    }
}

/// A body sent in one go.
pub open spec fn plain(status: u16, content_type: Seq<char>, body: Seq<u8>) -> ResponseModel {
    ResponseModel { status, content_type, body: BodyModel::Buffered(body) }
}

/// A JSON body.
pub open spec fn json_reply(status: u16, value: Tree) -> ResponseModel {
    plain(status, CONTENT_TYPE_JSON@, vstd::utf8::encode_utf8(codec::written(value)))
}

/// What a client reads out of a JSON body.
pub open spec fn read_back(r: ResponseModel) -> Option<Tree> {
    match codec::read_text(vstd::utf8::decode_utf8(body_bytes(r.body))) {
        Ok(t) => Some(t),
        Err(_) => None,
    }
}

/// An event stream sent in one go.
pub open spec fn sse_reply(status: u16, body: Seq<u8>) -> ResponseModel {
    plain(status, CONTENT_TYPE_SSE@, body)
}

/// An event stream sent frame by frame.
pub open spec fn timed_reply(
    status: u16,
    content_type: Seq<char>,
    frames: Seq<FrameModel>,
    hang_ms: u64,
) -> ResponseModel {
    ResponseModel { status, content_type, body: BodyModel::Streamed { frames, hang_ms } }
}

impl HttpResponse {
    /// A response that is sent in one go.
    pub fn new(status: u16, content_type: &str, body: Vec<u8>) -> (r: HttpResponse)
        ensures
            r@ == plain(status, content_type@, body@),
    {
        HttpResponse {
            status,
            content_type: content_type.to_owned(),
            body: Body::Buffered(body),
        }
    }

    /// A JSON response, out of which a client reads the value.
    pub fn json(status: u16, value: &Json) -> (r: HttpResponse)
        ensures
            r@ == json_reply(status, value@),
            json::lossless(value@, READ_DEPTH as nat) ==> read_back(r@) == Some(value@),
    {
        let t = to_text(value);
        proof {
            vstd::utf8::encode_utf8_decode_utf8(t@);
        }
        HttpResponse::new(status, CONTENT_TYPE_JSON, t.as_str().as_bytes_vec())
    }

    /// An event stream that is sent in one go.
    pub fn sse(status: u16, body: Vec<u8>) -> (r: HttpResponse)
        ensures
            r@ == sse_reply(status, body@),
    {
        HttpResponse::new(status, CONTENT_TYPE_SSE, body)
    }

    /// A response that is sent frame by frame.
    pub fn streamed(
        status: u16,
        content_type: &str,
        frames: Vec<Frame>,
        hang_ms: u64,
    ) -> (r: HttpResponse)
        ensures
            r@ == timed_reply(status, content_type@, frame_models(frames@), hang_ms),
    {
        HttpResponse {
            status,
            content_type: content_type.to_owned(),
            body: Body::Streamed { frames, hang_ms },
        }
    }

    /// Whether the response goes out with `Cache-Control: no-cache`: every timed
    /// stream, and every event stream.
    pub fn uncached(&self) -> (r: bool)
        ensures
            r == (self@.body is Streamed || self@.content_type == CONTENT_TYPE_SSE@),
    {
        match &self.body {
            Body::Streamed { .. } => true,
            Body::Buffered(_) => same(self.content_type.as_str(), CONTENT_TYPE_SSE),
        }
    }
}

/// Hands out a timed stream: the bytes of each frame after its pause, then one
/// final hold, then the end.
pub struct FrameReader {
    frames: VecDeque<Frame>,
    current: Vec<u8>,
    pos: usize,
    hang_ms: u64,
    hung: bool,
}

/// What a reader has yet to give: the rest of the frame at hand, the frames behind
/// it, and the hold at the end (zero when there is none, or when it is over).
pub struct ReaderModel {
    pub rest: Seq<u8>,
    pub frames: Seq<FrameModel>,
    pub hold: u64,
}

/// What the reader asks for next.
pub enum Pull {
    /// Hand out these bytes.
    Data(Vec<u8>),
    /// Wait this many milliseconds, then ask again.
    Wait(u64),
    /// The stream is over.
    End,
}

/// What a pull holds.
pub enum PullModel {
    Data(Seq<u8>),
    Wait(u64),
    End,
}

impl View for Pull {
    type V = PullModel;

    open spec fn view(&self) -> PullModel {
        match self {
            Pull::Data(b) => PullModel::Data(b@),
            Pull::Wait(ms) => PullModel::Wait(*ms),
            Pull::End => PullModel::End,
        }
    }
}

impl View for FrameReader {
    type V = ReaderModel;

    closed spec fn view(&self) -> ReaderModel {
        ReaderModel {
            rest: self.current@.skip(self.pos as int),
            frames: frame_models(self.frames@),
            hold: if self.hung {
                0
            } else {
                self.hang_ms
            },
        }
    }
}

/// One step of a reader that may hand out at most `room` bytes.
pub open spec fn pull_of(r: ReaderModel, room: nat) -> (ReaderModel, PullModel) {
    if r.rest.len() > 0 {
        let n = if r.rest.len() < room {
            r.rest.len()
        } else {
            room
        };
        (
            ReaderModel { rest: r.rest.skip(n as int), ..r },
            PullModel::Data(r.rest.take(n as int)),
        )
    } else if r.frames.len() > 0 {
        (
            ReaderModel { rest: r.frames[0].data, frames: r.frames.skip(1), hold: r.hold },
            PullModel::Wait(r.frames[0].delay_ms),
        )
    } else if r.hold > 0 {
        (ReaderModel { hold: 0, ..r }, PullModel::Wait(r.hold))
    } else {
        (r, PullModel::End)
    }
}

impl FrameReader {
    /// The reader's place lies within the frame at hand.
    pub closed spec fn wf(self) -> bool {
        self.pos <= self.current@.len()
    }

    /// A reader at the start of a stream.
    pub fn new(frames: Vec<Frame>, hang_ms: u64) -> (r: FrameReader)
        ensures
            r.wf(),
            r@ == (ReaderModel {
                rest: Seq::<u8>::empty(),
                frames: frame_models(frames@),
                hold: hang_ms,
            }),
    {
        let ghost all = frames@;
        let mut queue: VecDeque<Frame> = VecDeque::new();
        for f in it: frames
            invariant
                it.seq() == all,
                queue@ == all.take(it.index() as int),
        {
            queue.push_back(f);
        }
        assert(all.take(all.len() as int) =~= all);
        let r = FrameReader { frames: queue, current: Vec::new(), pos: 0, hang_ms, hung: false };
        assert(r@.rest =~= Seq::<u8>::empty());
        r
    }

    /// The next step towards the end of the stream, with room for `room` bytes.
    pub fn pull(&mut self, room: usize) -> (p: Pull)
        requires
            old(self).wf(),
        ensures
            final(self).wf(),
            (final(self)@, p@) == pull_of(old(self)@, room as nat),
    {
        if self.pos < self.current.len() {
            let left: usize = self.current.len() - self.pos;
            let n: usize = if left < room {
                left
            } else {
                room
            };
            let out = vstd::slice::slice_subrange(
                self.current.as_slice(),
                self.pos,
                self.pos + n,
            );
            let data = vstd::slice::slice_to_vec(out);
            assert(data@ =~= old(self)@.rest.take(n as int));
            self.pos = self.pos + n;
            assert(self@.rest =~= old(self)@.rest.skip(n as int));
            return Pull::Data(data);
        }
        assert(self@.rest =~= Seq::<u8>::empty());
        match self.frames.pop_front() {
            Some(f) => {
                let ms: u64 = f.delay_ms;
                self.current = f.data;
                self.pos = 0;
                assert(self@.rest =~= f@.data);
                assert(self@.frames =~= old(self)@.frames.skip(1));
                Pull::Wait(ms)
            },
            None => {
                assert(self@.frames =~= old(self)@.frames);
                if self.hang_ms > 0 && !self.hung {
                    self.hung = true;
                    Pull::Wait(self.hang_ms)
                } else {
                    Pull::End
                }
            },
        }
    }
}

/// A reader and what it gave, pull by pull, with room for so many bytes each time.
pub open spec fn pulled(r: ReaderModel, rooms: Seq<nat>) -> (ReaderModel, Seq<PullModel>)
    decreases rooms.len(),
{
    if rooms.len() == 0 {
        (r, Seq::empty())
    } else {
        let (next, p) = pull_of(r, rooms[0]);
        let (left, rest) = pulled(next, rooms.skip(1));
        (left, seq![p] + rest)
    }
}

/// How many pulls there can be ahead of the end.
pub open spec fn pulls_left(r: ReaderModel) -> nat {
    r.rest.len() + r.frames.len() + frame_bytes(r.frames).len() + if r.hold > 0 {
        1nat
    } else {
        0
    }
}

/// The bytes that a row of pulls hands out.
pub open spec fn handed_out(pulls: Seq<PullModel>) -> Seq<u8>
    decreases pulls.len(),
{
    if pulls.len() == 0 {
        Seq::<u8>::empty()
    } else {
        (match pulls[0] {
            PullModel::Data(b) => b,
            _ => Seq::<u8>::empty(),
        }) + handed_out(pulls.skip(1))
    }
}

/// The time that a row of pulls waits, in milliseconds.
pub open spec fn waited(pulls: Seq<PullModel>) -> nat
    decreases pulls.len(),
{
    if pulls.len() == 0 {
        0
    } else {
        (match pulls[0] {
            PullModel::Wait(ms) => ms as nat,
            _ => 0,
        }) + waited(pulls.skip(1))
    }
}

/// The pauses of a row of frames, in milliseconds.
pub open spec fn frame_pauses(frames: Seq<FrameModel>) -> nat
    decreases frames.len(),
{
    if frames.len() == 0 {
        0
    } else {
        frames[0].delay_ms as nat + frame_pauses(frames.skip(1))
    }
}

/// The bytes of frames do not depend on their pauses.
pub proof fn lemma_frame_bytes_untimed(a: Seq<FrameModel>, b: Seq<FrameModel>)
    requires
        a.len() == b.len(),
        forall|i: int| 0 <= i < a.len() ==> (#[trigger] a[i]).data == b[i].data,
    ensures
        frame_bytes(a) == frame_bytes(b),
    decreases a.len(),
{
    if a.len() > 0 {
        assert(a.last() == a[a.len() - 1]);
        lemma_frame_bytes_untimed(a.drop_last(), b.drop_last());
    }
}

/// The bytes of the first frame come first.
pub proof fn lemma_frame_bytes_first(frames: Seq<FrameModel>)
    requires
        frames.len() > 0,
    ensures
        frame_bytes(frames) == frames[0].data + frame_bytes(frames.skip(1)),
    decreases frames.len(),
{
    if frames.len() == 1 {
        assert(frames.drop_last() =~= Seq::empty());
        assert(frames.skip(1) =~= Seq::empty());
        assert(frame_bytes(frames) =~= frames[0].data + frame_bytes(frames.skip(1)));
    } else {
        lemma_frame_bytes_first(frames.drop_last());
        assert(frames.drop_last().skip(1) =~= frames.skip(1).drop_last());
        assert(frame_bytes(frames) =~= frames[0].data + frame_bytes(frames.skip(1)));
    }
}

/// Nothing is lost on the way: however much room there is at each pull, what was handed out and
/// what is left make up the stream, and so do the pauses.
pub proof fn law_stream_stays_whole(r: ReaderModel, rooms: Seq<nat>)
    ensures
        ({
            let (left, pulls) = pulled(r, rooms);
            &&& handed_out(pulls) + left.rest + frame_bytes(left.frames) == r.rest + frame_bytes(
                r.frames,
            )
            &&& waited(pulls) + frame_pauses(left.frames) + left.hold == frame_pauses(r.frames)
                + r.hold
        }),
    decreases rooms.len(),
{
    let (left, pulls) = pulled(r, rooms);
    if rooms.len() == 0 {
        assert(handed_out(pulls) + left.rest + frame_bytes(left.frames) =~= r.rest + frame_bytes(
            r.frames,
        ));
    } else {
        let (next, p) = pull_of(r, rooms[0]);
        let rest = pulled(next, rooms.skip(1)).1;
        law_stream_stays_whole(next, rooms.skip(1));
        assert(pulls[0] == p);
        assert(pulls.skip(1) =~= rest);
        if r.rest.len() == 0 && r.frames.len() > 0 {
            lemma_frame_bytes_first(r.frames);
        }
        let given = match p {
            PullModel::Data(b) => b,
            _ => Seq::<u8>::empty(),
        };
        assert(given + (next.rest + frame_bytes(next.frames)) =~= r.rest + frame_bytes(r.frames));
        assert(handed_out(pulls) + left.rest + frame_bytes(left.frames) =~= given + (handed_out(
            rest,
        ) + left.rest + frame_bytes(left.frames)));
    }
}

/// With some room at each pull the end comes, after no more pulls than there are bytes, frames
/// and holds.
proof fn lemma_end_comes(r: ReaderModel, rooms: Seq<nat>)
    requires
        forall|i: int| 0 <= i < rooms.len() ==> #[trigger] rooms[i] > 0,
        rooms.len() > pulls_left(r),
    ensures
        pulled(r, rooms).1.len() == rooms.len(),
        pulled(r, rooms).1.last() is End,
    decreases rooms.len(),
{
    let (next, p) = pull_of(r, rooms[0]);
    let rest = rooms.skip(1);
    if r.rest.len() == 0 && r.frames.len() > 0 {
        lemma_frame_bytes_first(r.frames);
    }
    lemma_pulls_len(next, rest);
    if rest.len() > 0 {
        assert(p is End || pulls_left(next) < pulls_left(r));
        assert(p is End ==> pulls_left(r) == 0 && next == r);
        lemma_end_comes(next, rest);
        assert(pulled(r, rooms).1.last() == pulled(next, rest).1.last());
    } else {
        assert(pulled(next, rest).1 =~= Seq::empty());
    }
}

/// There is one answer to each pull.
proof fn lemma_pulls_len(r: ReaderModel, rooms: Seq<nat>)
    ensures
        pulled(r, rooms).1.len() == rooms.len(),
    decreases rooms.len(),
{
    if rooms.len() > 0 {
        lemma_pulls_len(pull_of(r, rooms[0]).0, rooms.skip(1));
    }
}

/// Where the last pull is the end, nothing is left.
proof fn lemma_end_is_empty(r: ReaderModel, rooms: Seq<nat>)
    requires
        rooms.len() > 0,
        pulled(r, rooms).1.last() is End,
    ensures
        pulled(r, rooms).0.rest.len() == 0,
        pulled(r, rooms).0.frames.len() == 0,
        pulled(r, rooms).0.hold == 0,
    decreases rooms.len(),
{
    let (next, p) = pull_of(r, rooms[0]);
    let rest = rooms.skip(1);
    lemma_pulls_len(next, rest);
    if rest.len() > 0 {
        assert(pulled(r, rooms).1.last() == pulled(next, rest).1.last());
        lemma_end_is_empty(next, rest);
    } else {
        assert(pulled(next, rest).1 =~= Seq::empty());
        assert(pulled(r, rooms).1 =~= seq![p]);
    }
}

/// A stream arrives whole and in order, and takes the time it was given: read with room for some
/// bytes at each pull, as much or as little as the client likes from one pull to the next, the
/// reader comes to its end, and once it has, it has handed out exactly the bytes of its frames
/// and waited exactly the sum of their pauses and the final hold.
pub proof fn law_stream_arrives_whole(r: ReaderModel, rooms: Seq<nat>)
    requires
        forall|i: int| 0 <= i < rooms.len() ==> #[trigger] rooms[i] > 0,
    ensures
        rooms.len() > pulls_left(r) ==> pulled(r, rooms).1.last() is End,
        rooms.len() > 0 && pulled(r, rooms).1.last() is End ==> {
            &&& handed_out(pulled(r, rooms).1) == r.rest + frame_bytes(r.frames)
            &&& waited(pulled(r, rooms).1) == frame_pauses(r.frames) + r.hold
        },
{
    if rooms.len() > pulls_left(r) {
        lemma_end_comes(r, rooms);
    }
    law_stream_stays_whole(r, rooms);
    if rooms.len() > 0 && pulled(r, rooms).1.last() is End {
        lemma_end_is_empty(r, rooms);
        let (left, pulls) = pulled(r, rooms);
        assert(handed_out(pulls) + left.rest + frame_bytes(left.frames) =~= handed_out(pulls));
    }
}

/// The headers of a request are those that came in: each name stands for the last value that came
/// under it, and no other name stands for anything.
pub proof fn law_headers_count_by_their_last_value(headers: Seq<(String, String)>, key: Seq<char>)
    ensures
        Tree::Obj(header_fields(headers)).get(key) is Some <==> exists|i: int|
            0 <= i < headers.len() && (#[trigger] headers[i]).0@ == key,
        forall|i: int|
            0 <= i < headers.len() && (#[trigger] headers[i]).0@ == key && (forall|j: int|
                i < j < headers.len() ==> (#[trigger] headers[j]).0@ != key)
                ==> Tree::Obj(header_fields(headers)).str_at(key) == Some(headers[i].1@),
    decreases headers.len(),
{
    if headers.len() > 0 {
        let rest = headers.drop_last();
        let n = headers.len() - 1;
        law_headers_count_by_their_last_value(rest, key);
        assert(headers.last() == headers[n]);
        if headers[n].0@ != key {
            if exists|i: int| 0 <= i < headers.len() && (#[trigger] headers[i]).0@ == key {
                let i = choose|i: int| 0 <= i < headers.len() && (#[trigger] headers[i]).0@ == key;
                assert(rest[i] == headers[i]);
            }
            if exists|i: int| 0 <= i < rest.len() && (#[trigger] rest[i]).0@ == key {
                let i = choose|i: int| 0 <= i < rest.len() && (#[trigger] rest[i]).0@ == key;
                assert(headers[i] == rest[i]);
            }
            assert forall|i: int|
                0 <= i < headers.len() && (#[trigger] headers[i]).0@ == key && (forall|j: int|
                    i < j < headers.len() ==> (#[trigger] headers[j]).0@
                        != key) implies Tree::Obj(header_fields(headers)).str_at(key) == Some(
                headers[i].1@,
            ) by {
                assert(rest[i] == headers[i]);
                assert forall|j: int| i < j < rest.len() implies (#[trigger] rest[j]).0@ != key by {
                    assert(rest[j] == headers[j]);
                }
            }
        } else {
            assert forall|i: int|
                0 <= i < headers.len() && (#[trigger] headers[i]).0@ == key && (forall|j: int|
                    i < j < headers.len() ==> (#[trigger] headers[j]).0@
                        != key) implies Tree::Obj(header_fields(headers)).str_at(key) == Some(
                headers[i].1@,
            ) by {
                if i < n {
                    assert(headers[n].0@ != key);
                }
            }
        }
    }
}

/// The body of a request is the JSON value that its bytes spell; where they spell none, it is an
/// object with their text under a name of its own, and nothing else.
pub proof fn law_bodies_are_json_or_kept_as_text(raw: Seq<u8>)
    ensures
        codec::read_bytes(raw) matches Some(t) ==> body_of(raw) == t,
        codec::read_bytes(raw) is None ==> {
            &&& body_of(raw).str_at("_raw"@) == Some(lossy_text(raw))
            &&& forall|k: Seq<char>| k != "_raw"@ ==> #[trigger] body_of(raw).get(k) is None
        },
{
}

/// How far a reader has come: the frames that it has begun, whose bytes it has handed out but for
/// the rest of the last, and whose pauses it has waited; and the hold, once all is handed out.
pub open spec fn reader_at(
    r: ReaderModel,
    left: ReaderModel,
    pulls: Seq<PullModel>,
    begun: int,
) -> bool {
    &&& 0 <= begun <= r.frames.len()
    &&& left.frames == r.frames.skip(begun)
    &&& handed_out(pulls) + left.rest == r.rest + frame_bytes(r.frames.take(begun))
    &&& waited(pulls) == frame_pauses(r.frames.take(begun)) + (r.hold - left.hold)
    &&& left.hold == r.hold || (left.hold == 0 && begun == r.frames.len() && left.rest.len() == 0)
}

/// No byte comes ahead of its pause, and no pause ahead of the bytes before it: after any number
/// of pulls, the reader has waited exactly the pauses of the frames that it has begun, and handed
/// out their bytes and no others; the final hold comes when all bytes are out.
pub proof fn law_bytes_come_behind_their_pauses(r: ReaderModel, rooms: Seq<nat>)
    ensures
        exists|begun: int| #[trigger]
            reader_at(r, pulled(r, rooms).0, pulled(r, rooms).1, begun),
    decreases rooms.len(),
{
    let (left, pulls) = pulled(r, rooms);
    if rooms.len() == 0 {
        assert(r.frames.take(0) =~= Seq::empty());
        assert(r.frames.skip(0) =~= r.frames);
        assert(handed_out(pulls) + left.rest =~= r.rest + frame_bytes(r.frames.take(0)));
        assert(reader_at(r, left, pulls, 0));
    } else {
        let (next, p) = pull_of(r, rooms[0]);
        let rest = pulled(next, rooms.skip(1)).1;
        law_bytes_come_behind_their_pauses(next, rooms.skip(1));
        let k = choose|k: int| #[trigger] reader_at(next, left, rest, k);
        assert(pulls[0] == p);
        assert(pulls.skip(1) =~= rest);
        if r.rest.len() > 0 {
            assert(next.frames == r.frames);
            let given = p->Data_0;
            assert(given + next.rest =~= r.rest);
            assert(handed_out(pulls) + left.rest =~= given + (handed_out(rest) + left.rest));
            assert(given + (next.rest + frame_bytes(r.frames.take(k))) =~= r.rest + frame_bytes(
                r.frames.take(k),
            ));
            assert(reader_at(r, left, pulls, k));
        } else if r.frames.len() > 0 {
            let more = r.frames.take(k + 1);
            assert(next.frames.skip(k) =~= r.frames.skip(k + 1));
            lemma_frame_bytes_first(more);
            assert(more.skip(1) =~= next.frames.take(k));
            assert(more[0] == r.frames[0]);
            assert(handed_out(pulls) + left.rest =~= handed_out(rest) + left.rest);
            assert(r.rest + frame_bytes(more) =~= frame_bytes(more));
            assert(reader_at(r, left, pulls, k + 1));
        } else {
            assert(r.frames.take(k) =~= next.frames.take(k));
            assert(handed_out(pulls) + left.rest =~= handed_out(rest) + left.rest);
            assert(frame_bytes(r.frames.take(k)).len() == 0);
            assert(reader_at(r, left, pulls, k));
        }
    }
}

} // verus!
